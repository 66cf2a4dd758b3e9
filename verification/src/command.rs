//! The instructions, how a colour change selects one, and what each does.

use crate::decimal::{decimal, decimal_string};
use crate::direction::Direction;
use crate::interpreter::{Machine, PietProgram};
use crate::stack::rolled;
use vstd::prelude::*;
use vstd::string::StringExecFns;

verus! {

#[derive(Debug, PartialEq, Eq, Clone, Copy, Structural)]
pub enum Command {
    Black,
    White,
    Nothing,
    Push,
    Pop,
    Add,
    Subtract,
    Multiply,
    Divide,
    Mod,
    Not,
    Greater,
    Pointer,
    Switch,
    Duplicate,
    Roll,
    InNumber,
    InChar,
    OutNumber,
    OutChar,
}

/// What an instruction asks of the world around the program. The program
/// itself neither reads nor writes: whoever runs it does, when told so.
#[derive(Debug, PartialEq, Eq, Clone, Copy, Structural)]
pub enum Effect {
    /// Nothing to do.
    Nothing,
    /// Write the number in decimal.
    OutNumber(i32),
    /// Write the byte.
    OutChar(u8),
    /// Read a line and hand it to `Stack::in_number`.
    InNumber,
    /// Read a byte and hand it to `Stack::in_char`.
    InChar,
}

/// The quotient `b / a` rounded toward zero, wrapped into 32 bits (which
/// matters for the one quotient that does not fit, that of the least integer
/// by -1).
pub open spec fn quotient(b: i32, a: i32) -> i32
    recommends
        a != 0,
{
    if b == i32::MIN && a == -1 {
        i32::MIN
    } else if (b >= 0) == (a > 0) {
        (abs(b as int) / abs(a as int)) as i32
    } else {
        (-(abs(b as int) / abs(a as int))) as i32
    }
}

/// The remainder that goes with `quotient`; it has the sign of `b`.
pub open spec fn remainder(b: i32, a: i32) -> i32
    recommends
        a != 0,
{
    if b >= 0 {
        (abs(b as int) % abs(a as int)) as i32
    } else {
        (-(abs(b as int) % abs(a as int))) as i32
    }
}

/// The absolute value.
pub open spec fn abs(v: int) -> int {
    if v < 0 {
        -v
    } else {
        v
    }
}

/// The quotient of two absolute values is no greater than the first, and the
/// remainder is less than the second.
proof fn lemma_quotient_fits(b: int, a: int)
    requires
        a != 0,
    ensures
        0 <= abs(b) / abs(a) <= abs(b),
        0 <= abs(b) % abs(a) < abs(a),
{
    let x = abs(b);
    let y = abs(a);
    assert(0 <= x / y <= x && 0 <= x % y < y) by (nonlinear_arith)
        requires
            x >= 0,
            y >= 1,
    ;
}

/// The absolute value, in a type wide enough for that of the least integer.
fn magnitude(v: i32) -> (m: i64)
    ensures
        m == abs(v as int),
{
    if v < 0 {
        -(v as i64)
    } else {
        v as i64
    }
}

impl Command {
    /// The instruction for a change of lightness by `dl` steps and of hue by
    /// `dh` steps. No change at all selects nothing.
    pub open spec fn decoded(dl: int, dh: int) -> Command {
        if dl == 0 {
            if dh == 0 {
                Command::Nothing
            } else if dh == 1 {
                Command::Add
            } else if dh == 2 {
                Command::Divide
            } else if dh == 3 {
                Command::Greater
            } else if dh == 4 {
                Command::Duplicate
            } else {
                Command::InChar
            }
        } else if dl == 1 {
            if dh == 0 {
                Command::Push
            } else if dh == 1 {
                Command::Subtract
            } else if dh == 2 {
                Command::Mod
            } else if dh == 3 {
                Command::Pointer
            } else if dh == 4 {
                Command::Roll
            } else {
                Command::OutNumber
            }
        } else {
            if dh == 0 {
                Command::Pop
            } else if dh == 1 {
                Command::Multiply
            } else if dh == 2 {
                Command::Not
            } else if dh == 3 {
                Command::Switch
            } else if dh == 4 {
                Command::InNumber
            } else {
                Command::OutChar
            }
        }
    }

    /// One of the seventeen instructions, not a placeholder.
    pub open spec fn is_instruction(self) -> bool {
        self != Command::Black && self != Command::White && self != Command::Nothing
    }

    /// What an instruction with two operands puts in their place: `a` is the
    /// top of the stack and `b` the value below it. `None` where the
    /// instruction is ignored, which consumes both.
    pub open spec fn binary(self, b: i32, a: i32) -> Option<i32> {
        match self {
            Command::Add => Some(b.wrapping_add(a)),
            Command::Subtract => Some(b.wrapping_sub(a)),
            Command::Multiply => Some(b.wrapping_mul(a)),
            Command::Divide => if a == 0 {
                None
            } else {
                Some(quotient(b, a))
            },
            Command::Mod => if a == 0 {
                None
            } else {
                Some(remainder(b, a))
            },
            _ => Some(
                if b > a {
                    1i32
                } else {
                    0i32
                },
            ),
        }
    }

    /// Takes two operands.
    pub open spec fn is_binary(self) -> bool {
        self == Command::Add || self == Command::Subtract || self == Command::Multiply || self
            == Command::Divide || self == Command::Mod || self == Command::Greater
    }

    /// The stack after the instruction, where `value` is the size of the
    /// block just left. An instruction that finds too few values leaves the
    /// stack as it was.
    pub open spec fn stack_after(self, s: Seq<i32>, value: i32) -> Seq<i32> {
        let n = s.len() as int;
        if self == Command::Push {
            s.push(value)
        } else if self == Command::Roll {
            rolled(s)
        } else if self.is_binary() {
            if n < 2 {
                s
            } else {
                match self.binary(s[n - 2], s[n - 1]) {
                    Some(v) => s.subrange(0, n - 2).push(v),
                    None => s.subrange(0, n - 2),
                }
            }
        } else if n < 1 {
            s
        } else {
            match self {
                Command::Pop | Command::Pointer | Command::Switch | Command::OutNumber | Command::OutChar => s.drop_last(),
                Command::Not => s.drop_last().push(
                    if s[n - 1] == 0 {
                        1i32
                    } else {
                        0i32
                    },
                ),
                Command::Duplicate => s.push(s[n - 1]),
                _ => s,
            }
        }
    }

    /// The direction pointer after the instruction: `Pointer` turns it by
    /// the top of the stack, clockwise for a positive number.
    pub open spec fn dp_after(self, s: Seq<i32>, dp: Direction) -> Direction {
        if self == Command::Pointer && s.len() > 0 {
            dp.turned(s.last() as int)
        } else {
            dp
        }
    }

    /// The codel chooser after the instruction: `Switch` toggles it as many
    /// times as the top of the stack says.
    pub open spec fn cc_after(self, s: Seq<i32>, cc: Direction) -> Direction {
        if self == Command::Switch && s.len() > 0 {
            cc.toggled(s.last() as int)
        } else {
            cc
        }
    }

    /// What the instruction asks to be read or written.
    pub open spec fn effect(self, s: Seq<i32>) -> Effect {
        match self {
            Command::InNumber => Effect::InNumber,
            Command::InChar => Effect::InChar,
            Command::OutNumber => if s.len() > 0 {
                Effect::OutNumber(s.last())
            } else {
                Effect::Nothing
            },
            Command::OutChar => if s.len() > 0 && 0 <= s.last() <= 255 {
                Effect::OutChar(s.last() as u8)
            } else {
                Effect::Nothing
            },
            _ => Effect::Nothing,
        }
    }

    /// The machine after the instruction.
    pub open spec fn applied(self, m: Machine) -> Machine {
        Machine {
            stack: self.stack_after(m.stack, m.current_value),
            dp: self.dp_after(m.stack, m.dp),
            cc: self.cc_after(m.stack, m.cc),
            ..m
        }
    }

    /// The Forth token of an instruction; a push is written as the number
    /// pushed.
    pub open spec fn token(self, value: i32) -> Seq<char> {
        match self {
            Command::Push => decimal(value as int),
            Command::Pop => "DROP"@,
            Command::Add => "+"@,
            Command::Subtract => "-"@,
            Command::Multiply => "*"@,
            Command::Divide => "/"@,
            Command::Mod => "%"@,
            Command::Not => "NOT"@,
            Command::Greater => "GREATER"@,
            Command::Pointer => "DROP"@,
            Command::Switch => "DROP"@,
            Command::Duplicate => "DUP"@,
            Command::Roll => "PIET-ROLL"@,
            Command::InNumber => "INTEGER-INPUT"@,
            Command::InChar => "KEY"@,
            Command::OutNumber => "."@,
            _ => "EMIT"@,
        }
    }

    pub fn get_command(lightness_difference: i8, hue_difference: i8) -> (c: Self)
        requires
            0 <= lightness_difference < 3,
            0 <= hue_difference < 6,
        ensures
            c == Command::decoded(lightness_difference as int, hue_difference as int),
            c != Command::Black,
            c != Command::White,
            c == Command::Nothing <==> lightness_difference == 0 && hue_difference == 0,
    {
        match (lightness_difference, hue_difference) {
            (0, 0) => Self::Nothing,
            (0, 1) => Self::Add,
            (0, 2) => Self::Divide,
            (0, 3) => Self::Greater,
            (0, 4) => Self::Duplicate,
            (0, _) => Self::InChar,
            (1, 0) => Self::Push,
            (1, 1) => Self::Subtract,
            (1, 2) => Self::Mod,
            (1, 3) => Self::Pointer,
            (1, 4) => Self::Roll,
            (1, _) => Self::OutNumber,
            (_, 0) => Self::Pop,
            (_, 1) => Self::Multiply,
            (_, 2) => Self::Not,
            (_, 3) => Self::Switch,
            (_, 4) => Self::InNumber,
            (_, _) => Self::OutChar,
        }
    }

    /// Computes what an instruction with two operands puts in their place.
    fn compute(&self, b: i32, a: i32) -> (r: Option<i32>)
        requires
            self.is_binary(),
        ensures
            r == self.binary(b, a),
    {
        match self {
            Self::Add => Some(b.wrapping_add(a)),
            Self::Subtract => Some(b.wrapping_sub(a)),
            Self::Multiply => Some(b.wrapping_mul(a)),
            Self::Divide => {
                if a == 0 {
                    None
                } else if b == i32::MIN && a == -1 {
                    Some(i32::MIN)
                } else {
                    let q: i64 = magnitude(b) / magnitude(a);
                    proof {
                        lemma_quotient_fits(b as int, a as int);
                    }
                    if (b >= 0) == (a > 0) {
                        Some(q as i32)
                    } else {
                        Some((-q) as i32)
                    }
                }
            },
            Self::Mod => {
                if a == 0 {
                    None
                } else {
                    let r: i64 = magnitude(b) % magnitude(a);
                    proof {
                        lemma_quotient_fits(b as int, a as int);
                    }
                    if b >= 0 {
                        Some(r as i32)
                    } else {
                        Some((-r) as i32)
                    }
                }
            },
            _ => Some(
                if b > a {
                    1
                } else {
                    0
                },
            ),
        }
    }

    /// Carries the instruction out on `context` and says what is to be read
    /// or written for it. A placeholder does nothing.
    pub fn execute(&self, context: &mut PietProgram) -> (effect: Effect)
        requires
            old(context).well_formed(),
        ensures
            final(context).well_formed(),
            final(context).grid() == old(context).grid(),
            final(context)@ == self.applied(old(context)@),
            final(context)@.path == old(context)@.path,
            final(context)@.forth == old(context)@.forth,
            effect == self.effect(old(context)@.stack),
    {
        let ghost before = context.stack@;
        let mut effect = Effect::Nothing;
        match self {
            Self::Push => {
                let value = context.get_current_value();
                context.stack.push(value);
            },
            Self::Pop => {
                context.stack.pop();
            },
            Self::Add | Self::Subtract | Self::Multiply | Self::Divide | Self::Mod | Self::Greater => {
                if context.stack.len() >= 2 {
                    let a = context.stack.pop().unwrap();
                    let b = context.stack.pop().unwrap();
                    assert(context.stack@ =~= before.subrange(0, before.len() - 2));
                    match self.compute(b, a) {
                        Some(v) => {
                            context.stack.push(v);
                        },
                        None => {},
                    }
                }
            },
            Self::Not => {
                match context.stack.pop() {
                    Some(a) => {
                        context.stack.push(
                            if a == 0 {
                                1
                            } else {
                                0
                            },
                        );
                    },
                    None => {},
                }
            },
            Self::Pointer => {
                match context.stack.pop() {
                    Some(a) => {
                        context.turn_pointer(a);
                    },
                    None => {},
                }
            },
            Self::Switch => {
                match context.stack.pop() {
                    Some(a) => {
                        context.switch_chooser(a);
                    },
                    None => {},
                }
            },
            Self::Duplicate => {
                match context.stack.peek() {
                    Some(a) => {
                        context.stack.push(a);
                    },
                    None => {},
                }
            },
            Self::Roll => {
                context.stack.roll();
            },
            Self::InNumber => {
                effect = Effect::InNumber;
            },
            Self::InChar => {
                effect = Effect::InChar;
            },
            Self::OutNumber => {
                match context.stack.pop() {
                    Some(value) => {
                        effect = Effect::OutNumber(value);
                    },
                    None => {},
                }
            },
            Self::OutChar => {
                match context.stack.pop() {
                    Some(value) => {
                        if 0 <= value && value <= 255 {
                            effect = Effect::OutChar(value as u8);
                        }
                    },
                    None => {},
                }
            },
            _ => {},
        }
        effect
    }

    /// The Forth token of the instruction, where a push is written as the
    /// value that `context` would push.
    pub fn to_forth(&self, context: &PietProgram) -> (s: String)
        requires
            self.is_instruction(),
        ensures
            s@ == self.token(context@.current_value),
    {
        match self {
            Self::Push => decimal_string(context.get_current_value()),
            Self::Pop => String::from_str("DROP"),
            Self::Add => String::from_str("+"),
            Self::Subtract => String::from_str("-"),
            Self::Multiply => String::from_str("*"),
            Self::Divide => String::from_str("/"),
            Self::Mod => String::from_str("%"),
            Self::Not => String::from_str("NOT"),
            Self::Greater => String::from_str("GREATER"),
            Self::Pointer => String::from_str("DROP"),
            Self::Switch => String::from_str("DROP"),
            Self::Duplicate => String::from_str("DUP"),
            Self::Roll => String::from_str("PIET-ROLL"),
            Self::InNumber => String::from_str("INTEGER-INPUT"),
            Self::InChar => String::from_str("KEY"),
            Self::OutNumber => String::from_str("."),
            _ => String::from_str("EMIT"),
        }
    }
}

/// Only a change of lightness or of hue selects an instruction.
pub proof fn lemma_instruction_needs_change(dl: int, dh: int)
    requires
        0 <= dl < 3,
        0 <= dh < 6,
    ensures
        Command::decoded(dl, dh) != Command::Black,
        Command::decoded(dl, dh) != Command::White,
        Command::decoded(dl, dh).is_instruction() <==> dl != 0 || dh != 0,
{
}

/// A switch by `n`, done twice, leaves the codel chooser as it was.
pub proof fn lemma_switch_twice(s: Seq<i32>, cc: Direction, n: i32)
    ensures
        Command::Switch.cc_after(s.push(n), Command::Switch.cc_after(s.push(n), cc)) == cc,
{
}

/// A pointer by `n` and one by `-n` leave the direction pointer as it was.
pub proof fn lemma_pointer_back(s: Seq<i32>, dp: Direction, n: i32, back: i32)
    requires
        back == -n,
    ensures
        Command::Pointer.dp_after(s.push(back), Command::Pointer.dp_after(s.push(n), dp)) == dp,
{
    crate::direction::lemma_turned_back(dp, n as int);
}

/// A roll and the roll to the same depth by the opposite number restore the
/// stack below the operands.
pub proof fn lemma_roll_then_back(rest: Seq<i32>, value: i32, depth: i32, rolls: i32, back: i32)
    requires
        back == -rolls,
    ensures
        Command::Roll.stack_after(
            Command::Roll.stack_after(rest.push(depth).push(rolls), value).push(depth).push(back),
            value,
        ) == rest,
{
    crate::stack::lemma_roll_back(rest, depth, rolls, back);
}

/// `Not` done twice turns the top into 1 where it was not 0, and into 0
/// where it was.
pub proof fn lemma_not_twice(s: Seq<i32>, value: i32, x: i32)
    ensures
        Command::Not.stack_after(Command::Not.stack_after(s.push(x), value), value) == s.push(
            if x != 0 {
                1i32
            } else {
                0i32
            },
        ),
{
    let once = Command::Not.stack_after(s.push(x), value);
    assert(s.push(x).drop_last() =~= s);
    assert(once.drop_last() =~= s);
}

/// A duplicate followed by a pop leaves the stack as it was.
pub proof fn lemma_duplicate_then_pop(s: Seq<i32>, value: i32)
    ensures
        Command::Pop.stack_after(Command::Duplicate.stack_after(s, value), value) == s,
{
    if s.len() > 0 {
        assert(s.push(s.last()).drop_last() =~= s);
    }
}

/// No instruction makes a stack shorter than empty or loses more than two
/// values, and the codel chooser stays a codel chooser.
pub proof fn lemma_applied_keeps_shape(c: Command, m: Machine)
    requires
        m.cc.is_chooser(),
    ensures
        c.applied(m).cc.is_chooser(),
        c.applied(m).stack.len() + 2 >= m.stack.len(),
        c.applied(m).position == m.position,
        c.applied(m).forth == m.forth,
        c.applied(m).path == m.path,
{
    crate::stack::lemma_rolled_len(m.stack);
}

} // verus!
