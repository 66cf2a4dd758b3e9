//! The integer stack on which every instruction works.

use vstd::arithmetic::div_mod::{lemma_fundamental_div_mod, lemma_fundamental_div_mod_converse};
use crate::decimal::{decimal, push_decimal};
use crate::text::{line_value, parse_number};
use vstd::prelude::*;
use vstd::string::StringExecFns;

verus! {

/// A window of the stack turned by `rolls` single rolls. One roll takes the
/// last element (the top) and puts it in front (at the bottom), so after
/// `r` rolls the former top lies `r` deep. A negative count turns the window
/// the other way.
pub open spec fn rotated(window: Seq<i32>, rolls: int) -> Seq<i32> {
    if window.len() == 0 {
        window
    } else {
        let d = window.len() as int;
        let r = rolls % d;
        window.subrange(d - r, d) + window.subrange(0, d - r)
    }
}

/// What a roll makes of a stack, bottom first.
///
/// The top is the number of rolls, the value below it the depth. With fewer
/// than two values nothing happens. Otherwise both are consumed; a depth that
/// is negative or greater than what is left moves nothing, and else the top
/// `depth` values are turned.
pub open spec fn rolled(s: Seq<i32>) -> Seq<i32> {
    if s.len() < 2 {
        s
    } else {
        let rolls = s[s.len() - 1] as int;
        let depth = s[s.len() - 2] as int;
        let rest = s.subrange(0, s.len() - 2);
        if depth < 0 || depth > rest.len() {
            rest
        } else {
            rest.subrange(0, rest.len() - depth) + rotated(
                rest.subrange(rest.len() - depth, rest.len() as int),
                rolls,
            )
        }
    }
}

/// How a stack is shown: its values in decimal, the top first, with a
/// space between two.
pub open spec fn shown(s: Seq<i32>) -> Seq<char>
    decreases s.len(),
{
    if s.len() == 0 {
        Seq::empty()
    } else if s.len() == 1 {
        decimal(s[0] as int)
    } else {
        decimal(s.last() as int) + seq![' '] + shown(s.drop_last())
    }
}

/// A stack of 32-bit integers. Its view lists the values, bottom first.
#[derive(Debug)]
pub struct Stack {
    data: Vec<i32>,
}

impl View for Stack {
    type V = Seq<i32>;

    closed spec fn view(&self) -> Seq<i32> {
        self.data@
    }
}

impl Stack {
    pub fn new() -> (s: Self)
        ensures
            s@ == Seq::<i32>::empty(),
    {
        Stack { data: Vec::new() }
    }

    pub fn is_empty(&self) -> (b: bool)
        ensures
            b <==> self@.len() == 0,
    {
        self.data.len() == 0
    }

    pub fn len(&self) -> (n: usize)
        ensures
            n == self@.len(),
    {
        self.data.len()
    }

    pub fn push(&mut self, value: i32)
        ensures
            final(self)@ == old(self)@.push(value),
    {
        self.data.push(value);
    }

    /// Takes the top value off. An empty stack stays empty and gives `None`.
    pub fn pop(&mut self) -> (top: Option<i32>)
        ensures
            old(self)@.len() == 0 ==> top is None && final(self)@ == old(self)@,
            old(self)@.len() > 0 ==> top == Some(old(self)@.last()) && final(self)@ == old(
                self,
            )@.drop_last(),
    {
        if self.data.len() == 0 {
            return None;
        }
        self.data.pop()
    }

    /// The top value, left in place.
    pub fn peek(&self) -> (top: Option<i32>)
        ensures
            self@.len() == 0 ==> top is None,
            self@.len() > 0 ==> top == Some(self@.last()),
    {
        let n = self.data.len();
        if n == 0 {
            None
        } else {
            Some(self.data[n - 1])
        }
    }

    /// The values, bottom first.
    pub fn to_vec(&self) -> (v: Vec<i32>)
        ensures
            v@ == self@,
    {
        self.data.clone()
    }

    /// Pops the number of rolls and the depth, then turns the top `depth`
    /// values of what is left.
    pub fn roll(&mut self)
        ensures
            final(self)@ == rolled(old(self)@),
    {
        let n = self.data.len();
        if n < 2 {
            return;
        }
        let rolls: i32 = self.data[n - 1];
        let depth: i32 = self.data[n - 2];
        self.data.truncate(n - 2);
        let rest_len = n - 2;
        if depth < 0 || depth as usize > rest_len {
            return;
        }
        let d = depth as usize;
        if d == 0 {
            assert(self.data@ =~= rolled(old(self)@));
            return;
        }
        let turn: i32 = rolls % depth;
        let r: usize = if turn < 0 {
            (turn + depth) as usize
        } else {
            turn as usize
        };
        assert(r as int == (rolls as int) % (depth as int)) by {
            if rolls < 0 {
                lemma_mod_of_opposite(-(rolls as int), depth as int);
            }
        }
        let base = rest_len - d;
        let ghost rest = self.data@;
        let ghost window = rest.subrange(base as int, rest_len as int);
        let mut turned: Vec<i32> = Vec::new();
        let mut i: usize = 0;
        while i < d
            invariant
                i <= d,
                r < d,
                base + d == rest_len,
                self.data@ == rest,
                rest.len() == rest_len,
                window == rest.subrange(base as int, rest_len as int),
                turned@.len() == i,
                forall|k: int|
                    0 <= k < i ==> #[trigger] turned@[k] == window[if k < r {
                        d - r + k
                    } else {
                        k - r
                    }],
            decreases d - i,
        {
            let from = if i < r {
                d - r + i
            } else {
                i - r
            };
            turned.push(self.data[base + from]);
            i += 1;
        }
        self.data.truncate(base);
        let mut j: usize = 0;
        while j < d
            invariant
                j <= d,
                turned@.len() == d,
                self.data@ == rest.subrange(0, base as int) + turned@.subrange(0, j as int),
            decreases d - j,
        {
            self.data.push(turned[j]);
            j += 1;
            assert(self.data@ =~= rest.subrange(0, base as int) + turned@.subrange(0, j as int));
        }
        assert(turned@ =~= rotated(window, rolls as int));
        assert(self.data@ =~= rolled(old(self)@));
    }
}

impl Stack {
    /// Takes in a byte that was read: its value goes on top.
    pub fn in_char(&mut self, byte: u8)
        ensures
            final(self)@ == old(self)@.push(byte as i32),
    {
        let ch = byte as i32;
        self.push(ch);
    }

    /// Takes in a line that was read: the number on it goes on top. A line
    /// that holds no number is ignored.
    pub fn in_number(&mut self, line: &str)
        ensures
            final(self)@ == match line_value(line@) {
                Some(number) => old(self)@.push(number),
                None => old(self)@,
            },
    {
        match parse_number(line) {
            Some(number) => {
                self.push(number);
            },
            None => {},
        }
    }

    /// The values in decimal, the top first, with a space between two.
    pub fn to_string(&self) -> (s: String)
        ensures
            s@ == shown(self@),
    {
        let mut s = String::new();
        let n = self.data.len();
        let mut i: usize = n;
        proof {
            reveal_strlit(" ");
            assert(" "@ =~= seq![' ']);
            assert(self.data@.subrange(0, n as int) =~= self.data@);
            assert(s@ + shown(self.data@) =~= shown(self.data@));
        }
        while i > 0
            invariant
                i <= n,
                n == self.data@.len(),
                " "@ == seq![' '],
                shown(self.data@) == s@ + shown(self.data@.subrange(0, i as int)),
            decreases i,
        {
            let ghost upper = self.data@.subrange(0, i as int);
            let ghost text = s@;
            i -= 1;
            push_decimal(&mut s, self.data[i]);
            if i > 0 {
                s.append(" ");
            }
            proof {
                let lower = self.data@.subrange(0, i as int);
                assert(upper.drop_last() =~= lower);
                assert(upper.last() == self.data@[i as int]);
                if i > 0 {
                    assert(shown(upper) == decimal(upper.last() as int) + seq![' '] + shown(lower));
                    assert(s@ =~= text + decimal(upper.last() as int) + seq![' ']);
                    assert(s@ + shown(lower) =~= text + shown(upper));
                } else {
                    assert(shown(lower) =~= Seq::<char>::empty());
                    assert(s@ + shown(lower) =~= text + shown(upper));
                }
            }
        }
        proof {
            assert(self.data@.subrange(0, n as int) =~= self.data@);
            assert(shown(self.data@.subrange(0, 0)) =~= Seq::<char>::empty());
            assert(s@ + Seq::<char>::empty() =~= s@);
        }
        s
    }
}

impl Default for Stack {
    fn default() -> (s: Self)
        ensures
            s@ == Seq::<i32>::empty(),
    {
        Stack::new()
    }
}

/// The remainder of the opposite number.
proof fn lemma_mod_of_opposite(a: int, d: int)
    requires
        d > 0,
    ensures
        (-a) % d == if a % d == 0 {
            0
        } else {
            d - a % d
        },
{
    let q = a / d;
    let m = a % d;
    lemma_fundamental_div_mod(a, d);
    if m == 0 {
        assert(-a == (-q) * d + 0) by (nonlinear_arith)
            requires
                a == d * q + m,
                m == 0,
        ;
        lemma_fundamental_div_mod_converse(-a, d, -q, 0);
    } else {
        assert(-a == (-q - 1) * d + (d - m)) by (nonlinear_arith)
            requires
                a == d * q + m,
        ;
        lemma_fundamental_div_mod_converse(-a, d, -q - 1, d - m);
    }
}

/// Turning a window by some number of rolls and then by the opposite number
/// gives the window back.
pub proof fn lemma_rotated_back(window: Seq<i32>, rolls: int)
    ensures
        rotated(rotated(window, rolls), -rolls) == window,
{
    if window.len() > 0 {
        let d = window.len() as int;
        let r = rolls % d;
        lemma_mod_of_opposite(rolls, d);
        assert(rotated(rotated(window, rolls), -rolls) =~= window);
    }
}

/// A roll consumes its two operands and keeps every other value: the stack is
/// shorter by two, or unchanged where fewer than two values were there.
pub proof fn lemma_rolled_len(s: Seq<i32>)
    ensures
        s.len() < 2 ==> rolled(s) == s,
        s.len() >= 2 ==> rolled(s).len() == s.len() - 2,
{
}

/// A roll by some number of rolls, followed by a roll to the same depth by
/// the opposite number, gives the stack back as it was below the operands.
pub proof fn lemma_roll_back(rest: Seq<i32>, depth: i32, rolls: i32, back: i32)
    requires
        back == -rolls,
    ensures
        rolled(rolled(rest.push(depth).push(rolls)).push(depth).push(back)) == rest,
{
    let first = rest.push(depth).push(rolls);
    assert(first.subrange(0, first.len() - 2) =~= rest);
    let middle = rolled(first);
    let second = middle.push(depth).push(back);
    assert(second.subrange(0, second.len() - 2) =~= middle);
    if depth < 0 || depth > rest.len() {
        assert(middle == rest);
    } else {
        let n = rest.len() as int;
        let d = depth as int;
        let window = rest.subrange(n - d, n);
        let turned = rotated(window, rolls as int);
        assert(middle =~= rest.subrange(0, n - d) + turned);
        assert(middle.subrange(n - d, n) =~= turned);
        assert(middle.subrange(0, n - d) =~= rest.subrange(0, n - d));
        lemma_rotated_back(window, rolls as int);
        assert(rolled(second) =~= rest.subrange(0, n - d) + window);
        assert(rest.subrange(0, n - d) + window =~= rest);
    }
}

} // verus!
