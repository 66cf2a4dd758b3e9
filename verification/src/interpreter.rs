//! The walker: the program's grid together with the direction pointer, the
//! codel chooser, the place it stands on and the stack.

use crate::block::{
    block_of, cells_of, connected, exit_codel, exit_of, find_block, lemma_exit_unique,
    lemma_listed_block, lists_block,
};
use crate::color::{ColorName, PietColor};
use crate::command::{Command, Effect};
pub use crate::direction::Direction;
use crate::grid::{color_at, grid_height, grid_width, inside, name_at, pt, valid_grid};
use crate::stack::Stack;
use crate::translator::{written, Translator};
use vstd::prelude::*;
use vstd::string::StrSliceExecFns;

verus! {

/// The state of a running program, apart from its grid.
pub struct Machine {
    /// Where the walker stands, as `(x, y)`.
    pub position: (int, int),
    /// The direction pointer.
    pub dp: Direction,
    /// The codel chooser, `Left` or `Right`.
    pub cc: Direction,
    /// The stack, bottom first.
    pub stack: Seq<i32>,
    /// The size of the block last looked at, which a push pushes.
    pub current_value: i32,
    /// Steps taken so far.
    pub steps: nat,
    /// The greatest number of steps allowed; a negative number allows any.
    pub max_steps: int,
    /// The Forth text written so far, where the run is being translated.
    pub forth: Option<Seq<char>>,
    /// The path of the file that the Forth text is meant for, where the run
    /// is being translated.
    pub path: Option<Seq<char>>,
}

/// The place one codel ahead of `p` in direction `d`.
pub open spec fn ahead(p: (int, int), d: Direction) -> (int, int) {
    (p.0 + d.vector().0, p.1 + d.vector().1)
}

/// The walker can step onto the place: it is on the grid and not black.
pub open spec fn passable(g: Seq<Vec<PietColor>>, q: (int, int)) -> bool {
    inside(g, q) && name_at(g, q) != ColorName::Black
}

/// Codels between `p` and the border of the grid in direction `d`.
pub open spec fn room(g: Seq<Vec<PietColor>>, p: (int, int), d: Direction) -> int {
    match d {
        Direction::Right => grid_width(g) - 1 - p.0,
        Direction::Down => grid_height(g) - 1 - p.1,
        Direction::Left => p.0,
        Direction::Up => p.1,
    }
}

/// Where a glide from `p` in direction `d` ends. While the codel ahead is
/// white the walker moves onto it. It then lands on the codel ahead if that
/// one is coloured, and stays where it is if the border or black is ahead.
pub open spec fn slide(g: Seq<Vec<PietColor>>, p: (int, int), d: Direction) -> (int, int)
    decreases room(g, p, d),
{
    let n = ahead(p, d);
    if inside(g, p) && inside(g, n) && name_at(g, n) == ColorName::White {
        slide(g, n, d)
    } else if passable(g, n) {
        n
    } else {
        p
    }
}

/// The direction pointer at the attempt with number `k` to leave a block:
/// every second failure turns it clockwise.
pub open spec fn attempt_dp(dp: Direction, k: int) -> Direction {
    dp.turned(k / 2)
}

/// The codel chooser at the attempt with number `k` to leave a block: the
/// first failure and then every second one toggles it.
pub open spec fn attempt_cc(cc: Direction, k: int) -> Direction {
    cc.toggled((k + 1) / 2)
}

/// A passable codel lies ahead of the exit codel of the block of `p`.
pub open spec fn way_out(g: Seq<Vec<PietColor>>, p: (int, int), dp: Direction, cc: Direction) -> bool {
    passable(g, ahead(exit_of(g, p, dp, cc), dp))
}

/// The number of the first attempt from `k` on, out of eight, that finds a
/// way out of the block of `p`.
pub open spec fn first_way_out(
    g: Seq<Vec<PietColor>>,
    p: (int, int),
    dp: Direction,
    cc: Direction,
    k: int,
) -> Option<int>
    decreases 8 - k,
{
    if k >= 8 {
        None
    } else if way_out(g, p, attempt_dp(dp, k), attempt_cc(cc, k)) {
        Some(k)
    } else {
        first_way_out(g, p, dp, cc, k + 1)
    }
}

/// What one step of the walk did.
#[derive(Debug, PartialEq, Eq, Clone, Copy, Structural)]
pub enum Step {
    /// There is no way out of the block: the program has ended.
    Halt,
    /// The walker moved without an instruction, over white or out of it.
    Glide,
    /// The walker moved and the instruction was carried out; the effect is
    /// what it asks to be read or written.
    Run(Command, Effect),
}

/// The text after the token of `c` is written, where there is a text and
/// `c` is an instruction.
pub open spec fn forth_after(forth: Option<Seq<char>>, c: Command, value: i32) -> Option<Seq<char>> {
    match forth {
        Some(text) => if c.is_instruction() {
            Some(written(text, c.token(value)))
        } else {
            forth
        },
        None => None,
    }
}

/// The machine after one step of the walk, and what the step did.
///
/// On black the walker is stuck. Else the size of the block it stands on
/// becomes the current value, and the first of eight attempts that finds a
/// way out sets the pointer and the chooser; without one the program ends.
/// A white region on which a glide has come to rest counts as a block in
/// this. If white lies ahead of the exit codel the walker glides from
/// there. If it stands on white it steps out without an instruction. Else
/// it steps ahead, and the change of colour from the exit codel selects the
/// instruction, which is written to the translation and carried out.
pub open spec fn step_of(g: Seq<Vec<PietColor>>, m: Machine) -> (Machine, Step) {
    let p = m.position;
    if name_at(g, p) == ColorName::Black {
        (m, Step::Halt)
    } else {
        let sized = Machine { current_value: block_of(g, p).len() as i32, ..m };
        match first_way_out(g, p, m.dp, m.cc, 0) {
            None => (sized, Step::Halt),
            Some(k) => {
                let dp = attempt_dp(m.dp, k);
                let cc = attempt_cc(m.cc, k);
                let e = exit_of(g, p, dp, cc);
                let n = ahead(e, dp);
                let turned = Machine { dp, cc, ..sized };
                if name_at(g, n) == ColorName::White {
                    (Machine { position: slide(g, e, dp), ..turned }, Step::Glide)
                } else if name_at(g, p) == ColorName::White {
                    (Machine { position: n, ..turned }, Step::Glide)
                } else {
                    let c = Command::decoded(
                        color_at(g, e).spec_lightness_difference(color_at(g, n)),
                        color_at(g, e).spec_hue_difference(color_at(g, n)),
                    );
                    let moved = Machine {
                        position: n,
                        forth: forth_after(m.forth, c, sized.current_value),
                        ..turned
                    };
                    (c.applied(moved), Step::Run(c, c.effect(m.stack)))
                }
            },
        }
    }
}

/// The machine at the start of the walk: a walker that stands on white
/// glides before the first step.
pub open spec fn started(g: Seq<Vec<PietColor>>, m: Machine) -> Machine {
    if name_at(g, m.position) == ColorName::White {
        Machine { position: slide(g, m.position, m.dp), ..m }
    } else {
        m
    }
}

/// How a run came to stop.
#[derive(Debug, PartialEq, Eq, Clone, Copy, Structural)]
pub enum Status {
    /// The program has ended: no way led out of a block.
    Finished,
    /// As many steps were taken as are allowed.
    CapReached,
    /// The budget of the call is spent; the program can be run on.
    Paused,
    /// The last instruction asks for this; the program can be run on after.
    Needs(Effect),
}

/// As many steps were taken as are allowed.
pub open spec fn at_cap(m: Machine) -> bool {
    m.max_steps >= 0 && m.steps >= m.max_steps
}

/// The machine with one step more counted.
pub open spec fn counted(m: Machine) -> Machine {
    Machine {
        steps: if m.steps < u64::MAX {
            m.steps + 1
        } else {
            m.steps
        },
        ..m
    }
}

/// The machine after a run with a budget of `budget` steps, and how the run
/// came to stop. A step that moves the walker is counted; the one that finds
/// no way out is not.
pub open spec fn run_of(g: Seq<Vec<PietColor>>, m: Machine, budget: nat) -> (Machine, Status)
    decreases budget,
{
    if at_cap(m) {
        (m, Status::CapReached)
    } else if budget == 0 {
        (m, Status::Paused)
    } else {
        let (after, s) = step_of(g, m);
        match s {
            Step::Halt => (after, Status::Finished),
            Step::Glide => run_of(g, counted(after), (budget - 1) as nat),
            Step::Run(_, effect) => if effect == Effect::Nothing {
                run_of(g, counted(after), (budget - 1) as nat)
            } else {
                (counted(after), Status::Needs(effect))
            },
        }
    }
}

/// A glide that starts off black ends off black, and on the grid.
pub proof fn lemma_slide_off_black(g: Seq<Vec<PietColor>>, p: (int, int), d: Direction)
    requires
        inside(g, p),
    ensures
        inside(g, slide(g, p, d)),
        name_at(g, p) != ColorName::Black ==> name_at(g, slide(g, p, d)) != ColorName::Black,
    decreases room(g, p, d),
{
    let n = ahead(p, d);
    if inside(g, n) && name_at(g, n) == ColorName::White {
        lemma_slide_off_black(g, n, d);
    }
}

/// A step leaves the codel chooser at `Left` or `Right`, and does not touch
/// the count of steps, the greatest number allowed or the path of the
/// translation.
pub proof fn lemma_step_keeps_shape(g: Seq<Vec<PietColor>>, m: Machine)
    requires
        m.cc.is_chooser(),
    ensures
        step_of(g, m).0.cc.is_chooser(),
        step_of(g, m).0.steps == m.steps,
        step_of(g, m).0.max_steps == m.max_steps,
        step_of(g, m).0.path == m.path,
{
}

/// A run never takes more steps than are allowed, leaves the codel chooser
/// at `Left` or `Right`, and keeps the path of the translation.
pub proof fn lemma_run_within_cap(g: Seq<Vec<PietColor>>, m: Machine, budget: nat)
    requires
        m.cc.is_chooser(),
        m.max_steps >= 0 ==> m.steps <= m.max_steps,
    ensures
        run_of(g, m, budget).0.cc.is_chooser(),
        run_of(g, m, budget).0.max_steps == m.max_steps,
        run_of(g, m, budget).0.path == m.path,
        m.max_steps >= 0 ==> run_of(g, m, budget).0.steps <= m.max_steps,
        run_of(g, m, budget).0.steps <= m.steps + budget,
    decreases budget,
{
    if !at_cap(m) && budget > 0 {
        lemma_step_keeps_shape(g, m);
        let after = step_of(g, m).0;
        lemma_run_within_cap(g, counted(after), (budget - 1) as nat);
    }
}

/// A Piet program being run.
#[derive(Debug)]
pub struct PietProgram {
    pub(crate) grid: Vec<Vec<PietColor>>,
    pub stack: Stack,
    pub(crate) direction_pointer: Direction,
    pub(crate) codel_chooser: Direction,
    pub(crate) position: (i32, i32),
    pub(crate) current_value: i32,
    pub(crate) steps: u64,
    pub(crate) max_steps: i32,
    pub(crate) translator: Option<Translator>,
}

impl View for PietProgram {
    type V = Machine;

    open(crate) spec fn view(&self) -> Machine {
        Machine {
            position: pt(self.position),
            dp: self.direction_pointer,
            cc: self.codel_chooser,
            stack: self.stack@,
            current_value: self.current_value,
            steps: self.steps as nat,
            max_steps: self.max_steps as int,
            forth: match self.translator {
                Some(t) => Some(t@),
                None => None,
            },
            path: match self.translator {
                Some(t) => Some(t.path()),
                None => None,
            },
        }
    }
}

impl PietProgram {
    /// The grid the program runs on, row by row.
    pub open(crate) spec fn grid(&self) -> Seq<Vec<PietColor>> {
        self.grid@
    }

    /// The grid is valid, the walker stands on it, the codel chooser holds
    /// `Left` or `Right`, and no more steps were taken than are allowed.
    pub open spec fn well_formed(&self) -> bool {
        &&& valid_grid(self.grid())
        &&& inside(self.grid(), self@.position)
        &&& self@.cc.is_chooser()
        &&& self@.max_steps >= 0 ==> self@.steps <= self@.max_steps
    }

    /// A program at its start: the walker in the upper left corner, the
    /// direction pointer to the right, the codel chooser to the left, and on
    /// the stack the characters of `input_string`, the last one on top.
    pub fn new(grid: Vec<Vec<PietColor>>, input_string: String) -> (p: Self)
        requires
            valid_grid(grid@),
        ensures
            p.well_formed(),
            p.grid() == grid@,
            p@.dp == Direction::Right,
            p@.cc == Direction::Left,
            p@.position == (0int, 0int),
            p@.stack == Seq::new(input_string@.len(), |i: int| input_string@[i] as i32),
            p@.current_value == 0,
            p@.steps == 0,
            p@.max_steps == -1,
            p@.forth is None,
            p@.path is None,
    {
        let mut piet_stack = Stack::new();
        let text = input_string.as_str();
        let n = text.unicode_len();
        let mut i: usize = 0;
        while i < n
            invariant
                i <= n,
                n == text@.len(),
                piet_stack@ == Seq::new(i as nat, |k: int| text@[k] as i32),
            decreases n - i,
        {
            let x = text.get_char(i);
            let ascii = x as u32 as i32;
            piet_stack.push(ascii);
            i += 1;
            assert(piet_stack@ =~= Seq::new(i as nat, |k: int| text@[k] as i32));
        }
        PietProgram {
            grid,
            stack: piet_stack,
            direction_pointer: Direction::Right,
            codel_chooser: Direction::Left,
            position: (0, 0),
            current_value: 0,
            steps: 0,
            max_steps: -1,
            translator: None,
        }
    }

    pub fn get_color(&self, position: &(i32, i32)) -> (c: PietColor)
        requires
            valid_grid(self.grid()),
            inside(self.grid(), pt(*position)),
        ensures
            c == self.grid()[position.1 as int]@[position.0 as int],
            c.name == name_at(self.grid(), pt(*position)),
            c.well_formed(),
    {
        self.grid[position.1 as usize][position.0 as usize]
    }

    pub fn get_current_value(&self) -> (v: i32)
        ensures
            v == self@.current_value,
    {
        self.current_value
    }

    /// Where the walker stands, as `(x, y)`.
    pub fn position(&self) -> (p: (i32, i32))
        ensures
            pt(p) == self@.position,
    {
        self.position
    }

    pub fn direction_pointer(&self) -> (d: Direction)
        ensures
            d == self@.dp,
    {
        self.direction_pointer
    }

    pub fn codel_chooser(&self) -> (d: Direction)
        ensures
            d == self@.cc,
    {
        self.codel_chooser
    }

    /// Steps taken so far.
    pub fn steps(&self) -> (n: u64)
        ensures
            n == self@.steps,
    {
        self.steps
    }

    /// The translator, where the run is being translated.
    pub fn translator(&self) -> (t: &Option<Translator>)
        ensures
            self@.forth == match *t {
                Some(tr) => Some(tr@),
                None => None,
            },
            self@.path == match *t {
                Some(tr) => Some(tr.path()),
                None => None,
            },
    {
        &self.translator
    }

    pub fn toggle_codel_chooser(&mut self)
        requires
            old(self).well_formed(),
        ensures
            final(self).well_formed(),
            final(self).grid() == old(self).grid(),
            final(self)@ == (Machine { cc: old(self)@.cc.other_side(), ..old(self)@ }),
    {
        self.codel_chooser = self.codel_chooser.toggle(1);
    }

    pub fn move_pointer_clockwise(&mut self)
        requires
            old(self).well_formed(),
        ensures
            final(self).well_formed(),
            final(self).grid() == old(self).grid(),
            final(self)@ == (Machine { dp: old(self)@.dp.clockwise(), ..old(self)@ }),
    {
        self.direction_pointer = self.direction_pointer.rotate_clockwise();
    }

    pub fn move_pointer_anticlockwise(&mut self)
        requires
            old(self).well_formed(),
        ensures
            final(self).well_formed(),
            final(self).grid() == old(self).grid(),
            final(self)@ == (Machine { dp: old(self)@.dp.anticlockwise(), ..old(self)@ }),
    {
        self.direction_pointer = self.direction_pointer.rotate_anticlockwise();
    }

    /// Turns the direction pointer by `n` quarter turns, clockwise for a
    /// positive `n`.
    pub fn turn_pointer(&mut self, n: i32)
        requires
            old(self).well_formed(),
        ensures
            final(self).well_formed(),
            final(self).grid() == old(self).grid(),
            final(self)@ == (Machine { dp: old(self)@.dp.turned(n as int), ..old(self)@ }),
    {
        self.direction_pointer = self.direction_pointer.rotate(n);
    }

    /// Toggles the codel chooser `n` times.
    pub fn switch_chooser(&mut self, n: i32)
        requires
            old(self).well_formed(),
        ensures
            final(self).well_formed(),
            final(self).grid() == old(self).grid(),
            final(self)@ == (Machine { cc: old(self)@.cc.toggled(n as int), ..old(self)@ }),
    {
        self.codel_chooser = self.codel_chooser.toggle(n);
    }

    /// Glides from where the walker stands, in the direction of the pointer.
    pub fn glide(&mut self)
        requires
            old(self).well_formed(),
        ensures
            final(self).well_formed(),
            final(self).grid() == old(self).grid(),
            final(self)@ == (Machine {
                position: slide(old(self).grid(), old(self)@.position, old(self)@.dp),
                ..old(self)@
            }),
    {
        let h = self.grid.len();
        let w = self.grid[0].len();
        let (dx, dy) = self.direction_pointer.to_vector();
        proof {
            crate::grid::lemma_sides_fit(self.grid@);
        }
        loop
            invariant_except_break
                slide(self.grid(), self@.position, self@.dp) == slide(
                    old(self).grid(),
                    old(self)@.position,
                    old(self)@.dp,
                ),
            invariant
                self.well_formed(),
                self.grid() == old(self).grid(),
                h == grid_height(self.grid()),
                w == grid_width(self.grid()),
                w <= i32::MAX,
                h <= i32::MAX,
                dx == self@.dp.vector().0,
                dy == self@.dp.vector().1,
                self@ == (Machine { position: self@.position, ..old(self)@ }),
            ensures
                self.well_formed(),
                self.grid() == old(self).grid(),
                self@ == (Machine {
                    position: slide(old(self).grid(), old(self)@.position, old(self)@.dp),
                    ..old(self)@
                }),
            decreases room(self.grid(), self@.position, self@.dp),
        {
            let next_pos = (self.position.0 + dx, self.position.1 + dy);
            if next_pos.0 < 0 || next_pos.0 as usize >= w || next_pos.1 < 0 || next_pos.1 as usize
                >= h {
                break;
            }
            let name = self.grid[next_pos.1 as usize][next_pos.0 as usize].name;
            if name == ColorName::Black {
                break;
            }
            self.position = next_pos;
            if name != ColorName::White {
                break;
            }
        }
    }

    /// The colour block the walker stands on, each of its codels once.
    pub fn get_codels(&self) -> (codels: Vec<(i32, i32)>)
        requires
            self.well_formed(),
        ensures
            lists_block(self.grid(), self@.position, codels@),
            codels@.len() == block_of(self.grid(), self@.position).len(),
            0 < codels@.len() <= i32::MAX,
    {
        let codels = find_block(&self.grid, self.position);
        proof {
            lemma_listed_block(self.grid@, pt(self.position), codels@);
        }
        codels
    }

    /// The direction in which the codel chooser picks among the codels of
    /// an edge.
    pub fn choose_codel(&self) -> (d: Direction)
        ensures
            d == crate::block::chooser_direction(self@.dp, self@.cc),
    {
        crate::block::choose_codel(self.direction_pointer, self.codel_chooser)
    }

    /// The place one codel ahead of the walker, which may lie off the grid.
    pub fn get_next_position(&self) -> (next: Option<(i32, i32)>)
        requires
            self.well_formed(),
        ensures
            next matches Some(n) && pt(n) == ahead(self@.position, self@.dp),
    {
        self.ahead_of(self.position)
    }

    /// Whether the border of the grid or a black codel lies ahead of the
    /// walker.
    pub fn next_is_edge(&self) -> (blocked: bool)
        requires
            self.well_formed(),
        ensures
            blocked == !passable(self.grid(), ahead(self@.position, self@.dp)),
    {
        self.blocked_at(self.position)
    }

    fn ahead_of(&self, from: (i32, i32)) -> (next: Option<(i32, i32)>)
        requires
            valid_grid(self.grid()),
            inside(self.grid(), pt(from)),
        ensures
            next matches Some(n) && pt(n) == ahead(pt(from), self@.dp),
    {
        proof {
            crate::grid::lemma_sides_fit(self.grid@);
        }
        let (dx, dy) = self.direction_pointer.to_vector();
        Some((from.0 + dx, from.1 + dy))
    }

    fn blocked_at(&self, from: (i32, i32)) -> (blocked: bool)
        requires
            valid_grid(self.grid()),
            inside(self.grid(), pt(from)),
        ensures
            blocked == !passable(self.grid(), ahead(pt(from), self@.dp)),
    {
        proof {
            crate::grid::lemma_sides_fit(self.grid@);
        }
        let (dx, dy) = self.direction_pointer.to_vector();
        let n = (from.0 + dx, from.1 + dy);
        n.0 < 0 || n.0 as usize >= self.grid[0].len() || n.1 < 0 || n.1 as usize >= self.grid.len()
            || self.grid[n.1 as usize][n.0 as usize].name == ColorName::Black
    }

    /// Looks for a way out of the block that `codels` lists. The exit codel
    /// is tried as the pointer and the chooser stand; after each failure the
    /// chooser is toggled or, every other time, the pointer turned
    /// clockwise. Gives the exit codel of the first attempt that has a
    /// passable codel ahead. After eight failures there is none, and the
    /// pointer and the chooser have come back to where they stood.
    pub fn encounter_edge(&mut self, codels: &Vec<(i32, i32)>) -> (exit: Option<(i32, i32)>)
        requires
            old(self).well_formed(),
            lists_block(old(self).grid(), old(self)@.position, codels@),
        ensures
            final(self).well_formed(),
            final(self).grid() == old(self).grid(),
            match first_way_out(old(self).grid(), old(self)@.position, old(self)@.dp, old(self)@.cc, 0) {
                None => exit is None && final(self)@ == old(self)@,
                Some(k) => {
                    &&& 0 <= k < 8
                    &&& final(self)@ == (Machine {
                        dp: attempt_dp(old(self)@.dp, k),
                        cc: attempt_cc(old(self)@.cc, k),
                        ..old(self)@
                    })
                    &&& exit matches Some(e) && pt(e) == exit_of(
                        old(self).grid(),
                        old(self)@.position,
                        final(self)@.dp,
                        final(self)@.cc,
                    )
                    &&& passable(old(self).grid(), ahead(pt(exit->0), final(self)@.dp))
                    &&& connected(old(self).grid(), old(self)@.position, pt(exit->0))
                },
            },
    {
        let ghost g = self.grid@;
        let ghost p = pt(self.position);
        let ghost dp0 = self.direction_pointer;
        let ghost cc0 = self.codel_chooser;
        proof {
            lemma_listed_block(g, p, codels@);
            crate::block::lemma_connected_self(g, p);
        }
        let mut attempts: u8 = 0;
        while attempts < 8
            invariant
                attempts <= 8,
                self.well_formed(),
                self.grid() == g,
                g == old(self).grid(),
                p == old(self)@.position,
                dp0 == old(self)@.dp,
                cc0 == old(self)@.cc,
                lists_block(g, p, codels@),
                cells_of(codels@) == block_of(g, p),
                codels@.len() > 0,
                self@ == (Machine {
                    dp: attempt_dp(dp0, attempts as int),
                    cc: attempt_cc(cc0, attempts as int),
                    ..old(self)@
                }),
                first_way_out(g, p, dp0, cc0, 0) == first_way_out(g, p, dp0, cc0, attempts as int),
            decreases 8 - attempts,
        {
            let e = exit_codel(codels, self.direction_pointer, self.codel_chooser);
            proof {
                let k = choose|k: int| 0 <= k < codels@.len() && codels@[k] == e;
                assert(connected(g, p, pt(codels@[k])));
                let path = choose|path: Seq<(int, int)>| #[trigger]
                    crate::block::is_path(g, path) && path[0] == p && path.last() == pt(e);
                assert(inside(g, path[path.len() - 1]));
                lemma_exit_unique(
                    block_of(g, p),
                    self@.dp,
                    self@.cc,
                    pt(e),
                    exit_of(g, p, self@.dp, self@.cc),
                );
            }
            if !self.blocked_at(e) {
                return Some(e);
            }
            if attempts % 2 == 0 {
                self.codel_chooser = self.codel_chooser.toggle(1);
            } else {
                self.direction_pointer = self.direction_pointer.rotate_clockwise();
            }
            attempts += 1;
        }
        None
    }

    /// One step of the walk: out of the block the walker stands on, into
    /// the next one, with the instruction that the change of colour selects.
    pub fn step(&mut self) -> (s: Step)
        requires
            old(self).well_formed(),
        ensures
            final(self).well_formed(),
            final(self).grid() == old(self).grid(),
            (final(self)@, s) == step_of(old(self).grid(), old(self)@),
            final(self)@.path == old(self)@.path,
            name_at(old(self).grid(), old(self)@.position) != ColorName::Black ==> name_at(
                final(self).grid(),
                final(self)@.position,
            ) != ColorName::Black,
    {
        let here = self.get_color(&self.position);
        if here.name == ColorName::Black {
            return Step::Halt;
        }
        let codels = self.get_codels();
        self.current_value = codels.len() as i32;
        let ghost g = self.grid@;
        let ghost sized = self@;
        let exit = match self.encounter_edge(&codels) {
            None => {
                return Step::Halt;
            },
            Some(e) => e,
        };
        proof {
            let path = choose|path: Seq<(int, int)>| #[trigger]
                crate::block::is_path(g, path) && path[0] == sized.position && path.last() == pt(
                    exit,
                );
            assert(inside(g, path[path.len() - 1]));
        }
        let next = self.ahead_of(exit).unwrap();
        let from = self.get_color(&exit);
        let to = self.get_color(&next);
        if to.name == ColorName::White {
            self.position = exit;
            proof {
                lemma_slide_off_black(g, pt(exit), self@.dp);
            }
            self.glide();
            return Step::Glide;
        }
        self.position = next;
        if here.name == ColorName::White {
            return Step::Glide;
        }
        proof {
            crate::color::lemma_well_formed_by_name(from, to);
            crate::color::lemma_well_formed_by_name(to, from);
        }
        let lightness_difference = from.lightness_difference(&to);
        let hue_difference = from.hue_difference(&to);
        let command = Command::get_command(lightness_difference, hue_difference);
        if command != Command::Nothing {
            let token = command.to_forth(self);
            match &mut self.translator {
                Some(t) => {
                    t.write(token.as_str());
                },
                None => {},
            }
        }
        let effect = command.execute(self);
        Step::Run(command, effect)
    }

    /// Runs the program until it ends, has taken as many steps as are
    /// allowed, asks for something to be read or written, or has taken
    /// `budget` steps in this call. After anything but the end it can be
    /// run again and goes on where it stopped.
    pub fn run(&mut self, budget: u32) -> (status: Status)
        requires
            old(self).well_formed(),
        ensures
            final(self).well_formed(),
            final(self).grid() == old(self).grid(),
            (final(self)@, status) == run_of(old(self).grid(), old(self)@, budget as nat),
            final(self)@.path == old(self)@.path,
            final(self)@.max_steps >= 0 ==> final(self)@.steps <= final(self)@.max_steps,
            name_at(old(self).grid(), old(self)@.position) != ColorName::Black ==> name_at(
                final(self).grid(),
                final(self)@.position,
            ) != ColorName::Black,
    {
        let mut left: u32 = budget;
        loop
            invariant
                self.well_formed(),
                self.grid() == old(self).grid(),
                run_of(self.grid(), self@, left as nat) == run_of(
                    old(self).grid(),
                    old(self)@,
                    budget as nat,
                ),
                self@.path == old(self)@.path,
                name_at(old(self).grid(), old(self)@.position) != ColorName::Black ==> name_at(
                    self.grid(),
                    self@.position,
                ) != ColorName::Black,
            decreases left,
        {
            if self.max_steps >= 0 && self.steps >= self.max_steps as u64 {
                return Status::CapReached;
            }
            if left == 0 {
                return Status::Paused;
            }
            let s = self.step();
            match s {
                Step::Halt => {
                    return Status::Finished;
                },
                Step::Glide => {
                    self.count_step();
                },
                Step::Run(_, effect) => {
                    self.count_step();
                    if effect != Effect::Nothing {
                        return Status::Needs(effect);
                    }
                },
            }
            left = left - 1;
        }
    }

    /// Counts one step more, up to the greatest number the counter holds.
    fn count_step(&mut self)
        requires
            old(self).well_formed(),
            !at_cap(old(self)@),
        ensures
            final(self).well_formed(),
            final(self).grid() == old(self).grid(),
            final(self)@ == counted(old(self)@),
    {
        if self.steps < u64::MAX {
            self.steps = self.steps + 1;
        }
    }

    /// Starts a run: takes the translator, if one is given, allows no more
    /// than `max_steps` steps unless that number is negative, and sets the
    /// count of steps to zero. A walker that stands on white first glides;
    /// then the program runs as `run` runs it.
    pub fn execute(&mut self, translator: Option<Translator>, max_steps: i32, budget: u32) -> (status:
        Status)
        requires
            old(self).well_formed(),
        ensures
            final(self).well_formed(),
            final(self).grid() == old(self).grid(),
            (final(self)@, status) == run_of(
                old(self).grid(),
                started(
                    old(self).grid(),
                    Machine {
                        steps: 0,
                        max_steps: max_steps as int,
                        forth: match translator {
                            Some(t) => Some(t@),
                            None => None,
                        },
                        path: match translator {
                            Some(t) => Some(t.path()),
                            None => None,
                        },
                        ..old(self)@
                    },
                ),
                budget as nat,
            ),
            final(self)@.path == match translator {
                Some(t) => Some(t.path()),
                None => None,
            },
            final(self)@.max_steps >= 0 ==> final(self)@.steps <= final(self)@.max_steps,
    {
        self.translator = translator;
        self.max_steps = max_steps;
        self.steps = 0;
        if self.get_color(&self.position).name == ColorName::White {
            self.glide();
        }
        self.run(budget)
    }

    /// Takes the translator out of the program, with the text it holds.
    pub fn take_translator(&mut self) -> (t: Option<Translator>)
        requires
            old(self).well_formed(),
        ensures
            final(self).well_formed(),
            final(self).grid() == old(self).grid(),
            final(self)@ == (Machine { forth: None, path: None, ..old(self)@ }),
            old(self)@.forth == match t {
                Some(tr) => Some(tr@),
                None => None,
            },
            old(self)@.path == match t {
                Some(tr) => Some(tr.path()),
                None => None,
            },
    {
        self.translator.take()
    }
}

} // verus!
