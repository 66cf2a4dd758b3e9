//! The four directions, used both for the direction pointer and, with only
//! `Left` and `Right`, for the codel chooser.

use vstd::prelude::*;

verus! {

#[derive(Debug, PartialEq, Eq, Clone, Copy, Structural)]
pub enum Direction {
    Right,
    Down,
    Left,
    Up,
}

impl Direction {
    /// The step of one codel in this direction; `y` grows downward.
    pub open spec fn vector(self) -> (int, int) {
        match self {
            Direction::Right => (1, 0),
            Direction::Down => (0, 1),
            Direction::Left => (-1, 0),
            Direction::Up => (0, -1),
        }
    }

    /// The next direction clockwise.
    pub open spec fn clockwise(self) -> Direction {
        match self {
            Direction::Right => Direction::Down,
            Direction::Down => Direction::Left,
            Direction::Left => Direction::Up,
            Direction::Up => Direction::Right,
        }
    }

    /// The next direction counter-clockwise.
    pub open spec fn anticlockwise(self) -> Direction {
        match self {
            Direction::Right => Direction::Up,
            Direction::Down => Direction::Right,
            Direction::Left => Direction::Down,
            Direction::Up => Direction::Left,
        }
    }

    /// Quarter turns clockwise that lead from `Right` to this direction.
    pub open spec fn quarter(self) -> int {
        match self {
            Direction::Right => 0,
            Direction::Down => 1,
            Direction::Left => 2,
            Direction::Up => 3,
        }
    }

    /// The direction that lies `q` quarter turns clockwise of `Right`.
    pub open spec fn of_quarter(q: int) -> Direction {
        if q % 4 == 0 {
            Direction::Right
        } else if q % 4 == 1 {
            Direction::Down
        } else if q % 4 == 2 {
            Direction::Left
        } else {
            Direction::Up
        }
    }

    /// This direction after `n` quarter turns: clockwise for a positive `n`,
    /// counter-clockwise for a negative one.
    pub open spec fn turned(self, n: int) -> Direction {
        Direction::of_quarter(self.quarter() + n)
    }

    /// A value the codel chooser may hold.
    pub open spec fn is_chooser(self) -> bool {
        self == Direction::Left || self == Direction::Right
    }

    /// The other side, for a codel chooser.
    pub open spec fn other_side(self) -> Direction {
        match self {
            Direction::Right => Direction::Left,
            Direction::Left => Direction::Right,
            Direction::Down => Direction::Up,
            Direction::Up => Direction::Down,
        }
    }

    /// This codel chooser after `n` toggles; only whether `n` is odd counts.
    pub open spec fn toggled(self, n: int) -> Direction {
        if n % 2 == 0 {
            self
        } else {
            self.other_side()
        }
    }

    pub fn to_vector(self) -> (v: (i32, i32))
        ensures
            v.0 == self.vector().0,
            v.1 == self.vector().1,
    {
        match self {
            Direction::Right => (1, 0),
            Direction::Down => (0, 1),
            Direction::Left => (-1, 0),
            Direction::Up => (0, -1),
        }
    }

    pub fn rotate_clockwise(self) -> (d: Direction)
        ensures
            d == self.clockwise(),
            d == self.turned(1),
    {
        match self {
            Direction::Right => Direction::Down,
            Direction::Down => Direction::Left,
            Direction::Left => Direction::Up,
            Direction::Up => Direction::Right,
        }
    }

    pub fn rotate_anticlockwise(self) -> (d: Direction)
        ensures
            d == self.anticlockwise(),
            d == self.turned(-1),
    {
        match self {
            Direction::Right => Direction::Up,
            Direction::Down => Direction::Right,
            Direction::Left => Direction::Down,
            Direction::Up => Direction::Left,
        }
    }

    /// Turns by `n` quarter turns, clockwise for a positive `n`.
    pub fn rotate(self, n: i32) -> (d: Direction)
        ensures
            d == self.turned(n as int),
    {
        let here: i32 = match self {
            Direction::Right => 0,
            Direction::Down => 1,
            Direction::Left => 2,
            Direction::Up => 3,
        };
        let rest: i32 = n % 4;
        let q: i32 = (here + rest + 4) % 4;
        assert(q as int == (self.quarter() + n) % 4) by {
            lemma_rem_four(n as int);
        }
        if q == 0 {
            Direction::Right
        } else if q == 1 {
            Direction::Down
        } else if q == 2 {
            Direction::Left
        } else {
            Direction::Up
        }
    }

    /// Toggles a codel chooser `n` times.
    pub fn toggle(self, n: i32) -> (d: Direction)
        ensures
            d == self.toggled(n as int),
    {
        if n % 2 == 0 {
            self
        } else {
            match self {
                Direction::Right => Direction::Left,
                Direction::Left => Direction::Right,
                Direction::Down => Direction::Up,
                Direction::Up => Direction::Down,
            }
        }
    }
}

/// The machine's remainder by four differs from the floored one by four at
/// most, so both name the same quarter.
proof fn lemma_rem_four(n: int)
    ensures
        n >= 0 ==> forall|k: int| 0 <= k < 4 ==> (#[trigger] (k + n % 4 + 4)) % 4 == (k + n) % 4,
        n < 0 ==> forall|k: int| 0 <= k < 4 ==> (#[trigger] (k - ((-n) % 4) + 4)) % 4 == (k + n) % 4,
{
    assert forall|k: int| 0 <= k < 4 implies (n >= 0 ==> (#[trigger] (k + n % 4 + 4)) % 4 == (k + n)
        % 4) && (n < 0 ==> (#[trigger] (k - ((-n) % 4) + 4)) % 4 == (k + n) % 4) by {
        assert(n == 4 * (n / 4) + n % 4);
        assert(-n == 4 * ((-n) / 4) + (-n) % 4);
    }
}

/// One turn clockwise followed by one counter-clockwise, or the reverse,
/// leaves a direction as it was; four turns one way also do.
pub proof fn lemma_turns(d: Direction)
    ensures
        d.clockwise().anticlockwise() == d,
        d.anticlockwise().clockwise() == d,
        d.clockwise().clockwise().clockwise().clockwise() == d,
        d.turned(1) == d.clockwise(),
        d.turned(-1) == d.anticlockwise(),
        d.turned(0) == d,
{
}

/// Turning by `n` and then by `-n` leaves a direction as it was.
pub proof fn lemma_turned_back(d: Direction, n: int)
    ensures
        d.turned(n).turned(-n) == d,
{
    let a = d.quarter();
    assert((a + n) % 4 == d.turned(n).quarter());
    assert(((a + n) % 4 + (-n)) % 4 == a) by {
        assert(a + n == 4 * ((a + n) / 4) + (a + n) % 4);
    }
}

/// Toggling a codel chooser `n` times and `n` times again leaves it as it was.
pub proof fn lemma_toggled_twice(c: Direction, n: int)
    ensures
        c.toggled(n).toggled(n) == c,
        c.is_chooser() ==> c.toggled(n).is_chooser(),
{
}

} // verus!
