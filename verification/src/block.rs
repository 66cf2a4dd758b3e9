//! Colour blocks: the connected regions of one colour, found by flood fill.

use crate::color::{ColorName, PietColor};
use crate::direction::Direction;
use crate::grid::{grid_height, grid_width, inside, name_at, pt, valid_grid};
use vstd::prelude::*;

verus! {

/// Two places share a side.
pub open spec fn adjacent(a: (int, int), b: (int, int)) -> bool {
    ||| a.1 == b.1 && (a.0 + 1 == b.0 || b.0 + 1 == a.0)
    ||| a.0 == b.0 && (a.1 + 1 == b.1 || b.1 + 1 == a.1)
}

/// A walk over the grid that stays on one colour and moves by one side at a
/// time.
pub open spec fn is_path(g: Seq<Vec<PietColor>>, path: Seq<(int, int)>) -> bool {
    &&& path.len() > 0
    &&& forall|i: int|
        0 <= i < path.len() ==> inside(g, #[trigger] path[i]) && name_at(g, path[i]) == name_at(
            g,
            path[0],
        )
    &&& forall|i: int| 0 <= i < path.len() - 1 ==> adjacent(#[trigger] path[i], path[i + 1])
}

/// Some walk on one colour leads from `a` to `b`.
pub open spec fn connected(g: Seq<Vec<PietColor>>, a: (int, int), b: (int, int)) -> bool {
    exists|path: Seq<(int, int)>| #[trigger]
        is_path(g, path) && path[0] == a && path.last() == b
}

/// The colour block of a place: every place connected with it.
pub open spec fn block_of(g: Seq<Vec<PietColor>>, p: (int, int)) -> Set<(int, int)> {
    Set::new(|q: (int, int)| connected(g, p, q))
}

/// `codels` lists the block of `p`, each of its places once.
pub open spec fn lists_block(g: Seq<Vec<PietColor>>, p: (int, int), codels: Seq<(i32, i32)>) -> bool {
    &&& codels.no_duplicates()
    &&& forall|i: int| 0 <= i < codels.len() ==> connected(g, p, pt(#[trigger] codels[i]))
    &&& forall|q: (int, int)| #[trigger]
        connected(g, p, q) ==> exists|i: int| 0 <= i < codels.len() && pt(#[trigger] codels[i]) == q
}

/// Where the flag of a place stands in the row-by-row bitmap.
pub open spec fn flag_index(w: int, q: (int, int)) -> int {
    q.1 * w + q.0
}

/// The place has been reached.
pub open spec fn marked(visited: Seq<bool>, w: int, q: (int, int)) -> bool {
    visited[flag_index(w, q)]
}

/// Number of flags still down.
pub open spec fn unmarked(visited: Seq<bool>) -> nat
    decreases visited.len(),
{
    if visited.len() == 0 {
        0
    } else {
        unmarked(visited.drop_last()) + if visited.last() {
            0nat
        } else {
            1nat
        }
    }
}

proof fn lemma_raise_flag(visited: Seq<bool>, i: int)
    requires
        0 <= i < visited.len(),
        !visited[i],
    ensures
        unmarked(visited.update(i, true)) + 1 == unmarked(visited),
    decreases visited.len(),
{
    let after = visited.update(i, true);
    if i == visited.len() - 1 {
        assert(after.drop_last() =~= visited.drop_last());
    } else {
        lemma_raise_flag(visited.drop_last(), i);
        assert(after.drop_last() =~= visited.drop_last().update(i, true));
    }
}

proof fn lemma_flag_index(g: Seq<Vec<PietColor>>, q: (int, int))
    requires
        valid_grid(g),
        inside(g, q),
    ensures
        0 <= flag_index(grid_width(g), q) < grid_width(g) * grid_height(g),
        q.1 * grid_width(g) <= grid_width(g) * grid_height(g) - grid_width(g),
{
    let w = grid_width(g);
    let h = grid_height(g);
    assert(0 <= q.1 * w && q.1 * w <= w * h - w) by (nonlinear_arith)
        requires
            0 <= q.1 < h,
            w > 0,
    ;
}

proof fn lemma_flag_index_injective(w: int, a: (int, int), b: (int, int))
    requires
        0 <= a.0 < w,
        0 <= b.0 < w,
        flag_index(w, a) == flag_index(w, b),
    ensures
        a == b,
{
    assert(a.1 == b.1) by (nonlinear_arith)
        requires
            0 <= a.0 < w,
            0 <= b.0 < w,
            a.1 * w + a.0 == b.1 * w + b.0,
    ;
}

/// A walk extended by one more step onto the same colour is a walk.
proof fn lemma_extend_path(g: Seq<Vec<PietColor>>, a: (int, int), b: (int, int), c: (int, int))
    requires
        connected(g, a, b),
        adjacent(b, c),
        inside(g, c),
        name_at(g, c) == name_at(g, a),
    ensures
        connected(g, a, c),
{
    let path = choose|path: Seq<(int, int)>| #[trigger]
        is_path(g, path) && path[0] == a && path.last() == b;
    let longer = path.push(c);
    assert forall|i: int| 0 <= i < longer.len() - 1 implies adjacent(
        #[trigger] longer[i],
        longer[i + 1],
    ) by {
        if i < path.len() - 1 {
            assert(adjacent(path[i], path[i + 1]));
        }
    }
    assert forall|i: int| 0 <= i < longer.len() implies inside(g, #[trigger] longer[i]) && name_at(
        g,
        longer[i],
    ) == name_at(g, longer[0]) by {
        if i < path.len() {
            assert(inside(g, path[i]));
        }
    }
    assert(is_path(g, longer));
    assert(longer[0] == a && longer.last() == c);
}

/// Every place is connected with itself.
pub proof fn lemma_connected_self(g: Seq<Vec<PietColor>>, a: (int, int))
    requires
        inside(g, a),
    ensures
        connected(g, a, a),
{
    let path = seq![a];
    assert(is_path(g, path));
    assert(path[0] == a && path.last() == a);
}

/// What holds of the flood fill between two steps: every place reached is
/// connected with the start, and a flag is up exactly for the places that
/// wait in `work` or are done in `codels`, each of them there once.
pub open spec fn fill_inv(
    g: Seq<Vec<PietColor>>,
    start: (int, int),
    visited: Seq<bool>,
    work: Seq<(i32, i32)>,
    codels: Seq<(i32, i32)>,
) -> bool {
    &&& visited.len() == grid_width(g) * grid_height(g)
    &&& work.no_duplicates()
    &&& codels.no_duplicates()
    &&& forall|i: int, j: int|
        0 <= i < work.len() && 0 <= j < codels.len() ==> #[trigger] work[i] != #[trigger] codels[j]
    &&& forall|i: int|
        0 <= i < work.len() ==> inside(g, pt(#[trigger] work[i])) && connected(
            g,
            start,
            pt(work[i]),
        ) && marked(visited, grid_width(g), pt(work[i]))
    &&& forall|i: int|
        0 <= i < codels.len() ==> inside(g, pt(#[trigger] codels[i])) && connected(
            g,
            start,
            pt(codels[i]),
        ) && marked(visited, grid_width(g), pt(codels[i]))
    &&& forall|q: (int, int)|
        inside(g, q) && #[trigger] marked(visited, grid_width(g), q) ==> (exists|i: int|
            0 <= i < work.len() && pt(#[trigger] work[i]) == q) || (exists|i: int|
            0 <= i < codels.len() && pt(#[trigger] codels[i]) == q)
}

/// Every neighbour of `c` on the grid that has its colour has been reached.
pub open spec fn closed_at(g: Seq<Vec<PietColor>>, visited: Seq<bool>, c: (int, int)) -> bool {
    forall|q: (int, int)|
        adjacent(c, q) && inside(g, q) && name_at(g, q) == name_at(g, c) ==> #[trigger] marked(
            visited,
            grid_width(g),
            q,
        )
}

/// No flag that was up has come down.
pub open spec fn flags_kept(g: Seq<Vec<PietColor>>, before: Seq<bool>, after: Seq<bool>) -> bool {
    forall|q: (int, int)|
        inside(g, q) && marked(before, grid_width(g), q) ==> #[trigger] marked(
            after,
            grid_width(g),
            q,
        )
}

/// Looks at one neighbour `n` of the place `from`: if it is on the grid, has
/// the block's colour and has not been reached, its flag goes up and it joins
/// the work list.
fn visit(
    grid: &Vec<Vec<PietColor>>,
    start: Ghost<(int, int)>,
    from: Ghost<(int, int)>,
    codels: Ghost<Seq<(i32, i32)>>,
    name: ColorName,
    n: (i32, i32),
    visited: &mut Vec<bool>,
    work: &mut Vec<(i32, i32)>,
)
    requires
        valid_grid(grid@),
        fill_inv(grid@, start@, old(visited)@, old(work)@, codels@),
        name == name_at(grid@, start@),
        connected(grid@, start@, from@),
        adjacent(from@, pt(n)),
    ensures
        fill_inv(grid@, start@, final(visited)@, final(work)@, codels@),
        flags_kept(grid@, old(visited)@, final(visited)@),
        inside(grid@, pt(n)) && name_at(grid@, pt(n)) == name ==> marked(
            final(visited)@,
            grid_width(grid@),
            pt(n),
        ),
        unmarked(final(visited)@) + final(work)@.len() == unmarked(old(visited)@) + old(work)@.len(),
{
    let h = grid.len();
    let w = grid[0].len();
    proof {
        crate::grid::lemma_sides_fit(grid@);
    }
    if n.0 < 0 || n.1 < 0 || n.0 as usize >= w || n.1 as usize >= h {
        return;
    }
    let ghost q = pt(n);
    proof {
        lemma_flag_index(grid@, q);
    }
    if grid[n.1 as usize][n.0 as usize].name != name {
        return;
    }
    let at: usize = n.1 as usize * w + n.0 as usize;
    if visited[at] {
        return;
    }
    proof {
        lemma_raise_flag(visited@, at as int);
        lemma_extend_path(grid@, start@, from@, q);
        assert(connected(grid@, start@, start@)) by {
            let path = choose|path: Seq<(int, int)>| #[trigger]
                is_path(grid@, path) && path[0] == start@ && path.last() == from@;
            assert(inside(grid@, path[0]));
            lemma_connected_self(grid@, start@);
        }
    }
    let ghost before = visited@;
    let ghost waiting = work@;
    visited.set(at, true);
    work.push(n);
    proof {
        let g = grid@;
        let wd = grid_width(g);
        assert forall|c: (int, int)| inside(g, c) implies (#[trigger] marked(visited@, wd, c) <==> (
        marked(before, wd, c) || c == q)) by {
            lemma_flag_index(g, c);
            assert(visited@ == before.update(at as int, true));
            assert(at as int == flag_index(wd, q));
            if flag_index(wd, c) == flag_index(wd, q) {
                lemma_flag_index_injective(wd, c, q);
            }
        }
        assert forall|i: int| 0 <= i < waiting.len() implies #[trigger] waiting[i] != n by {
            assert(marked(before, wd, pt(waiting[i])));
        }
        assert forall|j: int| 0 <= j < codels@.len() implies #[trigger] codels@[j] != n by {
            assert(marked(before, wd, pt(codels@[j])));
        }
        assert(work@.no_duplicates());
        assert forall|i: int| 0 <= i < work@.len() implies inside(g, pt(#[trigger] work@[i]))
            && connected(g, start@, pt(work@[i])) && marked(visited@, wd, pt(work@[i])) by {
            if i < waiting.len() {
                assert(work@[i] == waiting[i]);
            }
        }
        assert forall|c: (int, int)| inside(g, c) && #[trigger] marked(visited@, wd, c) implies (
        exists|i: int| 0 <= i < work@.len() && pt(#[trigger] work@[i]) == c) || (exists|i: int|
            0 <= i < codels@.len() && pt(#[trigger] codels@[i]) == c) by {
            if c == q {
                assert(pt(work@[waiting.len() as int]) == c);
            } else {
                assert(marked(before, wd, c));
                if exists|i: int| 0 <= i < waiting.len() && pt(#[trigger] waiting[i]) == c {
                    let i = choose|i: int| 0 <= i < waiting.len() && pt(#[trigger] waiting[i]) == c;
                    assert(work@[i] == waiting[i]);
                }
            }
        }
    }
}

/// Once nothing waits, every place on a walk from the start is among the
/// places done.
proof fn lemma_walk_is_done(
    g: Seq<Vec<PietColor>>,
    start: (int, int),
    visited: Seq<bool>,
    codels: Seq<(i32, i32)>,
    path: Seq<(int, int)>,
    k: int,
)
    requires
        valid_grid(g),
        fill_inv(g, start, visited, Seq::<(i32, i32)>::empty(), codels),
        forall|i: int| 0 <= i < codels.len() ==> closed_at(g, visited, pt(#[trigger] codels[i])),
        marked(visited, grid_width(g), start),
        is_path(g, path),
        path[0] == start,
        0 <= k < path.len(),
    ensures
        exists|i: int| 0 <= i < codels.len() && pt(#[trigger] codels[i]) == path[k],
    decreases k,
{
    let wd = grid_width(g);
    assert(inside(g, path[k]));
    if k > 0 {
        lemma_walk_is_done(g, start, visited, codels, path, k - 1);
        let i = choose|i: int| 0 <= i < codels.len() && pt(#[trigger] codels[i]) == path[k - 1];
        assert(closed_at(g, visited, pt(codels[i])));
        assert(adjacent(path[k - 1], path[k - 1 + 1]));
        assert(inside(g, path[k - 1]));
        assert(marked(visited, wd, path[k]));
    }
    assert(marked(visited, wd, path[k]));
}

/// The colour block of `start`: every place connected with it, each once.
pub fn find_block(grid: &Vec<Vec<PietColor>>, start: (i32, i32)) -> (codels: Vec<(i32, i32)>)
    requires
        valid_grid(grid@),
        inside(grid@, pt(start)),
    ensures
        lists_block(grid@, pt(start), codels@),
        0 < codels@.len() <= grid_width(grid@) * grid_height(grid@),
{
    let h = grid.len();
    let w = grid[0].len();
    let ghost g = grid@;
    let ghost origin = pt(start);
    proof {
        crate::grid::lemma_sides_fit(g);
        lemma_flag_index(g, origin);
        lemma_connected_self(g, origin);
    }
    let name = grid[start.1 as usize][start.0 as usize].name;
    let cells: usize = w * h;
    let mut visited: Vec<bool> = Vec::new();
    let mut filled: usize = 0;
    while filled < cells
        invariant
            filled <= cells,
            visited@.len() == filled,
            forall|i: int| 0 <= i < filled ==> !(#[trigger] visited@[i]),
            unmarked(visited@) == filled,
        decreases cells - filled,
    {
        let ghost shorter = visited@;
        visited.push(false);
        filled += 1;
        assert(visited@.drop_last() =~= shorter);
    }
    let at: usize = start.1 as usize * w + start.0 as usize;
    proof {
        lemma_raise_flag(visited@, at as int);
    }
    visited.set(at, true);
    let mut work: Vec<(i32, i32)> = Vec::new();
    work.push(start);
    let mut codels: Vec<(i32, i32)> = Vec::new();
    proof {
        assert forall|q: (int, int)| inside(g, q) && #[trigger] marked(visited@, w as int, q) implies q
            == origin by {
            lemma_flag_index(g, q);
            if flag_index(w as int, q) == flag_index(w as int, origin) {
                lemma_flag_index_injective(w as int, q, origin);
            }
        }
        assert(pt(work@[0]) == origin);
    }
    while work.len() > 0
        invariant
            valid_grid(g),
            g == grid@,
            origin == pt(start),
            w == grid_width(g),
            h == grid_height(g),
            name == name_at(g, origin),
            inside(g, origin),
            fill_inv(g, origin, visited@, work@, codels@),
            forall|i: int| 0 <= i < codels@.len() ==> closed_at(g, visited@, pt(#[trigger] codels@[i])),
            marked(visited@, w as int, origin),
            unmarked(visited@) + work@.len() + codels@.len() == w * h,
        decreases unmarked(visited@) + work@.len(),
    {
        let ghost waiting = work@;
        let ghost done = codels@;
        let ghost flags = visited@;
        let cur = work.pop().unwrap();
        codels.push(cur);
        let ghost here = pt(cur);
        proof {
            crate::grid::lemma_sides_fit(g);
            assert(cur == waiting[waiting.len() - 1]);
            assert forall|i: int| 0 <= i < work@.len() implies work@[i] == waiting[i] by {}
            assert forall|j: int| 0 <= j < done.len() implies codels@[j] == done[j] by {}
            assert forall|q: (int, int)| inside(g, q) && #[trigger] marked(visited@, w as int, q) implies (
            exists|i: int| 0 <= i < work@.len() && pt(#[trigger] work@[i]) == q) || (exists|i: int|
                0 <= i < codels@.len() && pt(#[trigger] codels@[i]) == q) by {
                if exists|i: int| 0 <= i < waiting.len() && pt(#[trigger] waiting[i]) == q {
                    let i = choose|i: int| 0 <= i < waiting.len() && pt(#[trigger] waiting[i]) == q;
                    if i == waiting.len() - 1 {
                        assert(pt(codels@[done.len() as int]) == q);
                    } else {
                        assert(pt(work@[i]) == q);
                    }
                } else {
                    let j = choose|j: int| 0 <= j < done.len() && pt(#[trigger] done[j]) == q;
                    assert(pt(codels@[j]) == q);
                }
            }
            assert(fill_inv(g, origin, visited@, work@, codels@));
        }
        visit(
            grid,
            Ghost(origin),
            Ghost(here),
            Ghost(codels@),
            name,
            (cur.0 + 1, cur.1),
            &mut visited,
            &mut work,
        );
        let ghost flags1 = visited@;
        visit(
            grid,
            Ghost(origin),
            Ghost(here),
            Ghost(codels@),
            name,
            (cur.0, cur.1 + 1),
            &mut visited,
            &mut work,
        );
        let ghost flags2 = visited@;
        visit(
            grid,
            Ghost(origin),
            Ghost(here),
            Ghost(codels@),
            name,
            (cur.0 - 1, cur.1),
            &mut visited,
            &mut work,
        );
        let ghost flags3 = visited@;
        visit(
            grid,
            Ghost(origin),
            Ghost(here),
            Ghost(codels@),
            name,
            (cur.0, cur.1 - 1),
            &mut visited,
            &mut work,
        );
        proof {
            assert forall|q: (int, int)| inside(g, q) && marked(flags, w as int, q) implies #[trigger] marked(
                visited@,
                w as int,
                q,
            ) by {
                assert(marked(flags1, w as int, q));
                assert(marked(flags2, w as int, q));
                assert(marked(flags3, w as int, q));
            }
            assert(name_at(g, here) == name) by {
                let path = choose|path: Seq<(int, int)>| #[trigger]
                    is_path(g, path) && path[0] == origin && path.last() == here;
                assert(name_at(g, path[path.len() - 1]) == name_at(g, path[0]));
            }
            assert forall|i: int| 0 <= i < codels@.len() implies closed_at(
                g,
                visited@,
                pt(#[trigger] codels@[i]),
            ) by {
                if i < done.len() {
                    assert(closed_at(g, flags, pt(done[i])));
                } else {
                    assert forall|q: (int, int)|
                        adjacent(here, q) && inside(g, q) && name_at(g, q) == name_at(
                            g,
                            here,
                        ) implies #[trigger] marked(visited@, w as int, q) by {
                        if q == (here.0 + 1, here.1) {
                            assert(marked(flags1, w as int, q));
                            assert(marked(flags2, w as int, q));
                            assert(marked(flags3, w as int, q));
                        } else if q == (here.0, here.1 + 1) {
                            assert(marked(flags2, w as int, q));
                            assert(marked(flags3, w as int, q));
                        } else if q == (here.0 - 1, here.1) {
                            assert(marked(flags3, w as int, q));
                        } else {
                            assert(q == (here.0, here.1 - 1));
                        }
                    }
                }
            }
        }
    }
    proof {
        assert(work@ =~= Seq::<(i32, i32)>::empty());
        assert forall|q: (int, int)| #[trigger] connected(g, origin, q) implies exists|i: int|
            0 <= i < codels@.len() && pt(#[trigger] codels@[i]) == q by {
            let path = choose|path: Seq<(int, int)>| #[trigger]
                is_path(g, path) && path[0] == origin && path.last() == q;
            lemma_walk_is_done(g, origin, visited@, codels@, path, path.len() - 1);
        }
        assert(connected(g, origin, origin));
    }
    codels
}

/// How far a place lies in a direction.
pub open spec fn along(d: Direction, c: (int, int)) -> int {
    match d {
        Direction::Right => c.0,
        Direction::Down => c.1,
        Direction::Left => -c.0,
        Direction::Up => -c.1,
    }
}

/// The direction in which the codel chooser picks among the codels of an
/// edge: to the left or to the right of the direction pointer, as seen when
/// looking along it.
pub open spec fn chooser_direction(dp: Direction, cc: Direction) -> Direction {
    match (dp, cc) {
        (Direction::Right, Direction::Left) => Direction::Up,
        (Direction::Right, _) => Direction::Down,
        (Direction::Down, Direction::Left) => Direction::Right,
        (Direction::Down, _) => Direction::Left,
        (Direction::Left, Direction::Left) => Direction::Down,
        (Direction::Left, _) => Direction::Up,
        (Direction::Up, Direction::Left) => Direction::Left,
        (Direction::Up, _) => Direction::Right,
    }
}

/// `e` is the exit codel of a block: it lies on the edge that is furthest
/// along the direction pointer, and on that edge it is the furthest to the
/// side the codel chooser picks.
pub open spec fn is_exit_codel(block: Set<(int, int)>, dp: Direction, cc: Direction, e: (int, int)) -> bool {
    &&& block.contains(e)
    &&& forall|c: (int, int)| #[trigger] block.contains(c) ==> along(dp, c) <= along(dp, e)
    &&& forall|c: (int, int)| #[trigger]
        block.contains(c) && along(dp, c) == along(dp, e) ==> along(chooser_direction(dp, cc), c)
            <= along(chooser_direction(dp, cc), e)
}

/// The exit codel of the block of `p`.
pub open spec fn exit_of(g: Seq<Vec<PietColor>>, p: (int, int), dp: Direction, cc: Direction) -> (
    int,
    int,
) {
    choose|e: (int, int)| is_exit_codel(block_of(g, p), dp, cc, e)
}

/// A block has one exit codel at most.
pub proof fn lemma_exit_unique(
    block: Set<(int, int)>,
    dp: Direction,
    cc: Direction,
    a: (int, int),
    b: (int, int),
)
    requires
        is_exit_codel(block, dp, cc, a),
        is_exit_codel(block, dp, cc, b),
    ensures
        a == b,
{
    assert(block.contains(a) && block.contains(b));
}

/// `a` lies strictly further along `d` than `b`.
fn further(d: Direction, a: (i32, i32), b: (i32, i32)) -> (r: bool)
    ensures
        r == (along(d, pt(a)) > along(d, pt(b))),
{
    match d {
        Direction::Right => a.0 > b.0,
        Direction::Down => a.1 > b.1,
        Direction::Left => a.0 < b.0,
        Direction::Up => a.1 < b.1,
    }
}

/// `a` lies exactly as far along `d` as `b`.
fn level(d: Direction, a: (i32, i32), b: (i32, i32)) -> (r: bool)
    ensures
        r == (along(d, pt(a)) == along(d, pt(b))),
{
    match d {
        Direction::Right | Direction::Left => a.0 == b.0,
        Direction::Down | Direction::Up => a.1 == b.1,
    }
}

/// The direction in which the codel chooser picks.
pub fn choose_codel(dp: Direction, cc: Direction) -> (d: Direction)
    ensures
        d == chooser_direction(dp, cc),
{
    match (dp, cc) {
        (Direction::Right, Direction::Left) => Direction::Up,
        (Direction::Right, _) => Direction::Down,
        (Direction::Down, Direction::Left) => Direction::Right,
        (Direction::Down, _) => Direction::Left,
        (Direction::Left, Direction::Left) => Direction::Down,
        (Direction::Left, _) => Direction::Up,
        (Direction::Up, Direction::Left) => Direction::Left,
        (Direction::Up, _) => Direction::Right,
    }
}

/// The places that a list names.
pub open spec fn cells_of(codels: Seq<(i32, i32)>) -> Set<(int, int)> {
    Set::new(|q: (int, int)| exists|i: int| 0 <= i < codels.len() && pt(#[trigger] codels[i]) == q)
}

/// A list of a block names the places of the block, and as many as it is long.
pub proof fn lemma_listed_block(g: Seq<Vec<PietColor>>, p: (int, int), codels: Seq<(i32, i32)>)
    requires
        lists_block(g, p, codels),
    ensures
        cells_of(codels) == block_of(g, p),
        block_of(g, p).finite(),
        block_of(g, p).len() == codels.len(),
{
    let places = codels.map_values(|c: (i32, i32)| pt(c));
    assert forall|i: int, j: int|
        0 <= i < places.len() && 0 <= j < places.len() && i != j implies places[i] != places[j] by {
        assert(codels[i] != codels[j]);
    }
    places.unique_seq_to_set();
    assert(places.to_set() =~= cells_of(codels)) by {
        assert forall|q: (int, int)| places.to_set().contains(q) == cells_of(codels).contains(q) by {
            if places.to_set().contains(q) {
                let i = choose|i: int| 0 <= i < places.len() && places[i] == q;
                assert(pt(codels[i]) == q);
            }
            if cells_of(codels).contains(q) {
                let i = choose|i: int| 0 <= i < codels.len() && pt(#[trigger] codels[i]) == q;
                assert(places[i] == q);
            }
        }
    }
    assert forall|q: (int, int)| cells_of(codels).contains(q) == block_of(g, p).contains(q) by {
        if cells_of(codels).contains(q) {
            let i = choose|i: int| 0 <= i < codels.len() && pt(#[trigger] codels[i]) == q;
            assert(connected(g, p, pt(codels[i])));
        }
        if block_of(g, p).contains(q) {
            assert(connected(g, p, q));
        }
    }
    assert(cells_of(codels) =~= block_of(g, p));
}

/// The exit codel among the places that `codels` names.
pub fn exit_codel(codels: &Vec<(i32, i32)>, dp: Direction, cc: Direction) -> (e: (i32, i32))
    requires
        codels@.len() > 0,
    ensures
        codels@.contains(e),
        is_exit_codel(cells_of(codels@), dp, cc, pt(e)),
{
    let side = choose_codel(dp, cc);
    let mut best: (i32, i32) = codels[0];
    let mut i: usize = 1;
    while i < codels.len()
        invariant
            1 <= i <= codels@.len(),
            side == chooser_direction(dp, cc),
            codels@.contains(best),
            forall|k: int| 0 <= k < i ==> along(dp, pt(#[trigger] codels@[k])) <= along(dp, pt(best)),
            forall|k: int|
                0 <= k < i && along(dp, pt(#[trigger] codels@[k])) == along(dp, pt(best)) ==> along(
                    side,
                    pt(codels@[k]),
                ) <= along(side, pt(best)),
        decreases codels@.len() - i,
    {
        let c = codels[i];
        if further(dp, c, best) || (level(dp, c, best) && further(side, c, best)) {
            best = c;
        }
        i += 1;
    }
    proof {
        let cells = cells_of(codels@);
        let k = choose|k: int| 0 <= k < codels@.len() && codels@[k] == best;
        assert(pt(codels@[k]) == pt(best));
        assert forall|c: (int, int)| #[trigger] cells.contains(c) implies along(dp, c) <= along(
            dp,
            pt(best),
        ) && (along(dp, c) == along(dp, pt(best)) ==> along(side, c) <= along(side, pt(best))) by {
            let j = choose|j: int| 0 <= j < codels@.len() && pt(#[trigger] codels@[j]) == c;
            assert(along(dp, pt(codels@[j])) <= along(dp, pt(best)));
        }
    }
    best
}

/// Two lists of the block of one place name the same places, and equally
/// many.
pub proof fn lemma_block_determined(
    g: Seq<Vec<PietColor>>,
    p: (int, int),
    a: Seq<(i32, i32)>,
    b: Seq<(i32, i32)>,
)
    requires
        lists_block(g, p, a),
        lists_block(g, p, b),
    ensures
        cells_of(a) == cells_of(b),
        a.len() == b.len(),
{
    lemma_listed_block(g, p, a);
    lemma_listed_block(g, p, b);
}

} // verus!
