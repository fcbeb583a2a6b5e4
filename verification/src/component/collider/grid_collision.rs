//! Grid partitioning used by the collision broadphase.
//!
//! Grid cells are axis-aligned cubes of a regular size identified by their integer
//! coordinates. `GridCell::iter_to` walks every cell of the box spanned by two cells, both
//! corners included, with `z` varying fastest and `x` slowest.

use crate::callback::hash_map_get_mut;
use crate::ecs::Entity;
use std::collections::HashMap;
use std::collections::HashSet;
use vstd::prelude::*;

verus! {

/// A coordinate along one axis of the grid.
pub type GridCoord = i16;

/// A triple of coordinates that uniquely identifies a grid cell.
#[derive(Debug, Clone, Copy, PartialEq, Eq, Hash)]
pub struct GridCell {
    pub x: GridCoord,
    pub y: GridCoord,
    pub z: GridCoord,
}

/// Walks the grid cells between two corner cells: `next` is the cell yielded next, and `done`
/// is set once the last cell has been yielded.
pub struct GridIter {
    pub from: GridCell,
    pub to: GridCell,
    pub next: GridCell,
    pub done: bool,
}

/// The cell that follows `next` in the walk from `from` to `to`, or `None` once every
/// coordinate of `next` has reached (or passed) the corresponding coordinate of `to`.
pub open spec fn grid_succ(next: GridCell, from: GridCell, to: GridCell) -> Option<GridCell> {
    if next.z >= to.z {
        if next.y >= to.y {
            if next.x >= to.x {
                None
            } else {
                Some(GridCell { x: (next.x + 1) as i16, y: from.y, z: from.z })
            }
        } else {
            Some(GridCell { x: next.x, y: (next.y + 1) as i16, z: from.z })
        }
    } else {
        Some(GridCell { x: next.x, y: next.y, z: (next.z + 1) as i16 })
    }
}

/// `c` lies in the box whose lowest corner is `from` and highest corner is `to`.
pub open spec fn in_box(c: GridCell, from: GridCell, to: GridCell) -> bool {
    &&& from.x <= c.x <= to.x
    &&& from.y <= c.y <= to.y
    &&& from.z <= c.z <= to.z
}

/// Extent of the box along y.
pub open spec fn span_y(from: GridCell, to: GridCell) -> int {
    to.y - from.y + 1
}

/// Extent of the box along z.
pub open spec fn span_z(from: GridCell, to: GridCell) -> int {
    to.z - from.z + 1
}

/// Number of cells in the box spanned by `from` and `to`.
pub open spec fn box_cell_count(from: GridCell, to: GridCell) -> int {
    (to.x - from.x + 1) * (span_y(from, to) * span_z(from, to))
}

/// Position of `c` in the x-major, z-minor ordering of the box's cells.
pub open spec fn cell_rank(c: GridCell, from: GridCell, to: GridCell) -> int {
    (c.x - from.x) * (span_y(from, to) * span_z(from, to)) + (c.y - from.y) * span_z(from, to) + (
    c.z - from.z)
}

/// The cell reached after `k` steps of the walk started at `start`, or `None` if the walk
/// ended earlier.
pub open spec fn walk(start: GridCell, from: GridCell, to: GridCell, k: nat) -> Option<GridCell>
    decreases k,
{
    if k == 0 {
        Some(start)
    } else {
        match walk(start, from, to, (k - 1) as nat) {
            Some(c) => grid_succ(c, from, to),
            None => None,
        }
    }
}

impl GridCell {
    pub fn new(x: GridCoord, y: GridCoord, z: GridCoord) -> (cell: GridCell)
        ensures
            cell == (GridCell { x, y, z }),
    {
        GridCell { x: x, y: y, z: z }
    }

    /// Creates a walk over the cells from `self` up to `dest`.
    pub fn iter_to(&self, dest: GridCell) -> (iter: GridIter)
        ensures
            iter.from == *self,
            iter.to == dest,
            iter.next == *self,
            !iter.done,
    {
        GridIter { from: *self, to: dest, next: *self, done: false }
    }
}

impl GridIter {
    /// Yields the current cell and advances to its successor; the cell with no successor (`to`,
    /// in a box) is yielded last, and from then on the walk yields `None` and stays put.
    pub fn next(&mut self) -> (result: Option<GridCell>)
        ensures
            final(self).from == old(self).from,
            final(self).to == old(self).to,
            final(self).next == match grid_succ(old(self).next, old(self).from, old(self).to) {
                Some(n) if !old(self).done => n,
                _ => old(self).next,
            },
            old(self).done ==> result is None && final(self).done,
            !old(self).done ==> result == Some(old(self).next) && final(self).done == grid_succ(
                old(self).next,
                old(self).from,
                old(self).to,
            ) is None,
    {
        if self.done {
            return None;
        }
        let from = self.from;
        let to = self.to;
        let mut next = self.next;

        if next.z >= to.z {
            next.z = from.z;
            if next.y >= to.y {
                next.y = from.y;
                if next.x >= to.x {
                    self.done = true;
                    return Some(self.next);
                } else {
                    next.x = next.x + 1;
                }
            } else {
                next.y = next.y + 1;
            }
        } else {
            next.z = next.z + 1;
        }

        let current = self.next;
        self.next = next;
        Some(current)
    }
}

proof fn lemma_spans_positive(from: GridCell, to: GridCell)
    requires
        from.x <= to.x,
        from.y <= to.y,
        from.z <= to.z,
    ensures
        span_y(from, to) >= 1,
        span_z(from, to) >= 1,
        span_y(from, to) * span_z(from, to) >= span_z(from, to),
        box_cell_count(from, to) >= span_y(from, to) * span_z(from, to),
{
    let dy = span_y(from, to);
    let dz = span_z(from, to);
    let dx = to.x - from.x + 1;
    assert(dy * dz >= dz) by (nonlinear_arith)
        requires
            dy >= 1,
            dz >= 1,
    ;
    assert(dx * (dy * dz) >= dy * dz) by (nonlinear_arith)
        requires
            dx >= 1,
            dy * dz >= 1,
    ;
}

/// Every cell of the box has a rank below the box's cell count.
pub proof fn lemma_rank_bounds(c: GridCell, from: GridCell, to: GridCell)
    requires
        in_box(c, from, to),
    ensures
        0 <= cell_rank(c, from, to) < box_cell_count(from, to),
        cell_rank(from, from, to) == 0,
        cell_rank(to, from, to) == box_cell_count(from, to) - 1,
{
    lemma_spans_positive(from, to);
    let dy = span_y(from, to);
    let dz = span_z(from, to);
    let dx = to.x - from.x + 1;
    let a = c.x - from.x;
    let b = c.y - from.y;
    let e = c.z - from.z;
    assert(0 <= a * (dy * dz) + b * dz + e < dx * (dy * dz)) by (nonlinear_arith)
        requires
            0 <= a < dx,
            0 <= b < dy,
            0 <= e < dz,
    ;
    assert((dx - 1) * (dy * dz) + (dy - 1) * dz + (dz - 1) == dx * (dy * dz) - 1) by (nonlinear_arith);
    assert(0int * (dy * dz) + 0int * dz + 0 == 0) by (nonlinear_arith);
}

/// One step of the walk inside the box: the walk stops exactly at `to`, and otherwise moves to
/// the cell whose rank is one higher, which is again in the box.
pub proof fn lemma_grid_succ_step(c: GridCell, from: GridCell, to: GridCell)
    requires
        in_box(c, from, to),
    ensures
        grid_succ(c, from, to) is None <==> c == to,
        grid_succ(c, from, to) matches Some(n) ==> in_box(n, from, to) && cell_rank(n, from, to)
            == cell_rank(c, from, to) + 1,
{
    lemma_spans_positive(from, to);
    let dy = span_y(from, to);
    let dz = span_z(from, to);
    let a = c.x - from.x;
    let b = c.y - from.y;
    if c.z >= to.z {
        if c.y >= to.y {
            if c.x < to.x {
                assert((a + 1) * (dy * dz) + 0int * dz + 0 == a * (dy * dz) + (dy - 1) * dz + (dz
                    - 1) + 1) by (nonlinear_arith);
            }
        } else {
            assert(a * (dy * dz) + (b + 1) * dz + 0 == a * (dy * dz) + b * dz + (dz - 1) + 1)
                by (nonlinear_arith);
        }
    }
}

/// The walk started at `from` visits the box's cells in rank order: after `k` steps it is at the
/// cell of rank `k` for every `k` below the box's cell count, and one step later it has ended.
/// So it reaches every cell of the box exactly once, ending at `to`, which has no successor.
pub proof fn lemma_walk_enumerates_box(from: GridCell, to: GridCell, k: nat)
    requires
        from.x <= to.x,
        from.y <= to.y,
        from.z <= to.z,
        k < box_cell_count(from, to),
    ensures
        walk(from, from, to, k) matches Some(c) && in_box(c, from, to) && cell_rank(c, from, to)
            == k,
        k == box_cell_count(from, to) - 1 ==> walk(from, from, to, (k + 1) as nat) is None,
    decreases k,
{
    lemma_rank_bounds(from, from, to);
    if k > 0 {
        lemma_walk_enumerates_box(from, to, (k - 1) as nat);
        let prev = walk(from, from, to, (k - 1) as nat)->0;
        lemma_rank_bounds(prev, from, to);
        lemma_grid_succ_step(prev, from, to);
    }
    let c = walk(from, from, to, k)->0;
    lemma_rank_bounds(c, from, to);
    lemma_grid_succ_step(c, from, to);
    if k == box_cell_count(from, to) - 1 {
        if c != to {
            lemma_rank_bounds(to, from, to);
            // Distinct cells of the box have distinct ranks.
            lemma_rank_injective(c, to, from, to);
        }
    }
}

proof fn lemma_rank_injective(c: GridCell, d: GridCell, from: GridCell, to: GridCell)
    requires
        in_box(c, from, to),
        in_box(d, from, to),
        cell_rank(c, from, to) == cell_rank(d, from, to),
    ensures
        c == d,
{
    lemma_spans_positive(from, to);
    let dy = span_y(from, to);
    let dz = span_z(from, to);
    let a1 = c.x - from.x;
    let b1 = c.y - from.y;
    let e1 = c.z - from.z;
    let a2 = d.x - from.x;
    let b2 = d.y - from.y;
    let e2 = d.z - from.z;
    assert(a1 == a2 && b1 == b2 && e1 == e2) by (nonlinear_arith)
        requires
            0 <= b1 < dy,
            0 <= b2 < dy,
            0 <= e1 < dz,
            0 <= e2 < dz,
            0 <= a1,
            0 <= a2,
            a1 * (dy * dz) + b1 * dz + e1 == a2 * (dy * dz) + b2 * dz + e2,
    ;
}


/// The lowest cell of the grid.
pub open spec fn lowest_cell() -> GridCell {
    GridCell { x: i16::MIN, y: i16::MIN, z: i16::MIN }
}

/// The highest cell of the grid.
pub open spec fn highest_cell() -> GridCell {
    GridCell { x: i16::MAX, y: i16::MAX, z: i16::MAX }
}

/// Every coordinate of `from` is at most the corresponding coordinate of `to`, as for the cells
/// of the lowest and highest corner of a bounding box.
pub open spec fn ordered_corners(from: GridCell, to: GridCell) -> bool {
    from.x <= to.x && from.y <= to.y && from.z <= to.z
}

/// The cells the walk from `from` to `to` yields, in order.
pub open spec fn walk_cells(from: GridCell, to: GridCell) -> Seq<GridCell> {
    Seq::new(box_cell_count(from, to) as nat, |k: int| walk(from, from, to, k as nat)->0)
}

/// The indices of the boxes before the `i`-th of `boxes` whose walk yields `c`, in order: the
/// contents of the grid cell `c` when the `i`-th box is placed.
pub open spec fn bucket(boxes: Seq<(GridCell, GridCell)>, i: int, c: GridCell) -> Seq<usize>
    decreases i,
{
    if i <= 0 {
        Seq::empty()
    } else {
        bucket(boxes, i - 1, c) + if walk_cells(boxes[i - 1].0, boxes[i - 1].1).contains(c) {
            seq![(i - 1) as usize]
        } else {
            Seq::empty()
        }
    }
}

/// The box `i` paired with each of `earlier`, in order.
pub open spec fn pairs_with(i: int, earlier: Seq<usize>) -> Seq<(usize, usize)> {
    earlier.map_values(|j: usize| (i as usize, j))
}

/// The candidate pairs the `i`-th box makes in the first `k` cells of its walk: in each cell, the
/// box paired with every box already placed there.
pub open spec fn cell_pairs(boxes: Seq<(GridCell, GridCell)>, i: int, k: int) -> Seq<(usize, usize)>
    decreases k,
{
    if k <= 0 {
        Seq::empty()
    } else {
        cell_pairs(boxes, i, k - 1) + pairs_with(i, bucket(boxes, i, walk_cells(boxes[i].0, boxes[i].1)[k - 1]))
    }
}

/// The candidate pairs the first `n` boxes make, box by box.
pub open spec fn candidate_pairs(boxes: Seq<(GridCell, GridCell)>, n: int) -> Seq<(usize, usize)>
    decreases n,
{
    if n <= 0 {
        Seq::empty()
    } else {
        candidate_pairs(boxes, n - 1) + cell_pairs(boxes, n - 1, walk_cells(boxes[n - 1].0, boxes[n - 1].1).len() as int)
    }
}

/// The contents of cell `c` in a grid keyed by `cell_key`.
pub open spec fn grid_bucket(grid: Map<u64, Vec<usize>>, c: GridCell) -> Seq<usize> {
    let key = cell_rank(c, lowest_cell(), highest_cell()) as u64;
    if grid.contains_key(key) {
        grid[key]@
    } else {
        Seq::empty()
    }
}

/// A number that identifies `cell` among all cells: its rank in the whole grid.
fn cell_key(cell: GridCell) -> (key: u64)
    ensures
        key == cell_rank(cell, lowest_cell(), highest_cell()),
{
    let x = (cell.x as i64 + 32768) as u64;
    let y = (cell.y as i64 + 32768) as u64;
    let z = (cell.z as i64 + 32768) as u64;
    assert(x * 4294967296 <= 65535 * 4294967296) by (nonlinear_arith)
        requires
            x <= 65535,
    ;
    assert(y * 65536 <= 65535 * 65536) by (nonlinear_arith)
        requires
            y <= 65535,
    ;
    assert(span_y(lowest_cell(), highest_cell()) == 65536);
    assert(span_z(lowest_cell(), highest_cell()) == 65536);
    assert(65536int * 65536int == 4294967296int);
    x * 4294967296 + y * 65536 + z
}

/// Distinct cells have distinct keys.
proof fn lemma_cell_key_injective(c: GridCell, d: GridCell)
    requires
        cell_rank(c, lowest_cell(), highest_cell()) == cell_rank(d, lowest_cell(), highest_cell()),
    ensures
        c == d,
{
    lemma_rank_injective(c, d, lowest_cell(), highest_cell());
}

/// The cells the walk from `from` to `to` yields, collected in order.
fn cells_between(from: GridCell, to: GridCell) -> (cells: Vec<GridCell>)
    requires
        ordered_corners(from, to),
    ensures
        cells@ == walk_cells(from, to),
{
    let mut iter = from.iter_to(to);
    let mut cells: Vec<GridCell> = Vec::new();
    let ghost count = box_cell_count(from, to);
    proof {
        lemma_spans_positive(from, to);
        lemma_walk_enumerates_box(from, to, 0);
    }
    loop
        invariant
            iter.from == from,
            iter.to == to,
            ordered_corners(from, to),
            count == box_cell_count(from, to),
            cells@.len() <= count,
            iter.done <==> cells@.len() == count,
            !iter.done ==> walk(from, from, to, cells@.len()) == Some(iter.next),
            forall|k: int| 0 <= k < cells@.len() ==> #[trigger] cells@[k] == walk(from, from, to, k as nat)->0,
        ensures
            cells@ =~= walk_cells(from, to),
        decreases count - cells@.len(),
    {
        let ghost k = cells@.len();
        proof {
            if k < count {
                lemma_walk_enumerates_box(from, to, k);
            }
        }
        match iter.next() {
            Some(cell) => {
                proof {
                    if k + 1 < count {
                        lemma_walk_enumerates_box(from, to, (k + 1) as nat);
                    }
                }
                cells.push(cell);
            },
            None => {
                break;
            },
        }
    }
    cells
}

/// The broadphase of the collision system over the boxes `boxes`, each given by the cells of its
/// lowest and highest corner. The boxes are placed in the grid in order: each box walks its cells
/// and, in each cell, is paired with every box placed there before it, then is placed there
/// itself. Returns those pairs, the later box first, as indices into `boxes`.
pub fn broadphase_candidates(boxes: &[(GridCell, GridCell)]) -> (candidates: Vec<(usize, usize)>)
    requires
        forall|i: int| 0 <= i < boxes@.len() ==> #[trigger] ordered_corners(boxes@[i].0, boxes@[i].1),
    ensures
        candidates@ == candidate_pairs(boxes@, boxes@.len() as int),
{
    let mut grid: HashMap<u64, Vec<usize>> = HashMap::new();
    let mut candidates: Vec<(usize, usize)> = Vec::new();
    let mut i: usize = 0;
    while i < boxes.len()
        invariant
            i <= boxes@.len(),
            forall|b: int| 0 <= b < boxes@.len() ==> #[trigger] ordered_corners(boxes@[b].0, boxes@[b].1),
            forall|c: GridCell| #[trigger] grid_bucket(grid@, c) == bucket(boxes@, i as int, c),
            candidates@ == candidate_pairs(boxes@, i as int),
        decreases boxes@.len() - i,
    {
        let (from, to) = boxes[i];
        assert(ordered_corners(boxes@[i as int].0, boxes@[i as int].1));
        let cells = cells_between(from, to);
        let ghost placed = grid@;
        proof {
            lemma_spans_positive(from, to);
            assert forall|a: int, b: int| 0 <= a < b < cells@.len() implies cells@[a] != cells@[b] by {
                lemma_walk_enumerates_box(from, to, a as nat);
                lemma_walk_enumerates_box(from, to, b as nat);
            }
        }
        let mut k: usize = 0;
        while k < cells.len()
            invariant
                i < boxes@.len(),
                k <= cells@.len(),
                (from, to) == boxes@[i as int],
                cells@ == walk_cells(from, to),
                forall|a: int, b: int| 0 <= a < b < cells@.len() ==> cells@[a] != cells@[b],
                forall|c: GridCell| #[trigger] grid_bucket(placed, c) == bucket(boxes@, i as int, c),
                forall|c: GridCell|
                    #[trigger] grid_bucket(grid@, c) == if cells@.take(k as int).contains(c) {
                        bucket(boxes@, i as int, c).push(i)
                    } else {
                        bucket(boxes@, i as int, c)
                    },
                candidates@ == candidate_pairs(boxes@, i as int) + cell_pairs(boxes@, i as int, k as int),
            decreases cells@.len() - k,
        {
            let cell = cells[k];
            let key = cell_key(cell);
            let ghost before = grid@;
            let ghost earlier = bucket(boxes@, i as int, cell);
            let ghost prior = candidates@;
            assert(!cells@.take(k as int).contains(cell)) by {
                if cells@.take(k as int).contains(cell) {
                    let shorter = cells@.take(k as int);
                    let a = choose|a: int| 0 <= a < shorter.len() && #[trigger] shorter[a] == cell;
                    assert(cells@[a] == cells@[k as int]);
                }
            }
            assert(grid_bucket(before, cell) == earlier);
            match hash_map_get_mut(&mut grid, &key) {
                Some(occupants) => {
                    let mut m: usize = 0;
                    while m < occupants.len()
                        invariant
                            m <= occupants@.len(),
                            occupants@ == earlier,
                            candidates@ == prior + pairs_with(i as int, earlier.take(m as int)),
                        decreases occupants@.len() - m,
                    {
                        candidates.push((i, occupants[m]));
                        assert(earlier.take(m + 1) =~= earlier.take(m as int).push(earlier[m as int]));
                        assert(pairs_with(i as int, earlier.take(m + 1)) =~= pairs_with(i as int, earlier.take(m as int)).push(
                            (i, earlier[m as int]),
                        ));
                        m = m + 1;
                    }
                    assert(earlier.take(earlier.len() as int) =~= earlier);
                    occupants.push(i);
                },
                None => {
                    assert(earlier =~= Seq::<usize>::empty());
                    assert(pairs_with(i as int, earlier) =~= Seq::<(usize, usize)>::empty());
                    let mut occupants: Vec<usize> = Vec::new();
                    occupants.push(i);
                    grid.insert(key, occupants);
                },
            }
            proof {
                assert(cells@.take(k + 1) =~= cells@.take(k as int).push(cell));
                assert forall|c: GridCell| #[trigger] grid_bucket(grid@, c) == if cells@.take(k + 1).contains(c) {
                    bucket(boxes@, i as int, c).push(i)
                } else {
                    bucket(boxes@, i as int, c)
                } by {
                    if c == cell {
                        assert(cells@.take(k + 1).contains(c)) by {
                            assert(cells@.take(k + 1)[k as int] == cell);
                        }
                    } else {
                        lemma_rank_bounds(c, lowest_cell(), highest_cell());
                        lemma_rank_bounds(cell, lowest_cell(), highest_cell());
                        assert(box_cell_count(lowest_cell(), highest_cell()) == 65536int * (65536int * 65536int));
                        if cell_rank(c, lowest_cell(), highest_cell()) == cell_rank(cell, lowest_cell(), highest_cell()) {
                            lemma_cell_key_injective(c, cell);
                        }
                        assert(grid_bucket(grid@, c) == grid_bucket(before, c));
                        assert(cells@.take(k + 1).contains(c) == cells@.take(k as int).contains(c)) by {
                            let longer = cells@.take(k + 1);
                            if longer.contains(c) {
                                let a = choose|a: int| 0 <= a < longer.len() && #[trigger] longer[a] == c;
                                assert(cells@.take(k as int)[a] == c);
                            }
                        }
                    }
                }
                assert(cells@[k as int] == walk_cells(boxes@[i as int].0, boxes@[i as int].1)[k as int]);
                assert(candidates@ =~= candidate_pairs(boxes@, i as int) + cell_pairs(boxes@, i as int, k + 1));
            }
            k = k + 1;
        }
        proof {
            assert(cells@.take(cells@.len() as int) =~= cells@);
            assert forall|c: GridCell| #[trigger] grid_bucket(grid@, c) == bucket(boxes@, i + 1, c) by {
                if cells@.contains(c) {
                    assert(bucket(boxes@, i + 1, c) =~= bucket(boxes@, i as int, c).push(i));
                } else {
                    assert(bucket(boxes@, i + 1, c) =~= bucket(boxes@, i as int, c));
                }
            }
            assert(candidates@ =~= candidate_pairs(boxes@, i + 1));
        }
        i = i + 1;
    }
    candidates
}


/// A number that identifies the ordered pair of entities `pair`.
pub open spec fn pair_key(pair: (Entity, Entity)) -> int {
    pair.0.0 * 4294967296 + pair.1.0
}

proof fn lemma_pair_key_injective(p: (Entity, Entity), q: (Entity, Entity))
    requires
        pair_key(p) == pair_key(q),
    ensures
        p == q,
{
    let (a1, b1, a2, b2) = (p.0.0 as int, p.1.0 as int, q.0.0 as int, q.1.0 as int);
    assert(a1 == a2 && b1 == b2) by (nonlinear_arith)
        requires
            0 <= b1 < 4294967296,
            0 <= b2 < 4294967296,
            0 <= a1,
            0 <= a2,
            a1 * 4294967296 + b1 == a2 * 4294967296 + b2,
    ;
}

fn exec_pair_key(pair: (Entity, Entity)) -> (key: u64)
    ensures
        key == pair_key(pair),
{
    let a = pair.0.0 as u64;
    assert(a * 4294967296 <= 4294967295 * 4294967296) by (nonlinear_arith)
        requires
            a <= 4294967295,
    ;
    a * 4294967296 + pair.1.0 as u64
}

/// Some candidate among `pairs` whose entities are `pair` was found colliding by its test.
pub open spec fn hit_by_test<F: Fn(usize) -> bool>(pairs: Seq<(Entity, Entity)>, test: F, pair: (Entity, Entity)) -> bool {
    exists|j: usize| 0 <= j < pairs.len() && #[trigger] pairs[j as int] == pair && test.ensures((j,), true)
}

/// The narrowphase over the broadphase's candidates, `pairs[k]` being the entities of the `k`-th
/// candidate: each ordered pair of entities is tested (`test(k)` tests the `k`-th candidate) until
/// a test finds it colliding, and is not tested again after that. Returns the colliding pairs,
/// each once, in the order they were found: every one was found colliding by the test of one of
/// its candidates, and every test of a candidate whose pair is missing found no collision.
pub fn narrowphase<F: Fn(usize) -> bool>(pairs: &[(Entity, Entity)], test: F) -> (collisions: Vec<(Entity, Entity)>)
    requires
        forall|k: usize| 0 <= k < pairs@.len() ==> #[trigger] test.requires((k,)),
    ensures
        collisions@.no_duplicates(),
        forall|i: int| 0 <= i < collisions@.len() ==> #[trigger] hit_by_test(pairs@, test, collisions@[i]),
        forall|j: usize|
            0 <= j < pairs@.len() && !collisions@.contains(#[trigger] pairs@[j as int]) ==> test.ensures((j,), false),
{
    let mut collisions: Vec<(Entity, Entity)> = Vec::new();
    let mut found: HashSet<u64> = HashSet::new();
    let mut k: usize = 0;
    while k < pairs.len()
        invariant
            k <= pairs@.len(),
            forall|j: usize| 0 <= j < pairs@.len() ==> #[trigger] test.requires((j,)),
            forall|key: u64| #[trigger] found@.contains(key) <==> exists|i: int|
                0 <= i < collisions@.len() && pair_key(#[trigger] collisions@[i]) == key,
            collisions@.no_duplicates(),
            forall|i: int| 0 <= i < collisions@.len() ==> #[trigger] hit_by_test(pairs@, test, collisions@[i]),
            forall|j: usize|
                0 <= j < k && !collisions@.contains(#[trigger] pairs@[j as int]) ==> test.ensures((j,), false),
        decreases pairs@.len() - k,
    {
        let pair = pairs[k];
        let key = exec_pair_key(pair);
        let ghost before = collisions@;
        let known = found.contains(&key);
        assert(known == before.contains(pair)) by {
            if known {
                let i = choose|i: int| 0 <= i < before.len() && pair_key(#[trigger] before[i]) == key;
                lemma_pair_key_injective(before[i], pair);
            }
            if before.contains(pair) {
                let i = choose|i: int| 0 <= i < before.len() && #[trigger] before[i] == pair;
                assert(pair_key(before[i]) == key);
            }
        }
        if !known {
            let hit = test(k);
            if hit {
                found.insert(key);
                collisions.push(pair);
                proof {
                    assert(pairs@[k as int] == pair);
                    assert(hit_by_test(pairs@, test, pair));
                    assert forall|key2: u64| #[trigger] found@.contains(key2) <==> exists|i: int|
                        0 <= i < collisions@.len() && pair_key(#[trigger] collisions@[i]) == key2 by {
                        if key2 == key {
                            assert(pair_key(collisions@[before.len() as int]) == key2);
                        } else if exists|i: int| 0 <= i < collisions@.len() && pair_key(#[trigger] collisions@[i]) == key2 {
                            let i = choose|i: int| 0 <= i < collisions@.len() && pair_key(#[trigger] collisions@[i]) == key2;
                            assert(collisions@[i] == before[i]);
                        }
                        if exists|i: int| 0 <= i < before.len() && pair_key(#[trigger] before[i]) == key2 {
                            let i = choose|i: int| 0 <= i < before.len() && pair_key(#[trigger] before[i]) == key2;
                            assert(collisions@[i] == before[i]);
                        }
                    }
                    assert forall|i: int| 0 <= i < collisions@.len() implies #[trigger] hit_by_test(pairs@, test, collisions@[i]) by {
                        if i < before.len() {
                            assert(collisions@[i] == before[i]);
                        }
                    }
                    assert forall|j: usize| 0 <= j < k + 1 && !collisions@.contains(#[trigger] pairs@[j as int]) implies test.ensures((j,), false) by {
                        if before.contains(pairs@[j as int]) {
                            let i = choose|i: int| 0 <= i < before.len() && #[trigger] before[i] == pairs@[j as int];
                            assert(collisions@[i] == before[i]);
                        }
                        if j == k {
                            assert(collisions@[before.len() as int] == pair);
                        }
                    }
                    assert forall|a: int, b: int| 0 <= a < b < collisions@.len() implies collisions@[a] != collisions@[b] by {
                        if b == before.len() {
                            assert(collisions@[a] == before[a]);
                        } else {
                            assert(collisions@[a] == before[a]);
                            assert(collisions@[b] == before[b]);
                        }
                    }
                }
            }
        }
        k = k + 1;
    }
    collisions
}

} // verus!
