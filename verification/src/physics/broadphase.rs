//! Broadphase pair detection on a spatial hash grid.
//!
//! Each body is entered into every grid cell its bounding box touches; two bodies
//! become a candidate pair when they share a cell and at least one is dynamic. Each
//! candidate is reported once, ordered by key. Which cells a box touches, and the
//! final overlap test of the two boxes, are computed by the caller.
use std::collections::{HashMap, HashSet};
use vstd::prelude::*;

use crate::physics::BodyKind;

verus! {

broadcast use vstd::std_specs::hash::group_hash_axioms;

/// A body as the grid sees it: the key it is ordered and reported by, its kind, and
/// the inclusive range of cells its bounding box touches on each axis.
#[derive(Debug, Clone, Copy, PartialEq, Eq, Structural)]
pub struct GridEntry {
    pub key: u64,
    pub kind: BodyKind,
    pub min_x: i32,
    pub min_y: i32,
    pub min_z: i32,
    pub max_x: i32,
    pub max_y: i32,
    pub max_z: i32,
}

impl GridEntry {
    /// Whether the entry's box touches cell `c`.
    pub open spec fn covers(self, c: (int, int, int)) -> bool {
        &&& self.min_x <= c.0 <= self.max_x
        &&& self.min_y <= c.1 <= self.max_y
        &&& self.min_z <= c.2 <= self.max_z
    }
}

/// Some cell is touched by both boxes.
pub open spec fn shares_cell(a: GridEntry, b: GridEntry) -> bool {
    exists|c: (int, int, int)| #[trigger] a.covers(c) && b.covers(c)
}

/// At least one of the two bodies is dynamic.
pub open spec fn has_dynamic(a: GridEntry, b: GridEntry) -> bool {
    a.kind == BodyKind::Dynamic || b.kind == BodyKind::Dynamic
}

/// The two keys, smaller first.
pub open spec fn ordered(a: u64, b: u64) -> (u64, u64) {
    if a < b {
        (a, b)
    } else {
        (b, a)
    }
}

/// Entries `i < j` share a cell, at least one is dynamic, and `p` is their ordered
/// key pair.
pub open spec fn candidate_at(entries: Seq<GridEntry>, i: int, j: int, p: (u64, u64)) -> bool {
    &&& 0 <= i < j < entries.len()
    &&& shares_cell(entries[i], entries[j])
    &&& has_dynamic(entries[i], entries[j])
    &&& p == ordered(entries[i].key, entries[j].key)
}

/// `p` is the ordered key pair of two entries that share a cell, at least one of
/// them dynamic.
pub open spec fn is_candidate(entries: Seq<GridEntry>, p: (u64, u64)) -> bool {
    exists|i: int, j: int| #[trigger] candidate_at(entries, i, j, p)
}

spec fn in_i32(c: (int, int, int)) -> bool {
    &&& i32::MIN <= c.0 <= i32::MAX
    &&& i32::MIN <= c.1 <= i32::MAX
    &&& i32::MIN <= c.2 <= i32::MAX
}

/// The hash key of a cell: its coordinates, shifted to be non-negative, as three
/// 32-bit digits.
spec fn cell_key(c: (int, int, int)) -> int {
    ((c.0 + 0x8000_0000) * 0x1_0000_0000 + (c.1 + 0x8000_0000)) * 0x1_0000_0000 + (c.2
        + 0x8000_0000)
}

proof fn lemma_digits(a1: int, r1: int, a2: int, r2: int)
    requires
        a1 * 0x1_0000_0000 + r1 == a2 * 0x1_0000_0000 + r2,
        0 <= r1 < 0x1_0000_0000,
        0 <= r2 < 0x1_0000_0000,
    ensures
        a1 == a2,
        r1 == r2,
{
    assert(a1 == a2) by (nonlinear_arith)
        requires
            a1 * 0x1_0000_0000 + r1 == a2 * 0x1_0000_0000 + r2,
            0 <= r1 < 0x1_0000_0000,
            0 <= r2 < 0x1_0000_0000,
    ;
}

proof fn lemma_cell_key_injective(a: (int, int, int), b: (int, int, int))
    requires
        in_i32(a),
        in_i32(b),
        cell_key(a) == cell_key(b),
    ensures
        a == b,
{
    lemma_digits(
        (a.0 + 0x8000_0000) * 0x1_0000_0000 + (a.1 + 0x8000_0000),
        a.2 + 0x8000_0000,
        (b.0 + 0x8000_0000) * 0x1_0000_0000 + (b.1 + 0x8000_0000),
        b.2 + 0x8000_0000,
    );
    lemma_digits(a.0 + 0x8000_0000, a.1 + 0x8000_0000, b.0 + 0x8000_0000, b.1 + 0x8000_0000);
}

proof fn lemma_cell_key_range(c: (int, int, int))
    requires
        in_i32(c),
    ensures
        0 <= cell_key(c) <= u128::MAX,
{
    let x = c.0 + 0x8000_0000;
    let y = c.1 + 0x8000_0000;
    let z = c.2 + 0x8000_0000;
    assert(0 <= (x * 0x1_0000_0000 + y) * 0x1_0000_0000 + z < 0x1_0000_0000_0000_0000_0000_0000)
        by (nonlinear_arith)
        requires
            0 <= x < 0x1_0000_0000,
            0 <= y < 0x1_0000_0000,
            0 <= z < 0x1_0000_0000,
    ;
}

fn cell_key_of(cx: i32, cy: i32, cz: i32) -> (r: u128)
    ensures
        r as int == cell_key((cx as int, cy as int, cz as int)),
{
    let x = (cx as i64 + 0x8000_0000) as u128;
    let y = (cy as i64 + 0x8000_0000) as u128;
    let z = (cz as i64 + 0x8000_0000) as u128;
    proof {
        assert(0 <= x * 0x1_0000_0000 + y < 0x1_0000_0000_0000_0000) by (nonlinear_arith)
            requires
                0 <= x < 0x1_0000_0000,
                0 <= y < 0x1_0000_0000,
        ;
        lemma_cell_key_range((cx as int, cy as int, cz as int));
    }
    (x * 0x1_0000_0000 + y) * 0x1_0000_0000 + z
}

/// The hash key of an ordered pair of entry keys.
spec fn pair_key(p: (u64, u64)) -> int {
    p.0 * 0x1_0000_0000_0000_0000 + p.1
}

proof fn lemma_pair_key_injective(a: (u64, u64), b: (u64, u64))
    requires
        pair_key(a) == pair_key(b),
    ensures
        a == b,
{
    let (a0, a1, b0, b1) = (a.0 as int, a.1 as int, b.0 as int, b.1 as int);
    assert(a0 == b0) by (nonlinear_arith)
        requires
            a0 * 0x1_0000_0000_0000_0000 + a1 == b0 * 0x1_0000_0000_0000_0000 + b1,
            0 <= a1 < 0x1_0000_0000_0000_0000,
            0 <= b1 < 0x1_0000_0000_0000_0000,
    ;
}

fn pair_key_of(p: (u64, u64)) -> (r: u128)
    ensures
        r as int == pair_key(p),
{
    proof {
        assert(0 <= p.0 * 0x1_0000_0000_0000_0000 + p.1 <= u128::MAX) by (nonlinear_arith)
            requires
                0 <= p.0 < 0x1_0000_0000_0000_0000,
                0 <= p.1 < 0x1_0000_0000_0000_0000,
        ;
    }
    (p.0 as u128) * 0x1_0000_0000_0000_0000 + (p.1 as u128)
}

/// `c` comes before the cursor `cur` in the order the grid visits cells: by `x`,
/// then `y`, then `z`.
spec fn before(c: (int, int, int), cur: (int, int, int)) -> bool {
    ||| c.0 < cur.0
    ||| c.0 == cur.0 && c.1 < cur.1
    ||| c.0 == cur.0 && c.1 == cur.1 && c.2 < cur.2
}

/// Entry `k` has been entered into cell `c` once entries `0..i` are in, and entry
/// `i` up to the cursor `cur`.
spec fn placed(entries: Seq<GridEntry>, i: int, cur: (int, int, int), k: int, c: (int, int, int)) -> bool {
    ||| 0 <= k < i && k < entries.len() && entries[k].covers(c)
    ||| k == i && 0 <= i < entries.len() && entries[i].covers(c) && before(c, cur)
}

/// Where entry `i` starts being entered: the first cell of its range.
spec fn start(entries: Seq<GridEntry>, i: int) -> (int, int, int) {
    if 0 <= i < entries.len() {
        (entries[i].min_x as int, entries[i].min_y as int, entries[i].min_z as int)
    } else {
        (0, 0, 0)
    }
}

/// The grid: a bucket of entry indices per touched cell, found by the cell's key.
struct CellGrid {
    slots: HashMap<u128, usize>,
    buckets: Vec<Vec<usize>>,
    cells: Ghost<Seq<(int, int, int)>>,
}

impl CellGrid {
    /// Bucket `b` belongs to cell `cells[b]`, and `slots` finds each bucket by its
    /// cell's key.
    spec fn indexed(self) -> bool {
        &&& self.cells@.len() == self.buckets@.len()
        &&& forall|b: int| 0 <= b < self.cells@.len() ==> in_i32(#[trigger] self.cells@[b])
        &&& forall|b: int|
            0 <= b < self.cells@.len() ==> {
                let k = cell_key(#[trigger] self.cells@[b]) as u128;
                self.slots@.contains_key(k) && self.slots@[k] == b
            }
        &&& forall|k: u128| #[trigger]
            self.slots@.contains_key(k) ==> (self.slots@[k] as int) < self.cells@.len()
                && cell_key(self.cells@[self.slots@[k] as int]) == k
    }

    /// The buckets hold, in increasing order, exactly the entries placed so far.
    spec fn holds(self, entries: Seq<GridEntry>, i: int, cur: (int, int, int)) -> bool {
        &&& self.indexed()
        &&& forall|b: int, p: int|
            0 <= b < self.buckets@.len() && 0 <= p < self.buckets@[b]@.len() ==> placed(
                entries,
                i,
                cur,
                #[trigger] self.buckets@[b]@[p] as int,
                self.cells@[b],
            )
        &&& forall|b: int, p: int, q: int|
            0 <= b < self.buckets@.len() && 0 <= p < q < self.buckets@[b]@.len()
                ==> #[trigger] self.buckets@[b]@[p] < #[trigger] self.buckets@[b]@[q]
        &&& forall|b: int, k: int|
            0 <= b < self.buckets@.len() && #[trigger] placed(entries, i, cur, k, self.cells@[b])
                ==> self.buckets@[b]@.contains(k as usize)
        &&& forall|k: int, c: (int, int, int)| #[trigger]
            placed(entries, i, cur, k, c) ==> self.slots@.contains_key(cell_key(c) as u128)
    }

    proof fn lemma_transfer(
        self,
        entries: Seq<GridEntry>,
        i1: int,
        cur1: (int, int, int),
        i2: int,
        cur2: (int, int, int),
    )
        requires
            self.holds(entries, i1, cur1),
            forall|k: int, c: (int, int, int)| #[trigger]
                placed(entries, i2, cur2, k, c) == placed(entries, i1, cur1, k, c),
        ensures
            self.holds(entries, i2, cur2),
    {
        assert forall|b: int, p: int|
            0 <= b < self.buckets@.len() && 0 <= p < self.buckets@[b]@.len() implies placed(
                entries,
                i2,
                cur2,
                #[trigger] self.buckets@[b]@[p] as int,
                self.cells@[b],
            ) by {
            assert(placed(entries, i1, cur1, self.buckets@[b]@[p] as int, self.cells@[b]));
        }
        assert forall|b: int, k: int|
            0 <= b < self.buckets@.len() && #[trigger] placed(
                entries,
                i2,
                cur2,
                k,
                self.cells@[b],
            ) implies self.buckets@[b]@.contains(k as usize) by {
            assert(placed(entries, i1, cur1, k, self.cells@[b]));
        }
        assert forall|k: int, c: (int, int, int)| #[trigger]
            placed(entries, i2, cur2, k, c) implies self.slots@.contains_key(
            cell_key(c) as u128,
        ) by {
            assert(placed(entries, i1, cur1, k, c));
        }
    }

    fn new(Ghost(entries): Ghost<Seq<GridEntry>>) -> (g: Self)
        ensures
            g.holds(entries, 0, start(entries, 0)),
            g.buckets@.len() == 0,
    {
        CellGrid { slots: HashMap::new(), buckets: Vec::new(), cells: Ghost(Seq::empty()) }
    }

    /// Enters entry `i` into the cursor's cell `(cx, cy, cz)`, opening a bucket for
    /// the cell when it has none; the cursor moves one cell on along `z`.
    fn place(&mut self, cx: i32, cy: i32, cz: i32, i: usize, Ghost(entries): Ghost<Seq<GridEntry>>)
        requires
            old(self).holds(entries, i as int, (cx as int, cy as int, cz as int)),
            (i as int) < entries.len(),
            entries[i as int].covers((cx as int, cy as int, cz as int)),
        ensures
            final(self).holds(entries, i as int, (cx as int, cy as int, cz + 1)),
    {
        let ghost c = (cx as int, cy as int, cz as int);
        let ghost next = (cx as int, cy as int, cz + 1);
        let ghost old_grid = *self;
        assert forall|k: int, d: (int, int, int)| #[trigger]
            placed(entries, i as int, next, k, d) == (placed(entries, i as int, c, k, d) || (k
                == i && d == c)) by {}
        let key = cell_key_of(cx, cy, cz);
        proof {
            lemma_cell_key_range(c);
        }
        let found = match self.slots.get(&key) {
            Some(b) => Some(*b),
            None => None,
        };
        match found {
            Some(b) => {
                proof {
                    lemma_cell_key_injective(self.cells@[b as int], c);
                }
                self.buckets[b].push(i);
                proof {
                    assert forall|b2: int, p: int|
                        0 <= b2 < self.buckets@.len() && 0 <= p < self.buckets@[b2]@.len()
                            implies placed(
                            entries,
                            i as int,
                            next,
                            #[trigger] self.buckets@[b2]@[p] as int,
                            self.cells@[b2],
                        ) by {
                        if b2 != b || p < old_grid.buckets@[b2]@.len() {
                            assert(old_grid.buckets@[b2]@[p] == self.buckets@[b2]@[p]);
                            assert(placed(
                                entries,
                                i as int,
                                c,
                                old_grid.buckets@[b2]@[p] as int,
                                old_grid.cells@[b2],
                            ));
                        }
                    }
                    assert forall|b2: int, p: int, q: int|
                        0 <= b2 < self.buckets@.len() && 0 <= p < q < self.buckets@[b2]@.len()
                            implies #[trigger] self.buckets@[b2]@[p]
                            < #[trigger] self.buckets@[b2]@[q] by {
                        if b2 == b && q == old_grid.buckets@[b2]@.len() {
                            assert(placed(
                                entries,
                                i as int,
                                c,
                                old_grid.buckets@[b2]@[p] as int,
                                old_grid.cells@[b2],
                            ));
                        } else {
                            assert(old_grid.buckets@[b2]@[p] < old_grid.buckets@[b2]@[q]);
                        }
                    }
                    assert forall|b2: int, k: int|
                        0 <= b2 < self.buckets@.len() && #[trigger] placed(
                            entries,
                            i as int,
                            next,
                            k,
                            self.cells@[b2],
                        ) implies self.buckets@[b2]@.contains(k as usize) by {
                        if k == i && self.cells@[b2] == c {
                            assert(b2 == b);
                            assert(self.buckets@[b2]@[self.buckets@[b2]@.len() - 1] == i);
                        } else {
                            assert(placed(entries, i as int, c, k, old_grid.cells@[b2]));
                            assert(old_grid.buckets@[b2]@.contains(k as usize));
                            let p = choose|p: int|
                                0 <= p < old_grid.buckets@[b2]@.len()
                                    && old_grid.buckets@[b2]@[p] == k as usize;
                            assert(self.buckets@[b2]@[p] == k as usize);
                        }
                    }
                    assert forall|k: int, d: (int, int, int)| #[trigger]
                        placed(entries, i as int, next, k, d) implies self.slots@.contains_key(
                        cell_key(d) as u128,
                    ) by {
                        if !(k == i && d == c) {
                            assert(placed(entries, i as int, c, k, d));
                        }
                    }
                }
            },
            None => {
                let b = self.buckets.len();
                self.slots.insert(key, b);
                let mut bucket: Vec<usize> = Vec::new();
                bucket.push(i);
                self.buckets.push(bucket);
                proof {
                    self.cells@ = self.cells@.push(c);
                    assert forall|b2: int| 0 <= b2 < old_grid.cells@.len() implies self.cells@[b2]
                        != c by {
                        assert(old_grid.slots@.contains_key(
                            cell_key(old_grid.cells@[b2]) as u128,
                        ));
                    }
                    assert(self.indexed()) by {
                        assert forall|b2: int| 0 <= b2 < self.cells@.len() implies {
                            let k = cell_key(#[trigger] self.cells@[b2]) as u128;
                            self.slots@.contains_key(k) && self.slots@[k] == b2
                        } by {
                            if b2 < old_grid.cells@.len() {
                                assert(old_grid.cells@[b2] == self.cells@[b2]);
                                lemma_cell_key_range(self.cells@[b2]);
                                if cell_key(self.cells@[b2]) == cell_key(c) {
                                    lemma_cell_key_injective(self.cells@[b2], c);
                                }
                            }
                        }
                    }
                    assert forall|b2: int, p: int|
                        0 <= b2 < self.buckets@.len() && 0 <= p < self.buckets@[b2]@.len()
                            implies placed(
                            entries,
                            i as int,
                            next,
                            #[trigger] self.buckets@[b2]@[p] as int,
                            self.cells@[b2],
                        ) by {
                        if b2 < old_grid.buckets@.len() {
                            assert(placed(
                                entries,
                                i as int,
                                c,
                                old_grid.buckets@[b2]@[p] as int,
                                old_grid.cells@[b2],
                            ));
                        }
                    }
                    assert forall|b2: int, p: int, q: int|
                        0 <= b2 < self.buckets@.len() && 0 <= p < q < self.buckets@[b2]@.len()
                            implies #[trigger] self.buckets@[b2]@[p]
                            < #[trigger] self.buckets@[b2]@[q] by {
                        assert(old_grid.buckets@[b2]@[p] < old_grid.buckets@[b2]@[q]);
                    }
                    assert forall|b2: int, k: int|
                        0 <= b2 < self.buckets@.len() && #[trigger] placed(
                            entries,
                            i as int,
                            next,
                            k,
                            self.cells@[b2],
                        ) implies self.buckets@[b2]@.contains(k as usize) by {
                        if b2 == b {
                            if k != i {
                                assert(placed(entries, i as int, c, k, c));
                            }
                            assert(self.buckets@[b2]@[0] == i);
                        } else {
                            assert(placed(entries, i as int, c, k, old_grid.cells@[b2]));
                            assert(old_grid.buckets@[b2]@.contains(k as usize));
                        }
                    }
                    assert forall|k: int, d: (int, int, int)| #[trigger]
                        placed(entries, i as int, next, k, d) implies self.slots@.contains_key(
                        cell_key(d) as u128,
                    ) by {
                        if !(k == i && d == c) {
                            assert(placed(entries, i as int, c, k, d));
                        }
                    }
                }
            },
        }
    }
}


impl CellGrid {
    /// Enters entry `i` into every cell of its range, in `x`, then `y`, then `z`
    /// order.
    fn enter(&mut self, entries: &Vec<GridEntry>, i: usize)
        requires
            old(self).holds(entries@, i as int, start(entries@, i as int)),
            i < entries.len(),
        ensures
            final(self).holds(entries@, i + 1, start(entries@, i + 1)),
    {
        let e = entries[i];
        let ghost es = entries@;
        let ghost ii = i as int;
        let mut cx: i64 = e.min_x as i64;
        while cx <= e.max_x as i64
            invariant
                e == es[ii],
                es == entries@,
                ii == i,
                i < entries.len(),
                e.min_x <= cx,
                cx <= e.max_x + 1 || cx == e.min_x,
                self.holds(es, ii, (cx as int, e.min_y as int, e.min_z as int)),
            decreases e.max_x + 1 - cx,
        {
            let mut cy: i64 = e.min_y as i64;
            while cy <= e.max_y as i64
                invariant
                    e == es[ii],
                    ii == i,
                    i < es.len(),
                    e.min_x <= cx <= e.max_x,
                    e.min_y <= cy,
                cy <= e.max_y + 1 || cy == e.min_y,
                    self.holds(es, ii, (cx as int, cy as int, e.min_z as int)),
                decreases e.max_y + 1 - cy,
            {
                let mut cz: i64 = e.min_z as i64;
                while cz <= e.max_z as i64
                    invariant
                        e == es[ii],
                        ii == i,
                        i < es.len(),
                        e.min_x <= cx <= e.max_x,
                        e.min_y <= cy <= e.max_y,
                        e.min_z <= cz,
                cz <= e.max_z + 1 || cz == e.min_z,
                        self.holds(es, ii, (cx as int, cy as int, cz as int)),
                    decreases e.max_z + 1 - cz,
                {
                    self.place(cx as i32, cy as i32, cz as i32, i, Ghost(es));
                    cz += 1;
                }
                proof {
                    let g = *self;
                    g.lemma_transfer(
                        es,
                        ii,
                        (cx as int, cy as int, cz as int),
                        ii,
                        (cx as int, cy + 1, e.min_z as int),
                    );
                }
                cy += 1;
            }
            proof {
                let g = *self;
                g.lemma_transfer(
                    es,
                    ii,
                    (cx as int, cy as int, e.min_z as int),
                    ii,
                    (cx + 1, e.min_y as int, e.min_z as int),
                );
            }
            cx += 1;
        }
        proof {
            let g = *self;
            g.lemma_transfer(
                es,
                ii,
                (cx as int, e.min_y as int, e.min_z as int),
                ii + 1,
                start(es, ii + 1),
            );
        }
    }
}

/// Whether the pair of entries `a`, `b` has been noted in `seen`, when it counts.
spec fn noted(entries: Seq<GridEntry>, seen: Set<u128>, a: usize, b: usize) -> bool {
    has_dynamic(entries[a as int], entries[b as int]) ==> seen.contains(
        pair_key(ordered(entries[a as int].key, entries[b as int].key)) as u128,
    )
}

/// `seen` holds exactly the keys of `pairs`, which are distinct candidates.
spec fn reported(entries: Seq<GridEntry>, pairs: Seq<(u64, u64)>, seen: Set<u128>) -> bool {
    &&& forall|t: int| 0 <= t < pairs.len() ==> seen.contains(pair_key(#[trigger] pairs[t]) as u128)
    &&& forall|x: u128| #[trigger]
        seen.contains(x) ==> exists|t: int| 0 <= t < pairs.len() && pair_key(pairs[t]) == x
    &&& pairs.no_duplicates()
    &&& forall|t: int| 0 <= t < pairs.len() ==> is_candidate(entries, #[trigger] pairs[t])
}

/// Lists, once each and ordered by key, the key pairs of entries that share a grid
/// cell where at least one of the two is dynamic.
pub fn candidate_pairs(entries: &Vec<GridEntry>) -> (pairs: Vec<(u64, u64)>)
    ensures
        pairs@.no_duplicates(),
        forall|p: (u64, u64)| pairs@.contains(p) <==> is_candidate(entries@, p),
{
    let ghost es = entries@;
    let mut grid = CellGrid::new(Ghost(es));
    let n = entries.len();
    for i in 0..n
        invariant
            n == es.len(),
            es == entries@,
            grid.holds(es, i as int, start(es, i as int)),
    {
        grid.enter(entries, i);
    }
    let ghost cur = start(es, n as int);
    let mut pairs: Vec<(u64, u64)> = Vec::new();
    let mut seen: HashSet<u128> = HashSet::new();
    let nb = grid.buckets.len();
    for b in 0..nb
        invariant
            n == es.len(),
            es == entries@,
            nb == grid.buckets@.len(),
            grid.holds(es, n as int, cur),
            reported(es, pairs@, seen@),
            forall|b2: int, p: int, q: int|
                #![trigger grid.buckets@[b2]@[p], grid.buckets@[b2]@[q]]
                0 <= b2 < b && 0 <= p < q < grid.buckets@[b2]@.len() ==> noted(
                    es,
                    seen@,
                    grid.buckets@[b2]@[p],
                    grid.buckets@[b2]@[q],
                ),
    {
        let bucket = &grid.buckets[b];
        let m = bucket.len();
        for p in 0..m
            invariant
                n == es.len(),
                es == entries@,
                nb == grid.buckets@.len(),
                0 <= b < nb,
                bucket@ == grid.buckets@[b as int]@,
                m == bucket@.len(),
                grid.holds(es, n as int, cur),
                reported(es, pairs@, seen@),
                forall|b2: int, p2: int, q2: int|
                    #![trigger grid.buckets@[b2]@[p2], grid.buckets@[b2]@[q2]]
                    0 <= b2 < b && 0 <= p2 < q2 < grid.buckets@[b2]@.len() ==> noted(
                        es,
                        seen@,
                        grid.buckets@[b2]@[p2],
                        grid.buckets@[b2]@[q2],
                    ),
                forall|p2: int, q2: int|
                    #![trigger bucket@[p2], bucket@[q2]]
                    0 <= p2 < p && p2 < q2 < m ==> noted(es, seen@, bucket@[p2], bucket@[q2]),
        {
            for q in (p + 1)..m
                invariant
                    n == es.len(),
                    es == entries@,
                    nb == grid.buckets@.len(),
                    0 <= b < nb,
                    bucket@ == grid.buckets@[b as int]@,
                    m == bucket@.len(),
                    p < m,
                    grid.holds(es, n as int, cur),
                    reported(es, pairs@, seen@),
                    forall|b2: int, p2: int, q2: int|
                        #![trigger grid.buckets@[b2]@[p2], grid.buckets@[b2]@[q2]]
                        0 <= b2 < b && 0 <= p2 < q2 < grid.buckets@[b2]@.len() ==> noted(
                            es,
                            seen@,
                            grid.buckets@[b2]@[p2],
                            grid.buckets@[b2]@[q2],
                        ),
                    forall|p2: int, q2: int|
                        #![trigger bucket@[p2], bucket@[q2]]
                        0 <= p2 < p && p2 < q2 < m ==> noted(es, seen@, bucket@[p2], bucket@[q2]),
                    forall|q2: int|
                        p < q2 < q ==> #[trigger] noted(es, seen@, bucket@[p as int], bucket@[q2]),
            {
                proof {
                    assert(placed(es, n as int, cur, bucket@[p as int] as int, grid.cells@[b as int]));
                    assert(placed(es, n as int, cur, bucket@[q as int] as int, grid.cells@[b as int]));
                    assert(bucket@[p as int] < bucket@[q as int]);
                }
                let ghost pairs0 = pairs@;
                let ghost seen0 = seen@;
                let ea = entries[bucket[p]];
                let eb = entries[bucket[q]];
                if ea.kind == BodyKind::Dynamic || eb.kind == BodyKind::Dynamic {
                    let pair = if ea.key < eb.key {
                        (ea.key, eb.key)
                    } else {
                        (eb.key, ea.key)
                    };
                    let pk = pair_key_of(pair);
                    if !seen.contains(&pk) {
                        proof {
                            let i = bucket@[p as int] as int;
                            let j = bucket@[q as int] as int;
                            assert(es[i].covers(grid.cells@[b as int]));
                            assert(shares_cell(es[i], es[j]));
                            assert(candidate_at(es, i, j, pair));
                            assert(!pairs@.contains(pair));
                        }
                        seen.insert(pk);
                        pairs.push(pair);
                        proof {
                            let last = pairs0.len() as int;
                            assert forall|t: int| 0 <= t < pairs@.len() implies seen@.contains(
                                pair_key(#[trigger] pairs@[t]) as u128,
                            ) by {
                                if t < last {
                                    assert(pairs@[t] == pairs0[t]);
                                }
                            }
                            assert forall|x: u128| #[trigger] seen@.contains(x) implies exists|t: int|
                                0 <= t < pairs@.len() && pair_key(pairs@[t]) == x by {
                                if x == pk {
                                    assert(pair_key(pairs@[last]) == x);
                                } else {
                                    let t = choose|t: int|
                                        0 <= t < pairs0.len() && pair_key(pairs0[t]) == x;
                                    assert(pairs@[t] == pairs0[t]);
                                }
                            }
                            assert forall|s1: int, t1: int|
                                0 <= s1 < pairs@.len() && 0 <= t1 < pairs@.len() && s1 != t1
                                    implies pairs@[s1] != pairs@[t1] by {
                                if s1 == last {
                                    assert(pairs0[t1] == pairs@[t1]);
                                } else if t1 == last {
                                    assert(pairs0[s1] == pairs@[s1]);
                                }
                            }
                            assert forall|t: int| 0 <= t < pairs@.len() implies is_candidate(
                                es,
                                #[trigger] pairs@[t],
                            ) by {
                                if t < last {
                                    assert(pairs@[t] == pairs0[t]);
                                }
                            }
                        }
                    }
                }
                proof {
                    assert forall|q2: int| p < q2 <= q implies #[trigger] noted(
                        es,
                        seen@,
                        bucket@[p as int],
                        bucket@[q2],
                    ) by {
                        if q2 < q {
                            assert(noted(es, seen0, bucket@[p as int], bucket@[q2]));
                        }
                    }
                }
            }
        }
    }
    proof {
        assert forall|p: (u64, u64)| is_candidate(es, p) implies pairs@.contains(p) by {
            let (i, j) = choose|i: int, j: int| #[trigger] candidate_at(es, i, j, p);
            let c = choose|c: (int, int, int)| #[trigger] es[i].covers(c) && es[j].covers(c);
            assert(placed(es, n as int, cur, i, c));
            assert(placed(es, n as int, cur, j, c));
            let k = cell_key(c) as u128;
            let b = grid.slots@[k] as int;
            lemma_cell_key_range(c);
            lemma_cell_key_injective(grid.cells@[b], c);
            assert(grid.buckets@[b]@.contains(i as usize));
            assert(grid.buckets@[b]@.contains(j as usize));
            let pi = choose|pi: int| 0 <= pi < grid.buckets@[b]@.len() && grid.buckets@[b]@[pi] == i as usize;
            let pj = choose|pj: int| 0 <= pj < grid.buckets@[b]@.len() && grid.buckets@[b]@[pj] == j as usize;
            if pj < pi {
                assert(grid.buckets@[b]@[pj] < grid.buckets@[b]@[pi]);
            }
            assert(noted(es, seen@, grid.buckets@[b]@[pi], grid.buckets@[b]@[pj]));
            let x = pair_key(p) as u128;
            assert(seen@.contains(x));
            let t = choose|t: int| 0 <= t < pairs@.len() && pair_key(pairs@[t]) == x;
            lemma_pair_key_injective(pairs@[t], p);
        }
        assert forall|p: (u64, u64)| pairs@.contains(p) implies is_candidate(es, p) by {
            let t = choose|t: int| 0 <= t < pairs@.len() && pairs@[t] == p;
        }
    }
    pairs
}

} // verus!
