//! Maximal same-colored regions of the codel grid, with the eight edge
//! representatives used to leave a block.

use vstd::prelude::*;
use crate::color::Color;
use crate::point::Point;
use crate::program::{CodelChooser, DirectionPointer};

verus! {

/// Index of a `(direction, chooser)` pair into the edge table, `0..8`.
pub open spec fn edge_index(dp: DirectionPointer, cc: CodelChooser) -> int {
    let base: int = match dp {
        DirectionPointer::Right => 0,
        DirectionPointer::Down => 1,
        DirectionPointer::Left => 2,
        DirectionPointer::Up => 3,
    };
    let off: int = match cc {
        CodelChooser::Left => 0,
        CodelChooser::Right => 1,
    };
    2 * base + off
}

/// The direction of edge-table slot `k`.
pub open spec fn direction_of_index(k: int) -> DirectionPointer {
    if k < 2 { DirectionPointer::Right }
    else if k < 4 { DirectionPointer::Down }
    else if k < 6 { DirectionPointer::Left }
    else { DirectionPointer::Up }
}

/// The chooser of edge-table slot `k`.
pub open spec fn chooser_of_index(k: int) -> CodelChooser {
    if k % 2 == 0 { CodelChooser::Left } else { CodelChooser::Right }
}

/// Whether `p` is strictly more extremal than `q` for the pair
/// `(dp, cc)`: further along `dp`, or equally far and better placed on the
/// perpendicular tie-break axis selected by `cc`.
pub open spec fn beats(dp: DirectionPointer, cc: CodelChooser, p: Point, q: Point) -> bool {
    match dp {
        DirectionPointer::Right =>
            p.1 > q.1 || (p.1 == q.1 && (match cc {
                CodelChooser::Left => p.0 < q.0,
                CodelChooser::Right => p.0 > q.0,
            })),
        DirectionPointer::Down =>
            p.0 > q.0 || (p.0 == q.0 && (match cc {
                CodelChooser::Left => p.1 > q.1,
                CodelChooser::Right => p.1 < q.1,
            })),
        DirectionPointer::Left =>
            p.1 < q.1 || (p.1 == q.1 && (match cc {
                CodelChooser::Left => p.0 > q.0,
                CodelChooser::Right => p.0 < q.0,
            })),
        DirectionPointer::Up =>
            p.0 < q.0 || (p.0 == q.0 && (match cc {
                CodelChooser::Left => p.1 < q.1,
                CodelChooser::Right => p.1 > q.1,
            })),
    }
}

/// For a fixed pair, `beats` is a strict total order on positions.
pub proof fn lemma_beats_strict_total_order(dp: DirectionPointer, cc: CodelChooser, p: Point, q: Point, s: Point)
    ensures
        p == q || beats(dp, cc, p, q) || beats(dp, cc, q, p),
        !(beats(dp, cc, p, q) && beats(dp, cc, q, p)),
        beats(dp, cc, p, q) && beats(dp, cc, q, s) ==> beats(dp, cc, p, s),
{
}

/// A maximal 4-connected region of equally colored codels.
///
/// `area` lists the member positions without repetition; `edges` holds, for
/// each of the eight `(direction, chooser)` pairs, the member through which
/// the block is left under that pair.
#[derive(Debug)]
pub struct ColorBlock {
    pub color: Color,
    pub area: Vec<Point>,
    pub edges: Vec<Point>,
}

impl ColorBlock {
    /// Structural invariant: eight edge entries, each a member that no
    /// other member beats for its pair, and an area without duplicates.
    pub open spec fn wf(self) -> bool {
        &&& self.edges@.len() == 8
        &&& self.area@.len() >= 1
        &&& forall|k: int| 0 <= k < 8 ==> self.area@.contains(#[trigger] self.edges@[k])
        &&& forall|k: int, i: int| #![trigger self.area@[i], self.edges@[k]] 0 <= k < 8 && 0 <= i < self.area@.len()
                ==> !beats(direction_of_index(k), chooser_of_index(k), self.area@[i], self.edges@[k])
        &&& forall|i: int, j: int| 0 <= i < j < self.area@.len() ==> self.area@[i] != self.area@[j]
    }

    /// A fresh block holding the single codel at `(row, col)`.
    pub fn new(color: Color, row: u32, col: u32) -> (cb: ColorBlock)
        ensures
            cb.wf(),
            cb.color == color,
            cb.area@ == seq![Point(row, col)],
    {
        let p = Point(row, col);
        let mut edges: Vec<Point> = Vec::new();
        let mut k: usize = 0;
        while k < 8
            invariant
                k <= 8,
                edges@.len() == k,
                forall|j: int| 0 <= j < k ==> edges@[j] == p,
            decreases 8 - k,
        {
            edges.push(p);
            k += 1;
        }
        let cb = ColorBlock { color, area: vec![p], edges };
        assert(cb.area@ == seq![p]);
        assert forall|j: int| 0 <= j < 8 implies cb.area@.contains(#[trigger] cb.edges@[j]) by {
            assert(cb.area@[0] == p);
        }
        cb
    }

    /// Add the codel at `(row, col)` to the block: record it as a member if
    /// it is new, and promote it to any edge slot it beats.
    #[verifier::loop_isolation(false)]
    pub fn add_codel(&mut self, row: u32, col: u32)
        requires
            old(self).wf(),
        ensures
            final(self).wf(),
            final(self).color == old(self).color,
            forall|q: Point| final(self).area@.contains(q)
                <==> (old(self).area@.contains(q) || q == (Point(row, col))),
    {
        let p = Point(row, col);
        let mut present = false;
        let mut i: usize = 0;
        while i < self.area.len()
            invariant
                i <= self.area@.len(),
                present <==> exists|j: int| 0 <= j < i && self.area@[j] == p,
                *self == *old(self),
            decreases self.area@.len() - i,
        {
            if self.area[i] == p {
                present = true;
            }
            i += 1;
        }
        assert(present <==> self.area@.contains(p));
        if !present {
            self.area.push(p);
        }
        let ghost area_snap = self.area@;
        assert(forall|q: Point| area_snap.contains(q)
            <==> (old(self).area@.contains(q) || q == p)) by {
            if !present {
                assert forall|q: Point| area_snap.contains(q)
                    implies (old(self).area@.contains(q) || q == p) by {
                    let j = choose|j: int| 0 <= j < area_snap.len() && area_snap[j] == q;
                    if j < old(self).area@.len() {
                        assert(old(self).area@[j] == q);
                    }
                }
                assert forall|q: Point| old(self).area@.contains(q) || q == p
                    implies area_snap.contains(q) by {
                    if old(self).area@.contains(q) {
                        let j = choose|j: int| 0 <= j < old(self).area@.len() && old(self).area@[j] == q;
                        assert(area_snap[j] == q);
                    } else {
                        assert(area_snap[area_snap.len() - 1] == p);
                    }
                }
            }
        }
        assert forall|i2: int, j2: int| 0 <= i2 < j2 < area_snap.len()
            implies area_snap[i2] != area_snap[j2] by {
            if !present && j2 == area_snap.len() - 1 {
                assert(old(self).area@.contains(old(self).area@[i2]));
            }
        }
        assert forall|j: int| 0 <= j < 8 implies area_snap.contains(#[trigger] self.edges@[j]) by {
            assert(old(self).area@.contains(old(self).edges@[j]));
        }
        let mut k: usize = 0;
        while k < 8
            invariant
                k <= 8,
                self.color == old(self).color,
                self.area@ == area_snap,
                self.edges@.len() == 8,
                area_snap.contains(p),
                forall|q: Point| area_snap.contains(q)
                    <==> (old(self).area@.contains(q) || q == p),
                forall|i2: int, j2: int| 0 <= i2 < j2 < area_snap.len()
                    ==> area_snap[i2] != area_snap[j2],
                forall|j: int| 0 <= j < 8 ==> area_snap.contains(#[trigger] self.edges@[j]),
                forall|j: int| k <= j < 8 ==> self.edges@[j] == old(self).edges@[j],
                forall|j: int, i2: int| #![trigger area_snap[i2], self.edges@[j]] 0 <= j < k && 0 <= i2 < area_snap.len()
                    ==> !beats(direction_of_index(j), chooser_of_index(j), area_snap[i2], self.edges@[j]),
            decreases 8 - k,
        {
            let dp = direction_of_index_x(k);
            let cc = chooser_of_index_x(k);
            let e = self.edges[k];
            let ghost old_e = e;
            if beats_x(dp, cc, p, e) {
                self.edges.set(k, p);
            }
            proof {
                let kk = k as int;
                let d = direction_of_index(kk);
                let ch = chooser_of_index(kk);
                assert forall|i2: int| 0 <= i2 < area_snap.len()
                    implies !beats(d, ch, area_snap[i2], self.edges@[kk]) by {
                    let m = area_snap[i2];
                    assert(area_snap.contains(m));
                    if old(self).area@.contains(m) {
                        let j0 = choose|j0: int|
                            0 <= j0 < old(self).area@.len() && old(self).area@[j0] == m;
                        assert(!beats(
                            direction_of_index(kk),
                            chooser_of_index(kk),
                            old(self).area@[j0],
                            old(self).edges@[kk],
                        ));
                        assert(!beats(d, ch, m, old_e));
                    }
                    if beats(d, ch, p, old_e) {
                        assert(self.edges@[kk] == p);
                        if m == p {
                            lemma_beats_strict_total_order(d, ch, p, p, p);
                        } else {
                            assert(old(self).area@.contains(m));
                            lemma_beats_strict_total_order(d, ch, m, p, old_e);
                        }
                    } else {
                        assert(self.edges@[kk] == old_e);
                        if m == p {
                            assert(!beats(d, ch, m, old_e));
                        }
                    }
                }
            }
            k += 1;
        }
    }

    /// The shared color of the block's codels.
    pub fn color(&self) -> (c: Color)
        ensures
            c == self.color,
    {
        self.color
    }

    /// How many codels the block holds.
    pub fn num_codels(&self) -> (n: usize)
        ensures
            n == self.area@.len(),
    {
        self.area.len()
    }

    /// The member through which the block is left under `(dp, cc)`: no
    /// other member beats it for that pair.
    pub fn edge(&self, dp: DirectionPointer, cc: CodelChooser) -> (e: Point)
        requires
            self.wf(),
        ensures
            e == self.edges@[edge_index(dp, cc)],
            self.area@.contains(e),
            forall|i: int| 0 <= i < self.area@.len() ==> !beats(dp, cc, #[trigger] self.area@[i], e),
    {
        let k = edge_index_x(dp, cc);
        proof {
            assert(direction_of_index(k as int) == dp);
            assert(chooser_of_index(k as int) == cc);
        }
        self.edges[k]
    }
}

/// The edge representative is the unique unbeaten member: any member that
/// no other member beats for `(dp, cc)` is the edge itself.
pub proof fn lemma_edge_representative_unique(
    cb: ColorBlock,
    dp: DirectionPointer,
    cc: CodelChooser,
    m: Point,
)
    requires
        cb.wf(),
        cb.area@.contains(m),
        forall|i: int| 0 <= i < cb.area@.len() ==> !beats(dp, cc, #[trigger] cb.area@[i], m),
    ensures
        m == cb.edges@[edge_index(dp, cc)],
{
    let k = edge_index(dp, cc);
    let e = cb.edges@[k];
    assert(direction_of_index(k) == dp);
    assert(chooser_of_index(k) == cc);
    let i = choose|i: int| 0 <= i < cb.area@.len() && cb.area@[i] == m;
    assert(!beats(dp, cc, cb.area@[i], e));
    let j = choose|j: int| 0 <= j < cb.area@.len() && cb.area@[j] == e;
    assert(!beats(dp, cc, cb.area@[j], m));
    lemma_beats_strict_total_order(dp, cc, m, e, e);
}

/// A fresh vector holding the same positions.
pub fn copy_points(v: &Vec<Point>) -> (r: Vec<Point>)
    ensures
        r@ == v@,
{
    let mut out: Vec<Point> = Vec::new();
    let mut i: usize = 0;
    while i < v.len()
        invariant
            i <= v@.len(),
            out@ == v@.take(i as int),
        decreases v@.len() - i,
    {
        out.push(v[i]);
        proof {
            assert(out@ =~= v@.take(i + 1));
        }
        i += 1;
    }
    proof {
        assert(v@.take(v@.len() as int) =~= v@);
    }
    out
}

/// Membership in one more taken element: the prefix grows by exactly the
/// next position.
pub proof fn lemma_take_one_more(s: Seq<Point>, j: int)
    requires
        0 <= j < s.len(),
    ensures
        forall|q: Point| s.take(j + 1).contains(q) <==> (s.take(j).contains(q) || q == s[j]),
{
    let s1 = s.take(j + 1);
    let s0 = s.take(j);
    assert(s1 =~= s0.push(s[j]));
    assert forall|q: Point| s1.contains(q) implies (s0.contains(q) || q == s[j]) by {
        let i = choose|i: int| 0 <= i < s1.len() && #[trigger] s1[i] == q;
        if i < j {
            assert(s0[i] == q);
        }
    }
    assert forall|q: Point| s0.contains(q) || q == s[j] implies s1.contains(q) by {
        if s0.contains(q) {
            let i = choose|i: int| 0 <= i < s0.len() && #[trigger] s0[i] == q;
            assert(s1[i] == q);
        } else {
            assert(s1[j] == q);
        }
    }
}

/// Exec counterpart of `edge_index`.
pub fn edge_index_x(dp: DirectionPointer, cc: CodelChooser) -> (k: usize)
    ensures
        k as int == edge_index(dp, cc),
        k < 8,
{
    let base: usize = match dp {
        DirectionPointer::Right => 0,
        DirectionPointer::Down => 1,
        DirectionPointer::Left => 2,
        DirectionPointer::Up => 3,
    };
    let off: usize = match cc {
        CodelChooser::Left => 0,
        CodelChooser::Right => 1,
    };
    2 * base + off
}

/// Exec counterpart of `direction_of_index`.
fn direction_of_index_x(k: usize) -> (dp: DirectionPointer)
    requires
        k < 8,
    ensures
        dp == direction_of_index(k as int),
{
    if k < 2 { DirectionPointer::Right }
    else if k < 4 { DirectionPointer::Down }
    else if k < 6 { DirectionPointer::Left }
    else { DirectionPointer::Up }
}

/// Exec counterpart of `chooser_of_index`.
fn chooser_of_index_x(k: usize) -> (cc: CodelChooser)
    requires
        k < 8,
    ensures
        cc == chooser_of_index(k as int),
{
    if k % 2 == 0 { CodelChooser::Left } else { CodelChooser::Right }
}

/// Exec counterpart of `beats`.
pub fn beats_x(dp: DirectionPointer, cc: CodelChooser, p: Point, q: Point) -> (r: bool)
    ensures
        r == beats(dp, cc, p, q),
{
    match dp {
        DirectionPointer::Right =>
            p.1 > q.1 || (p.1 == q.1 && (match cc {
                CodelChooser::Left => p.0 < q.0,
                CodelChooser::Right => p.0 > q.0,
            })),
        DirectionPointer::Down =>
            p.0 > q.0 || (p.0 == q.0 && (match cc {
                CodelChooser::Left => p.1 > q.1,
                CodelChooser::Right => p.1 < q.1,
            })),
        DirectionPointer::Left =>
            p.1 < q.1 || (p.1 == q.1 && (match cc {
                CodelChooser::Left => p.0 > q.0,
                CodelChooser::Right => p.0 < q.0,
            })),
        DirectionPointer::Up =>
            p.0 < q.0 || (p.0 == q.0 && (match cc {
                CodelChooser::Left => p.1 < q.1,
                CodelChooser::Right => p.1 > q.1,
            })),
    }
}

} // verus!
