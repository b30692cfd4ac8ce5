//! The loaded Piet program: the codel grid and the index from positions to
//! color blocks.

use vstd::prelude::*;
use crate::color::{
    Color, Rgb8, color_index, color_index_x, color_of_index, color_of_index_x,
    lemma_color_index_round_trip, spec_classify, spec_rgb_of,
};
use crate::color_block::ColorBlock;
use crate::point::Point;

verus! {

/// The direction pointer: which face of the current block execution leaves
/// through.
#[derive(Debug, Copy, Clone, PartialEq, Eq, Structural, Hash)]
pub enum DirectionPointer {
    Right,
    Left,
    Down,
    Up,
}

/// One clockwise quarter turn.
pub open spec fn spec_rotate_clockwise(dp: DirectionPointer) -> DirectionPointer {
    match dp {
        DirectionPointer::Right => DirectionPointer::Down,
        DirectionPointer::Down => DirectionPointer::Left,
        DirectionPointer::Left => DirectionPointer::Up,
        DirectionPointer::Up => DirectionPointer::Right,
    }
}

/// `n` clockwise quarter turns.
pub open spec fn spec_rotate_clockwise_n(dp: DirectionPointer, n: nat) -> DirectionPointer
    decreases n,
{
    if n == 0 {
        dp
    } else {
        spec_rotate_clockwise_n(spec_rotate_clockwise(dp), (n - 1) as nat)
    }
}

/// Four quarter turns are the identity: only `n % 4` turns matter.
pub proof fn lemma_rotate_clockwise_period(dp: DirectionPointer, n: nat)
    ensures
        spec_rotate_clockwise_n(dp, n) == spec_rotate_clockwise_n(dp, n % 4),
    decreases n,
{
    if n >= 4 {
        assert(spec_rotate_clockwise_n(dp, 4) == dp) by {
            reveal_with_fuel(spec_rotate_clockwise_n, 5);
        }
        assert(spec_rotate_clockwise_n(dp, n)
            == spec_rotate_clockwise_n(spec_rotate_clockwise_n(dp, 4), (n - 4) as nat)) by {
            lemma_rotate_clockwise_n_add(dp, 4, (n - 4) as nat);
        }
        lemma_rotate_clockwise_period(dp, (n - 4) as nat);
        assert((n - 4) % 4 == n % 4) by {
            assert(n == (n - 4) + 4);
        }
    }
}

/// Turning `a + b` times is turning `a` times, then `b` times.
pub proof fn lemma_rotate_clockwise_n_add(dp: DirectionPointer, a: nat, b: nat)
    ensures
        spec_rotate_clockwise_n(dp, a + b)
            == spec_rotate_clockwise_n(spec_rotate_clockwise_n(dp, a), b),
    decreases a,
{
    if a > 0 {
        lemma_rotate_clockwise_n_add(spec_rotate_clockwise(dp), (a - 1) as nat, b);
    }
}

impl DirectionPointer {
    /// Rotate one quarter turn clockwise.
    pub fn rotate_clockwise(self) -> (r: DirectionPointer)
        ensures
            r == spec_rotate_clockwise(self),
    {
        match self {
            DirectionPointer::Right => DirectionPointer::Down,
            DirectionPointer::Down => DirectionPointer::Left,
            DirectionPointer::Left => DirectionPointer::Up,
            DirectionPointer::Up => DirectionPointer::Right,
        }
    }
}

impl Default for DirectionPointer {
    /// Execution starts moving right.
    fn default() -> (r: DirectionPointer)
        ensures
            r == DirectionPointer::Right,
    {
        DirectionPointer::Right
    }
}

/// The codel chooser: resolves ties along the face selected by the
/// direction pointer.
#[derive(Debug, Copy, Clone, PartialEq, Eq, Structural, Hash)]
pub enum CodelChooser {
    Left,
    Right,
}

/// The other chooser value.
pub open spec fn spec_toggle(cc: CodelChooser) -> CodelChooser {
    match cc {
        CodelChooser::Left => CodelChooser::Right,
        CodelChooser::Right => CodelChooser::Left,
    }
}

impl CodelChooser {
    /// Flip to the other chooser value.
    pub fn toggle(self) -> (r: CodelChooser)
        ensures
            r == spec_toggle(self),
    {
        match self {
            CodelChooser::Right => CodelChooser::Left,
            CodelChooser::Left => CodelChooser::Right,
        }
    }
}

impl Default for CodelChooser {
    /// Execution starts with the left chooser.
    fn default() -> (r: CodelChooser)
        ensures
            r == CodelChooser::Left,
    {
        CodelChooser::Left
    }
}

/// A loaded program: the codel colors in row-major order, and for every
/// position the id of the color block it belongs to. Blocks live in an
/// append-only table; merged-away entries simply stop being referenced.
#[derive(Debug)]
pub struct Program {
    pub codels: Vec<Color>,
    pub rows: u32,
    pub cols: u32,
    pub block_ids: Vec<usize>,
    pub blocks: Vec<ColorBlock>,
}

impl Program {
    /// Row-major index of a position.
    pub open spec fn idx(self, p: Point) -> int {
        p.0 * self.cols + p.1
    }

    /// Whether a position lies on the grid.
    pub open spec fn in_bounds(self, p: Point) -> bool {
        p.0 < self.rows && p.1 < self.cols
    }

    /// The block id recorded for a position.
    pub open spec fn block_id_of(self, p: Point) -> int {
        self.block_ids@[self.idx(p)] as int
    }

    /// The block a position belongs to.
    pub open spec fn spec_block_of(self, p: Point) -> ColorBlock {
        self.blocks@[self.block_id_of(p)]
    }

    /// The color of the codel at a position.
    pub open spec fn codel_at(self, p: Point) -> Color {
        self.codels@[self.idx(p)]
    }

    /// Everything the block index promises about one position `p`, given
    /// that only positions with row-major index below `n` have been indexed
    /// so far: `p`'s block is a well-formed block of `p`'s color that
    /// contains `p`, and every member of that block is an already indexed
    /// position of the same color pointing back at the same block.
    pub open spec fn pos_indexed(self, p: Point, n: int) -> bool {
        &&& 0 <= self.block_id_of(p) < self.blocks@.len()
        &&& self.spec_block_of(p).wf()
        &&& self.spec_block_of(p).color == self.codel_at(p)
        &&& self.spec_block_of(p).area@.contains(p)
        &&& forall|q: Point| #[trigger] self.spec_block_of(p).area@.contains(q) ==> {
                &&& self.in_bounds(q)
                &&& self.idx(q) < n
                &&& self.block_id_of(q) == self.block_id_of(p)
                &&& self.codel_at(q) == self.codel_at(p)
            }
    }

    /// The sizes are consistent and every position with row-major index
    /// below `n` is indexed.
    pub open spec fn wf_upto(self, n: int) -> bool {
        &&& self.codels@.len() == self.rows * self.cols
        &&& self.block_ids@.len() == self.rows * self.cols
        &&& n <= self.rows * self.cols
        &&& forall|p: Point| self.in_bounds(p) && self.idx(p) < n ==> #[trigger] self.pos_indexed(p, n)
    }

    /// The codels directly above and to the left of `p`, when they have
    /// `p`'s color, belong to `p`'s block. Over the whole grid this makes
    /// every block a maximal region: any two 4-adjacent equally colored
    /// codels share their block.
    pub open spec fn pos_joined(self, p: Point) -> bool {
        &&& (p.0 >= 1 && self.codel_at(Point((p.0 - 1) as u32, p.1)) == self.codel_at(p)
                ==> self.block_id_of(Point((p.0 - 1) as u32, p.1)) == self.block_id_of(p))
        &&& (p.1 >= 1 && self.codel_at(Point(p.0, (p.1 - 1) as u32)) == self.codel_at(p)
                ==> self.block_id_of(Point(p.0, (p.1 - 1) as u32)) == self.block_id_of(p))
    }

    /// Equally colored neighbors are joined among the first `n` positions.
    pub open spec fn neighbors_joined_upto(self, n: int) -> bool {
        forall|p: Point| self.in_bounds(p) && self.idx(p) < n ==> #[trigger] self.pos_joined(p)
    }

    /// A fully built program: every position is indexed and every pair of
    /// adjacent equally colored codels shares one block.
    pub open spec fn wf(self) -> bool {
        &&& self.wf_upto(self.rows * self.cols)
        &&& self.neighbors_joined_upto(self.rows * self.cols)
    }

    /// Row-major indexing is injective on the grid.
    pub proof fn lemma_idx_injective(self, p: Point, q: Point)
        requires
            self.in_bounds(p),
            self.in_bounds(q),
            self.idx(p) == self.idx(q),
        ensures
            p == q,
    {
        assert(p.0 == q.0 && p.1 == q.1) by (nonlinear_arith)
            requires
                p.1 < self.cols,
                q.1 < self.cols,
                p.0 * self.cols + p.1 == q.0 * self.cols + q.1;
    }

    /// The row-major index lies inside the codel array.
    pub proof fn lemma_idx_bounds(self, p: Point)
        requires
            self.in_bounds(p),
        ensures
            0 <= self.idx(p) < self.rows * self.cols,
    {
        assert(p.0 * self.cols + p.1 < self.rows * self.cols) by (nonlinear_arith)
            requires
                p.0 < self.rows,
                p.1 < self.cols;
    }

    /// The number of rows of the codel grid.
    pub fn rows(&self) -> (r: &u32)
        ensures
            *r == self.rows,
    {
        &self.rows
    }

    /// The number of columns of the codel grid.
    pub fn cols(&self) -> (r: &u32)
        ensures
            *r == self.cols,
    {
        &self.cols
    }

    /// The codel at `(row, col)`, or `None` outside the grid.
    pub fn get_codel(&self, row: u32, col: u32) -> (r: Option<&Color>)
        requires
            self.codels@.len() == self.rows * self.cols,
        ensures
            match r {
                Some(c) => self.in_bounds(Point(row, col)) && *c == self.codel_at(Point(row, col)),
                None => !self.in_bounds(Point(row, col)),
            },
    {
        if row < self.rows && col < self.cols {
            let n = self.codels.len();
            proof {
                self.lemma_idx_bounds(Point(row, col));
                assert(row * self.cols + col < n);
            }
            let i = (row as usize) * (self.cols as usize) + (col as usize);
            Some(&self.codels[i])
        } else {
            None
        }
    }

    /// One pixel per codel, each rendered in its codel's canonical RGB
    /// value, row-major.
    pub fn codels_to_pixels(&self) -> (r: Vec<Rgb8>)
        ensures
            r@.len() == self.codels@.len(),
            forall|i: int| 0 <= i < r@.len() ==> r@[i] == spec_rgb_of(#[trigger] self.codels@[i]),
    {
        let mut out: Vec<Rgb8> = Vec::new();
        let mut i: usize = 0;
        while i < self.codels.len()
            invariant
                i <= self.codels@.len(),
                out@.len() == i,
                forall|j: int| 0 <= j < i ==> out@[j] == spec_rgb_of(#[trigger] self.codels@[j]),
            decreases self.codels@.len() - i,
        {
            out.push(self.codels[i].to_rgb8());
            i += 1;
        }
        out
    }

    /// The color block containing `point`, or `None` outside the grid.
    pub fn get_color_block(&self, point: &Point) -> (r: Option<&ColorBlock>)
        requires
            self.wf(),
        ensures
            match r {
                Some(cb) => {
                    &&& self.in_bounds(*point)
                    &&& *cb == self.spec_block_of(*point)
                    &&& cb.wf()
                    &&& cb.color == self.codel_at(*point)
                    &&& cb.area@.contains(*point)
                },
                None => !self.in_bounds(*point),
            },
    {
        if point.0 < self.rows && point.1 < self.cols {
            let n = self.block_ids.len();
            proof {
                self.lemma_idx_bounds(*point);
                assert(point.0 * self.cols + point.1 < n);
                assert(self.pos_indexed(*point, (self.rows * self.cols) as int));
            }
            let i = (point.0 as usize) * (self.cols as usize) + (point.1 as usize);
            let id = self.block_ids[i];
            Some(&self.blocks[id])
        } else {
            None
        }
    }
}

/// The color the pixel at `(r, c)` classifies to.
pub open spec fn classify_at(pixels: Seq<Rgb8>, width: int, mb: bool, r: int, c: int) -> Color {
    spec_classify(pixels[r * width + c], mb)
}

/// How many of the `w` pixels of row `r` starting at column `c0` classify
/// to `col`.
pub open spec fn count_in_row(
    pixels: Seq<Rgb8>,
    width: int,
    mb: bool,
    r: int,
    c0: int,
    w: int,
    col: Color,
) -> nat
    decreases w,
{
    if w <= 0 {
        0
    } else {
        count_in_row(pixels, width, mb, r, c0, w - 1, col) + (
        if classify_at(pixels, width, mb, r, c0 + w - 1) == col {
            1nat
        } else {
            0nat
        })
    }
}

/// How many pixels of the `h` by `w` rectangle with top-left corner
/// `(r0, c0)` classify to `col`.
pub open spec fn count_in_rect(
    pixels: Seq<Rgb8>,
    width: int,
    mb: bool,
    r0: int,
    c0: int,
    h: int,
    w: int,
    col: Color,
) -> nat
    decreases h,
{
    if h <= 0 {
        0
    } else {
        count_in_rect(pixels, width, mb, r0, c0, h - 1, w, col) + count_in_row(
            pixels,
            width,
            mb,
            r0 + h - 1,
            c0,
            w,
            col,
        )
    }
}

/// The majority vote over one codel square: no color appears on more
/// pixels of the square than the returned one.
#[verifier::loop_isolation(false)]
#[verifier::rlimit(60)]
pub fn majority_color_in_square(
    pixels: &Vec<Rgb8>,
    width: u32,
    height: u32,
    missing_black: bool,
    row: u32,
    col: u32,
    cs: u32,
) -> (chosen: Color)
    requires
        pixels@.len() == width * height,
        cs >= 1,
        (row + 1) * cs <= height,
        (col + 1) * cs <= width,
    ensures
        forall|other: Color|
            #[trigger] count_in_rect(pixels@, width as int, missing_black, row * cs, col * cs, cs as int, cs as int, other)
                <= count_in_rect(pixels@, width as int, missing_black, row * cs, col * cs, cs as int, cs as int, chosen),
{
    let ghost wd = width as int;
    let ghost r0 = row as int * cs as int;
    let ghost c0 = col as int * cs as int;
    proof {
        assert(row * cs + cs == (row + 1) * cs) by (nonlinear_arith);
        assert(col * cs + cs == (col + 1) * cs) by (nonlinear_arith);
    }
    let top = row * cs;
    let left = col * cs;
    let mut counts: Vec<u64> = vec![0u64; 20];
    let mut dy: u32 = 0;
    while dy < cs
        invariant
            dy <= cs,
            counts@.len() == 20,
            forall|k: int| 0 <= k < 20 ==> counts@[k] == count_in_rect(
                pixels@, wd, missing_black, r0, c0, dy as int, cs as int, color_of_index(k),
            ),
            forall|k: int| 0 <= k < 20 ==> counts@[k] <= dy * cs,
        decreases cs - dy,
    {
        let mut dx: u32 = 0;
        while dx < cs
            invariant
                dx <= cs,
                dy < cs,
                counts@.len() == 20,
                forall|k: int| 0 <= k < 20 ==> counts@[k] == count_in_rect(
                    pixels@, wd, missing_black, r0, c0, dy as int, cs as int, color_of_index(k),
                ) + count_in_row(
                    pixels@, wd, missing_black, r0 + dy, c0, dx as int, color_of_index(k),
                ),
                forall|k: int| 0 <= k < 20 ==> counts@[k] <= dy * cs + dx,
            decreases cs - dx,
        {
            let py = top + dy;
            let px = left + dx;
            let n = pixels.len();
            proof {
                assert(py * width + px < width * height) by (nonlinear_arith)
                    requires
                        py < height,
                        px < width;
                assert(py * width + px < n);
                assert(dy * cs + dx + 1 <= cs * cs) by (nonlinear_arith)
                    requires
                        dy < cs,
                        dx < cs;
                assert(cs * cs < 0xFFFF_FFFF_FFFF_FFFF) by (nonlinear_arith)
                    requires
                        cs <= 0xFFFF_FFFFu32;
            }
            let pi = (py as usize) * (width as usize) + (px as usize);
            let pcolor = Color::from_rgb8(pixels[pi], missing_black);
            let k = color_index_x(pcolor);
            let cur = counts[k];
            counts.set(k, cur + 1);
            proof {
                lemma_color_index_round_trip(pcolor);
                assert(classify_at(pixels@, wd, missing_black, r0 + dy, c0 + dx) == pcolor);
                assert forall|k2: int| 0 <= k2 < 20 implies counts@[k2] == count_in_rect(
                    pixels@, wd, missing_black, r0, c0, dy as int, cs as int, color_of_index(k2),
                ) + count_in_row(
                    pixels@, wd, missing_black, r0 + dy, c0, dx as int + 1, color_of_index(k2),
                ) by {
                    assert(count_in_row(
                        pixels@, wd, missing_black, r0 + dy, c0, dx as int + 1, color_of_index(k2),
                    ) == count_in_row(
                        pixels@, wd, missing_black, r0 + dy, c0, dx as int, color_of_index(k2),
                    ) + (
                    if classify_at(pixels@, wd, missing_black, r0 + dy, c0 + dx) == color_of_index(k2) {
                        1nat
                    } else {
                        0nat
                    }));
                    if k2 != k as int {
                        assert(color_index(color_of_index(k2)) == k2);
                    }
                }
            }
            dx += 1;
        }
        proof {
            assert forall|k: int| 0 <= k < 20 implies counts@[k] == count_in_rect(
                pixels@, wd, missing_black, r0, c0, dy as int + 1, cs as int, color_of_index(k),
            ) by {
                assert(count_in_rect(
                    pixels@, wd, missing_black, r0, c0, dy as int + 1, cs as int, color_of_index(k),
                ) == count_in_rect(
                    pixels@, wd, missing_black, r0, c0, dy as int, cs as int, color_of_index(k),
                ) + count_in_row(
                    pixels@, wd, missing_black, r0 + dy, c0, cs as int, color_of_index(k),
                ));
            }
            assert(dy * cs + cs == (dy + 1) * cs) by (nonlinear_arith);
        }
        dy += 1;
    }
    let mut best: usize = 0;
    let mut k: usize = 1;
    while k < 20
        invariant
            best < 20,
            1 <= k <= 20,
            forall|j: int| 0 <= j < k ==> counts@[j] <= counts@[best as int],
        decreases 20 - k,
    {
        if counts[k] > counts[best] {
            best = k;
        }
        k += 1;
    }
    let chosen = color_of_index_x(best);
    proof {
        assert forall|other: Color| count_in_rect(
            pixels@, wd, missing_black, r0, c0, cs as int, cs as int, other,
        ) <= count_in_rect(
            pixels@, wd, missing_black, r0, c0, cs as int, cs as int, chosen,
        ) by {
            lemma_color_index_round_trip(other);
            assert(counts@[color_index(other)] <= counts@[best as int]);
        }
    }
    chosen
}

impl Program {
    /// Exec counterpart of `idx`, bounded by the index table.
    pub(crate) fn pos_index_x(&self, p: Point) -> (i: usize)
        requires
            self.block_ids@.len() == self.rows * self.cols,
            self.in_bounds(p),
        ensures
            i as int == self.idx(p),
            i < self.block_ids@.len(),
    {
        let n = self.block_ids.len();
        proof {
            self.lemma_idx_bounds(p);
        }
        (p.0 as usize) * (self.cols as usize) + (p.1 as usize)
    }

    /// Join the blocks of two equally colored indexed positions into one:
    /// a fresh block takes over the members and edge candidates of both,
    /// and every member is repointed at it.
    #[verifier::loop_isolation(false)]
    #[verifier::rlimit(60)]
    fn merge_color_blocks(&mut self, p1: Point, p2: Point, Ghost(n): Ghost<int>)
        requires
            old(self).wf_upto(n),
            old(self).in_bounds(p1),
            old(self).idx(p1) < n,
            old(self).in_bounds(p2),
            old(self).idx(p2) < n,
            old(self).codel_at(p1) == old(self).codel_at(p2),
        ensures
            final(self).wf_upto(n),
            final(self).codels == old(self).codels,
            final(self).rows == old(self).rows,
            final(self).cols == old(self).cols,
            final(self).block_id_of(p1) == final(self).block_id_of(p2),
            final(self).spec_block_of(p1).color == old(self).codel_at(p1),
            forall|q: Point| #![trigger old(self).block_id_of(q)]
                old(self).in_bounds(q) && old(self).idx(q) < n ==> {
                    &&& ((old(self).block_id_of(q) == old(self).block_id_of(p1)
                            || old(self).block_id_of(q) == old(self).block_id_of(p2))
                        ==> final(self).block_id_of(q) == final(self).block_id_of(p1))
                    &&& (old(self).block_id_of(q) != old(self).block_id_of(p1)
                            && old(self).block_id_of(q) != old(self).block_id_of(p2)
                        ==> final(self).block_id_of(q) == old(self).block_id_of(q)
                            && final(self).spec_block_of(q) == old(self).spec_block_of(q))
                },
            forall|q: Point|
                #![trigger final(self).spec_block_of(p1).area@.contains(q)]
                #![trigger old(self).spec_block_of(p1).area@.contains(q)]
                #![trigger old(self).spec_block_of(p2).area@.contains(q)]
                final(self).spec_block_of(p1).area@.contains(q)
                    <==> (old(self).spec_block_of(p1).area@.contains(q)
                        || old(self).spec_block_of(p2).area@.contains(q)),
    {
        proof {
            assert(old(self).pos_indexed(p1, n));
            assert(old(self).pos_indexed(p2, n));
        }
        let i1 = self.pos_index_x(p1);
        let i2 = self.pos_index_x(p2);
        let id1 = self.block_ids[i1];
        let id2 = self.block_ids[i2];
        if id1 == id2 {
            return;
        }
        let ghost b1 = old(self).spec_block_of(p1);
        let ghost b2 = old(self).spec_block_of(p2);
        let color = self.blocks[id1].color;
        let area1 = crate::color_block::copy_points(&self.blocks[id1].area);
        let edges1 = crate::color_block::copy_points(&self.blocks[id1].edges);
        let mut merged = ColorBlock { color, area: area1, edges: edges1 };
        proof {
            assert(merged.area@ == b1.area@);
            assert(merged.edges@ == b1.edges@);
            assert(merged.wf());
        }
        let other = crate::color_block::copy_points(&self.blocks[id2].area);
        let mut j: usize = 0;
        while j < other.len()
            invariant
                j <= other@.len(),
                merged.wf(),
                merged.color == b1.color,
                forall|q: Point| merged.area@.contains(q)
                    <==> (b1.area@.contains(q) || other@.take(j as int).contains(q)),
                *self == *old(self),
            decreases other@.len() - j,
        {
            let q = other[j];
            merged.add_codel(q.0, q.1);
            proof {
                crate::color_block::lemma_take_one_more(other@, j as int);
            }
            j += 1;
        }
        proof {
            assert(other@.take(other@.len() as int) =~= other@);
        }
        let ghost mblock = merged;
        let ghost mem = merged.area@;
        proof {
            assert forall|q: Point| mem.contains(q) implies old(self).in_bounds(q)
                && old(self).idx(q) < n
                && (old(self).block_id_of(q) == id1 || old(self).block_id_of(q) == id2)
                && old(self).codel_at(q) == b1.color by {
                if b1.area@.contains(q) {
                    assert(old(self).codel_at(q) == old(self).codel_at(p1));
                    assert(old(self).codel_at(p1) == b1.color);
                } else {
                    assert(b2.area@.contains(q));
                    assert(old(self).codel_at(q) == old(self).codel_at(p2));
                }
            }
            assert(mem.contains(p1));
            assert(mem.contains(p2));
        }
        let members = crate::color_block::copy_points(&merged.area);
        let new_id = self.blocks.len();
        self.blocks.push(merged);
        let ghost old_ids = old(self).block_ids@;
        let mut j2: usize = 0;
        while j2 < members.len()
            invariant
                j2 <= members@.len(),
                members@ == mem,
                self.codels == old(self).codels,
                self.rows == old(self).rows,
                self.cols == old(self).cols,
                self.blocks@ == old(self).blocks@.push(mblock),
                self.block_ids@.len() == old_ids.len(),
                forall|q: Point| #![trigger self.block_id_of(q)] old(self).in_bounds(q) ==> {
                    &&& (mem.take(j2 as int).contains(q) ==> self.block_id_of(q) == new_id)
                    &&& (!mem.take(j2 as int).contains(q)
                        ==> self.block_id_of(q) == old(self).block_id_of(q))
                },
            decreases members@.len() - j2,
        {
            let q = members[j2];
            proof {
                assert(mem.contains(q));
            }
            let ghost pre_self = *self;
            let qi = self.pos_index_x(q);
            self.block_ids.set(qi, new_id);
            proof {
                crate::color_block::lemma_take_one_more(mem, j2 as int);
                assert forall|q2: Point| old(self).in_bounds(q2) implies {
                    &&& (mem.take(j2 as int + 1).contains(q2) ==> self.block_id_of(q2) == new_id)
                    &&& (!mem.take(j2 as int + 1).contains(q2)
                        ==> self.block_id_of(q2) == old(self).block_id_of(q2))
                } by {
                    assert(mem.take(j2 as int).contains(q2)
                        ==> pre_self.block_id_of(q2) == new_id);
                    assert(!mem.take(j2 as int).contains(q2)
                        ==> pre_self.block_id_of(q2) == old(self).block_id_of(q2));
                    pre_self.lemma_idx_bounds(q2);
                    if self.idx(q2) == self.idx(q) {
                        self.lemma_idx_injective(q2, q);
                        assert(q2 == q);
                    } else {
                        assert(self.block_id_of(q2) == pre_self.block_id_of(q2));
                    }
                }
            }
            j2 += 1;
        }
        proof {
            assert(mem.take(mem.len() as int) =~= mem);
            assert(self.block_id_of(p1) == new_id);
            assert(self.spec_block_of(p1) == mblock);
            assert forall|q: Point| old(self).in_bounds(q) && old(self).idx(q) < n implies {
                &&& ((old(self).block_id_of(q) == id1 || old(self).block_id_of(q) == id2)
                    ==> self.block_id_of(q) == new_id)
                &&& (old(self).block_id_of(q) != id1 && old(self).block_id_of(q) != id2
                    ==> self.block_id_of(q) == old(self).block_id_of(q)
                        && self.spec_block_of(q) == old(self).spec_block_of(q))
            } by {
                assert(old(self).pos_indexed(q, n));
                let ob = old(self).block_id_of(q);
                if ob == id1 || ob == id2 {
                    assert(old(self).spec_block_of(q).area@.contains(q));
                    assert(mem.contains(q));
                } else {
                    assert(!mem.contains(q));
                    assert(self.block_id_of(q) == ob);
                }
            }
            assert forall|p: Point| self.in_bounds(p) && self.idx(p) < n
                implies #[trigger] self.pos_indexed(p, n) by {
                assert(old(self).pos_indexed(p, n));
                let ob = old(self).block_id_of(p);
                if ob == id1 || ob == id2 {
                    assert(old(self).spec_block_of(p).area@.contains(p));
                    assert(mem.contains(p));
                    assert(self.block_id_of(p) == new_id);
                    assert(self.spec_block_of(p) == mblock);
                    assert(mblock.area@.contains(p));
                    assert(self.codel_at(p) == b1.color);
                    assert forall|q: Point| #[trigger] mblock.area@.contains(q) implies {
                        &&& self.in_bounds(q)
                        &&& self.idx(q) < n
                        &&& self.block_id_of(q) == new_id
                        &&& self.codel_at(q) == self.codel_at(p)
                    } by {
                        assert(mem.contains(q));
                    }
                } else {
                    assert(!mem.contains(p));
                    assert(self.block_id_of(p) == ob);
                    assert(self.spec_block_of(p) == old(self).spec_block_of(p));
                    assert forall|q: Point| #[trigger] self.spec_block_of(p).area@.contains(q) implies {
                        &&& self.in_bounds(q)
                        &&& self.idx(q) < n
                        &&& self.block_id_of(q) == self.block_id_of(p)
                        &&& self.codel_at(q) == self.codel_at(p)
                    } by {
                        assert(old(self).spec_block_of(p).area@.contains(q));
                        assert(old(self).block_id_of(q) == ob);
                        assert(!mem.contains(q));
                    }
                }
            }
        }
    }
}

/// When a state change only remaps block ids as a function of the old id
/// (the two merged ids to one fresh id, every other id kept), joined
/// neighbors stay joined.
proof fn lemma_joined_transport(
    pre: Program,
    post: Program,
    a1: int,
    a2: int,
    nid: int,
    n: int,
    t: int,
)
    requires
        post.rows == pre.rows,
        post.cols == pre.cols,
        post.codels == pre.codels,
        pre.neighbors_joined_upto(t),
        t <= n,
        forall|q: Point| #![trigger pre.block_id_of(q)]
            pre.in_bounds(q) && pre.idx(q) < n ==> {
                &&& ((pre.block_id_of(q) == a1 || pre.block_id_of(q) == a2)
                    ==> post.block_id_of(q) == nid)
                &&& (pre.block_id_of(q) != a1 && pre.block_id_of(q) != a2
                    ==> post.block_id_of(q) == pre.block_id_of(q))
            },
    ensures
        post.neighbors_joined_upto(t),
{
    assert forall|p: Point| post.in_bounds(p) && post.idx(p) < t
        implies #[trigger] post.pos_joined(p) by {
        assert(pre.pos_joined(p));
        assert(pre.block_id_of(p) == pre.block_id_of(p));
        if p.0 >= 1 && post.codel_at(Point((p.0 - 1) as u32, p.1)) == post.codel_at(p) {
            let u = Point((p.0 - 1) as u32, p.1);
            assert(pre.idx(u) < pre.idx(p)) by (nonlinear_arith)
                requires
                    pre.idx(u) == ((p.0 - 1) as int) * (pre.cols as int) + p.1,
                    pre.idx(p) == (p.0 as int) * (pre.cols as int) + p.1,
                    p.0 >= 1,
                    pre.cols >= 1;
            assert(pre.block_id_of(u) == pre.block_id_of(p));
        }
        if p.1 >= 1 && post.codel_at(Point(p.0, (p.1 - 1) as u32)) == post.codel_at(p) {
            let l = Point(p.0, (p.1 - 1) as u32);
            assert(pre.block_id_of(l) == pre.block_id_of(p));
        }
    }
}

impl Program {
    /// Discover the color blocks: walk the grid in row-major order, give
    /// each position a fresh singleton block, and join it with the already
    /// indexed neighbors of its color.
    #[verifier::loop_isolation(false)]
    #[verifier::rlimit(100)]
    fn index_blocks(&mut self)
        requires
            old(self).wf_upto(0),
        ensures
            final(self).wf(),
            final(self).codels == old(self).codels,
            final(self).rows == old(self).rows,
            final(self).cols == old(self).cols,
    {
        let rows = self.rows;
        let cols = self.cols;
        let mut r: u32 = 0;
        while r < rows
            invariant
                r <= rows,
                self.codels == old(self).codels,
                self.rows == rows,
                self.cols == cols,
                self.wf_upto(r as int * cols as int),
                self.neighbors_joined_upto(r as int * cols as int),
            decreases rows - r,
        {
            let mut c: u32 = 0;
            while c < cols
                invariant
                    c <= cols,
                    r < rows,
                    self.codels == old(self).codels,
                    self.rows == rows,
                    self.cols == cols,
                    self.wf_upto(r as int * cols as int + c as int),
                    self.neighbors_joined_upto(r as int * cols as int + c as int),
                decreases cols - c,
            {
                let ghost n0 = r as int * cols as int + c as int;
                proof {
                    assert(r as int * cols as int + c as int + 1 <= rows as int * cols as int)
                        by (nonlinear_arith)
                        requires
                            r < rows,
                            c < cols;
                }
                let p = Point(r, c);
                let color = *self.get_codel(r, c).unwrap();
                let nb = ColorBlock::new(color, r, c);
                let ghost nbg = nb;
                let new_id = self.blocks.len();
                let ghost pre_self = *self;
                self.blocks.push(nb);
                let i = self.pos_index_x(p);
                self.block_ids.set(i, new_id);
                proof {
                    assert(self.idx(p) == n0);
                    assert forall|p2: Point| self.in_bounds(p2) && self.idx(p2) < n0 + 1
                        implies #[trigger] self.pos_indexed(p2, n0 + 1) by {
                        pre_self.lemma_idx_bounds(p2);
                        if self.idx(p2) == n0 {
                            self.lemma_idx_injective(p2, p);
                            assert(p2 == p);
                            assert(self.block_id_of(p) == new_id);
                            assert(self.spec_block_of(p) == nbg);
                            assert(nbg.area@ == seq![p]);
                            assert(nbg.area@.contains(p)) by {
                                assert(nbg.area@[0] == p);
                            }
                            assert forall|q: Point| #[trigger] nbg.area@.contains(q)
                                implies q == p by {
                                let i0 = choose|i0: int|
                                    0 <= i0 < nbg.area@.len() && nbg.area@[i0] == q;
                                assert(i0 == 0);
                            }
                        } else {
                            assert(pre_self.pos_indexed(p2, n0));
                            assert(self.block_id_of(p2) == pre_self.block_id_of(p2));
                            assert(self.spec_block_of(p2) == pre_self.spec_block_of(p2));
                            assert forall|q: Point| #[trigger] self.spec_block_of(p2).area@.contains(q)
                                implies {
                                &&& self.in_bounds(q)
                                &&& self.idx(q) < n0 + 1
                                &&& self.block_id_of(q) == self.block_id_of(p2)
                                &&& self.codel_at(q) == self.codel_at(p2)
                            } by {
                                assert(pre_self.spec_block_of(p2).area@.contains(q));
                                pre_self.lemma_idx_bounds(q);
                                assert(self.block_id_of(q) == pre_self.block_id_of(q));
                            }
                        }
                    }
                    assert(self.wf_upto(n0 + 1));
                    assert forall|p2: Point| self.in_bounds(p2) && self.idx(p2) < n0
                        implies #[trigger] self.pos_joined(p2) by {
                        assert(pre_self.pos_joined(p2));
                        pre_self.lemma_idx_bounds(p2);
                        if p2.0 >= 1 {
                            let u = Point((p2.0 - 1) as u32, p2.1);
                            pre_self.lemma_idx_bounds(u);
                            assert(pre_self.idx(u) < pre_self.idx(p2)) by (nonlinear_arith)
                                requires
                                    pre_self.idx(u) == ((p2.0 - 1) as int) * (pre_self.cols as int)
                                        + p2.1,
                                    pre_self.idx(p2) == (p2.0 as int) * (pre_self.cols as int)
                                        + p2.1,
                                    p2.0 >= 1,
                                    pre_self.cols >= 1;
                            assert(self.block_id_of(u) == pre_self.block_id_of(u));
                        }
                        if p2.1 >= 1 {
                            let l = Point(p2.0, (p2.1 - 1) as u32);
                            pre_self.lemma_idx_bounds(l);
                            assert(self.block_id_of(l) == pre_self.block_id_of(l));
                        }
                        assert(self.block_id_of(p2) == pre_self.block_id_of(p2));
                    }
                    assert(self.neighbors_joined_upto(n0));
                }
                let ghost up = Point(#[verifier::truncate] ((r - 1) as u32), c);
                let ghost left = Point(r, #[verifier::truncate] ((c - 1) as u32));
                let ghost st_a = *self;
                let merge_up = if r > 0 {
                    *self.get_codel(r - 1, c).unwrap() == color
                } else {
                    false
                };
                if merge_up {
                    proof {
                        assert(((r - 1) as int) * (cols as int) + c < n0)
                            by (nonlinear_arith)
                            requires
                                r >= 1,
                                cols >= 1,
                                n0 == r as int * cols as int + c as int;
                    }
                    self.merge_color_blocks(p, Point(r - 1, c), Ghost(n0 + 1));
                }
                let ghost st_b = *self;
                let merge_left = if c > 0 {
                    *self.get_codel(r, c - 1).unwrap() == color
                } else {
                    false
                };
                if merge_left {
                    self.merge_color_blocks(p, Point(r, c - 1), Ghost(n0 + 1));
                }
                proof {
                    if merge_up {
                        lemma_joined_transport(
                            st_a, st_b,
                            st_a.block_id_of(p), st_a.block_id_of(up),
                            st_b.block_id_of(p), n0 + 1, n0,
                        );
                    } else {
                        assert(st_b == st_a);
                    }
                    assert(st_b.neighbors_joined_upto(n0));
                    if merge_left {
                        lemma_joined_transport(
                            st_b, *self,
                            st_b.block_id_of(p), st_b.block_id_of(left),
                            self.block_id_of(p), n0 + 1, n0,
                        );
                    } else {
                        assert(*self == st_b);
                    }
                    assert(self.neighbors_joined_upto(n0));
                    assert(self.pos_joined(p)) by {
                        if merge_up {
                            // joined with the upper neighbor, and the second
                            // merge keeps equal ids equal
                            assert(st_b.block_id_of(p) == st_b.block_id_of(up));
                            if merge_left {
                                st_b.lemma_idx_bounds(up);
                                assert(st_b.block_id_of(up) == st_b.block_id_of(up));
                                assert(st_b.block_id_of(p) == st_b.block_id_of(p));
                                assert(self.block_id_of(p) == self.block_id_of(up));
                            }
                        }
                        if merge_left {
                            assert(self.block_id_of(p) == self.block_id_of(left));
                        }
                    }
                    assert forall|p2: Point| self.in_bounds(p2) && self.idx(p2) < n0 + 1
                        implies #[trigger] self.pos_joined(p2) by {
                        if self.idx(p2) == n0 {
                            self.lemma_idx_injective(p2, p);
                        }
                    }
                    assert(self.neighbors_joined_upto(n0 + 1));
                }
                c += 1;
            }
            proof {
                assert(r as int * cols as int + cols as int == (r + 1) as int * cols as int)
                    by (nonlinear_arith);
            }
            r += 1;
        }
    }
}

/// The codel stored at grid position `(rr, cc)` of a row-major array with
/// `cols` columns.
pub open spec fn cod_at(codels: Seq<Color>, cols: int, rr: int, cc: int) -> Color {
    codels[rr * cols + cc]
}

/// What the grid lowering owes one codel: with unit codels, the exact
/// classification of its pixel; with larger codels, a majority vote over
/// its pixel square.
pub open spec fn codel_ok(
    pixels: Seq<Rgb8>,
    width: int,
    mb: bool,
    cs: int,
    rr: int,
    cc: int,
    col: Color,
) -> bool {
    if cs == 1 {
        col == spec_classify(pixels[rr * width + cc], mb)
    } else {
        forall|other: Color|
            #[trigger] count_in_rect(pixels, width, mb, rr * cs, cc * cs, cs, cs, other)
                <= count_in_rect(pixels, width, mb, rr * cs, cc * cs, cs, cs, col)
    }
}

impl Program {
    /// Lower a decoded pixel buffer to a Piet program: each
    /// `codel_size`-sized pixel square becomes one codel (majority vote on
    /// its pixels), and the color blocks are discovered and indexed.
    #[verifier::loop_isolation(false)]
    #[verifier::rlimit(100)]
    pub fn new_from_imagebuffer(
        pixels: &Vec<Rgb8>,
        width: u32,
        height: u32,
        codel_size: u32,
        missing_black: bool,
    ) -> (prog: Program)
        requires
            codel_size >= 1,
            pixels@.len() == width * height,
        ensures
            prog.wf(),
            prog.rows == height / codel_size,
            prog.cols == width / codel_size,
            forall|p: Point| prog.in_bounds(p) ==> codel_ok(
                pixels@,
                width as int,
                missing_black,
                codel_size as int,
                p.0 as int,
                p.1 as int,
                #[trigger] prog.codel_at(p),
            ),
    {
        let rows = height / codel_size;
        let cols = width / codel_size;
        let ghost wd = width as int;
        let ghost csi = codel_size as int;
        proof {
            vstd::arithmetic::div_mod::lemma_fundamental_div_mod(height as int, csi);
            vstd::arithmetic::div_mod::lemma_mod_bound(height as int, csi);
            vstd::arithmetic::div_mod::lemma_fundamental_div_mod(width as int, csi);
            vstd::arithmetic::div_mod::lemma_mod_bound(width as int, csi);
            assert(csi * (rows as int) <= height);
            assert(csi * (cols as int) <= width);
        }
        let mut codels: Vec<Color> = Vec::new();
        let mut r: u32 = 0;
        while r < rows
            invariant
                r <= rows,
                codels@.len() == r * cols,
                forall|rr: int, cc: int| 0 <= rr < r && 0 <= cc < cols ==> codel_ok(
                    pixels@, wd, missing_black, csi, rr, cc,
                    #[trigger] cod_at(codels@, cols as int, rr, cc),
                ),
            decreases rows - r,
        {
            let mut c: u32 = 0;
            while c < cols
                invariant
                    c <= cols,
                    r < rows,
                    codels@.len() == r * cols + c,
                    forall|rr: int, cc: int| 0 <= cc < cols && (0 <= rr < r || (rr == r && cc < c))
                        ==> codel_ok(
                            pixels@, wd, missing_black, csi, rr, cc,
                            #[trigger] cod_at(codels@, cols as int, rr, cc),
                        ),
                decreases cols - c,
            {
                proof {
                    assert((r + 1) as int * csi <= rows as int * csi) by (nonlinear_arith)
                        requires
                            r < rows,
                            csi >= 1;
                    assert((c + 1) as int * csi <= cols as int * csi) by (nonlinear_arith)
                        requires
                            c < cols,
                            csi >= 1;
                    assert(rows as int * csi == csi * (rows as int)) by (nonlinear_arith);
                    assert(cols as int * csi == csi * (cols as int)) by (nonlinear_arith);
                }
                let codel = if codel_size == 1 {
                    let n = pixels.len();
                    proof {
                        assert(r * width + c < width * height) by (nonlinear_arith)
                            requires
                                r < height,
                                c < width;
                    }
                    let pi = (r as usize) * (width as usize) + (c as usize);
                    Color::from_rgb8(pixels[pi], missing_black)
                } else {
                    majority_color_in_square(pixels, width, height, missing_black, r, c, codel_size)
                };
                let ghost pre = codels@;
                codels.push(codel);
                proof {
                    assert(codel_ok(pixels@, wd, missing_black, csi, r as int, c as int, codel));
                    assert forall|rr: int, cc: int|
                        0 <= cc < cols && (0 <= rr < r || (rr == r && cc < c + 1))
                        implies codel_ok(
                            pixels@, wd, missing_black, csi, rr, cc,
                            #[trigger] cod_at(codels@, cols as int, rr, cc),
                        ) by {
                        if rr == r && cc == c {
                            assert(cod_at(codels@, cols as int, rr, cc) == codel);
                        } else {
                            assert(rr * cols + cc < r * cols + c) by (nonlinear_arith)
                                requires
                                    0 <= cc < cols,
                                    0 <= rr,
                                    rr < r || (rr == r && cc < c);
                            assert(cod_at(codels@, cols as int, rr, cc)
                                == cod_at(pre, cols as int, rr, cc));
                        }
                    }
                }
                c += 1;
            }
            proof {
                assert(r as int * cols as int + cols as int == ((r + 1) as int) * (cols as int))
                    by (nonlinear_arith);
            }
            r += 1;
        }
        let total = codels.len();
        let block_ids: Vec<usize> = vec![0usize; total];
        let mut prog = Program { codels, rows, cols, block_ids, blocks: Vec::new() };
        proof {
            assert forall|p: Point| prog.in_bounds(p) && prog.idx(p) < 0
                implies prog.pos_indexed(p, 0) by {
                prog.lemma_idx_bounds(p);
            }
            assert(prog.wf_upto(0));
        }
        prog.index_blocks();
        proof {
            assert forall|p: Point| prog.in_bounds(p) implies codel_ok(
                pixels@, wd, missing_black, csi, p.0 as int, p.1 as int,
                #[trigger] prog.codel_at(p),
            ) by {
                prog.lemma_idx_bounds(p);
                assert(prog.codel_at(p) == cod_at(prog.codels@, cols as int, p.0 as int, p.1 as int));
            }
        }
        prog
    }
}

/// Whether two positions are 4-adjacent: they differ by one in exactly
/// one coordinate.
pub open spec fn four_adjacent(p: Point, q: Point) -> bool {
    ||| (p.0 == q.0 && (p.1 + 1 == q.1 || q.1 + 1 == p.1))
    ||| (p.1 == q.1 && (p.0 + 1 == q.0 || q.0 + 1 == p.0))
}

/// The maximality law: two 4-adjacent codels of the same color always
/// belong to one block.
pub proof fn lemma_adjacent_same_color_same_block(prog: Program, p: Point, q: Point)
    requires
        prog.wf(),
        prog.in_bounds(p),
        prog.in_bounds(q),
        four_adjacent(p, q),
        prog.codel_at(p) == prog.codel_at(q),
    ensures
        prog.block_id_of(p) == prog.block_id_of(q),
        prog.spec_block_of(p) == prog.spec_block_of(q),
{
    prog.lemma_idx_bounds(p);
    prog.lemma_idx_bounds(q);
    if p.0 == q.0 {
        if p.1 + 1 == q.1 {
            assert(prog.pos_joined(q));
            assert(Point(q.0, (q.1 - 1) as u32) == p);
        } else {
            assert(prog.pos_joined(p));
            assert(Point(p.0, (p.1 - 1) as u32) == q);
        }
    } else {
        if p.0 + 1 == q.0 {
            assert(prog.pos_joined(q));
            assert(Point((q.0 - 1) as u32, q.1) == p);
        } else {
            assert(prog.pos_joined(p));
            assert(Point((p.0 - 1) as u32, p.1) == q);
        }
    }
}

/// The block index law: every position on the grid is a member of its own
/// block, and all members of that block lie on the grid, carry the block's
/// color, and name the same block.
pub proof fn lemma_block_of_position(prog: Program, p: Point)
    requires
        prog.wf(),
        prog.in_bounds(p),
    ensures
        prog.spec_block_of(p).wf(),
        prog.spec_block_of(p).area@.contains(p),
        prog.spec_block_of(p).color == prog.codel_at(p),
        forall|q: Point| #[trigger] prog.spec_block_of(p).area@.contains(q) ==> {
            &&& prog.in_bounds(q)
            &&& prog.codel_at(q) == prog.spec_block_of(p).color
            &&& prog.spec_block_of(q) == prog.spec_block_of(p)
        },
{
    prog.lemma_idx_bounds(p);
    assert(prog.pos_indexed(p, (prog.rows * prog.cols) as int));
}

} // verus!
