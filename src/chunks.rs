use vstd::prelude::*;

use vstd::arithmetic::div_mod::lemma_fundamental_div_mod_converse_div;

use crate::particle::{GroupId, Particle, Position, Vec2};

verus! {

/// One cell of the grid: the entries whose position falls in it.
pub struct Chunk {
    pub particles: Vec<(Position, GroupId)>,
}

impl Chunk {
    pub fn empty() -> (r: Chunk)
        ensures
            r.particles@.len() == 0,
    {
        Chunk { particles: Vec::new() }
    }

    pub fn clear(&mut self)
        ensures
            final(self).particles@.len() == 0,
    {
        self.particles.clear();
    }
}

/// Cell coordinate of `v` along one axis of `count` cells of side `size`,
/// the grid being centred on the origin; coordinates past the grid's extent
/// are clamped to its border cells.
pub open spec fn axis_cell(v: int, size: int, count: int) -> int {
    let raw = (if size == 0 { 0 } else { v / size }) + count / 2;
    if raw < 0 {
        0
    } else if raw >= count {
        count - 1
    } else {
        raw
    }
}

/// Index of the cell at `(a, b)`, as a one-element sequence, or nothing if it
/// lies outside a `w` by `h` grid.
pub open spec fn cell_at(a: int, b: int, w: int, h: int) -> Seq<int> {
    if 0 <= a < w && 0 <= b < h {
        seq![a + b * w]
    } else {
        Seq::empty()
    }
}

/// The cells of the 3x3 block centred on `(a, b)` that lie in the grid.
pub open spec fn block(a: int, b: int, w: int, h: int) -> Seq<int> {
    cell_at(a - 1, b - 1, w, h) + cell_at(a - 1, b, w, h) + cell_at(a - 1, b + 1, w, h)
        + cell_at(a, b - 1, w, h) + cell_at(a, b, w, h) + cell_at(a, b + 1, w, h)
        + cell_at(a + 1, b - 1, w, h) + cell_at(a + 1, b, w, h) + cell_at(a + 1, b + 1, w, h)
}

/// `n` empty cells.
pub open spec fn empty_cells(n: int) -> Seq<Seq<(Position, GroupId)>> {
    Seq::new(n as nat, |i: int| Seq::<(Position, GroupId)>::empty())
}

/// Rounded-down quotient of `v` by a positive `size`.
fn floor_div(v: i64, size: u64) -> (r: i128)
    requires
        size > 0,
    ensures
        r as int == v as int / size as int,
        i64::MIN <= r <= i64::MAX,
{
    let s: i128 = size as i128;
    if v >= 0 {
        let q: i128 = (v as i128) / s;
        assert(q <= v) by (nonlinear_arith)
            requires
                q == (v as int) / (s as int),
                s >= 1,
                v >= 0,
        ;
        q
    } else {
        let a: i128 = -(v as i128) - 1;
        let q: i128 = a / s;
        let rem: i128 = a % s;
        proof {
            assert(a == q * s + rem) by (nonlinear_arith)
                requires
                    q == a / s,
                    rem == a % s,
                    s >= 1,
            ;
            assert(0 <= rem < s);
            assert(q <= a) by (nonlinear_arith)
                requires
                    q == a / s,
                    s >= 1,
                    a >= 0,
            ;
            assert(v == (-q - 1) * s + (s - rem - 1)) by (nonlinear_arith)
                requires
                    a == q * s + rem,
                    a == -v - 1,
            ;
            lemma_fundamental_div_mod_converse_div(v as int, s as int, -q - 1, s - rem - 1);
        }
        -q - 1
    }
}

/// Executable form of `axis_cell` for a grid with at least one cell.
fn axis_cell_exec(v: i64, size: u64, count: usize) -> (r: usize)
    requires
        count > 0,
    ensures
        r as int == axis_cell(v as int, size as int, count as int),
        r < count,
{
    let q: i128 = if size == 0 { 0 } else { floor_div(v, size) };
    let raw: i128 = q + (count / 2) as i128;
    if raw < 0 {
        0
    } else if raw >= count as i128 {
        count - 1
    } else {
        raw as usize
    }
}

/// A sequence of indices, as integers.
pub open spec fn as_ints(s: Seq<usize>) -> Seq<int> {
    s.map_values(|i: usize| i as int)
}

/// Appends the index of cell `(a, b)` if it lies in the grid.
fn push_cell(out: &mut Vec<usize>, a: i128, b: i128, w: usize, h: usize)
    requires
        w * h <= usize::MAX,
        -1 <= a <= w,
        -1 <= b <= h,
    ensures
        as_ints(final(out)@) == as_ints(old(out)@) + cell_at(a as int, b as int, w as int, h as int),
{
    if 0 <= a && a < w as i128 && 0 <= b && b < h as i128 {
        assert(a + b * w < w * h) by (nonlinear_arith)
            requires
                0 <= a < w,
                0 <= b < h,
        ;
        let idx: usize = (a + b * (w as i128)) as usize;
        out.push(idx);
        assert(as_ints(final(out)@) =~= as_ints(old(out)@) + cell_at(a as int, b as int, w as int, h as int));
    } else {
        assert(as_ints(final(out)@) =~= as_ints(old(out)@) + cell_at(a as int, b as int, w as int, h as int));
    }
}

proof fn lemma_cell_at_bound(a: int, b: int, w: int, h: int)
    ensures
        forall|k: int| 0 <= k < cell_at(a, b, w, h).len() ==> 0 <= #[trigger] cell_at(a, b, w, h)[k] < w * h,
{
    if 0 <= a < w && 0 <= b < h {
        assert(0 <= a + b * w < w * h) by (nonlinear_arith)
            requires
                0 <= a < w,
                0 <= b < h,
        ;
    }
}

/// Every index of a block names a cell of the grid.
proof fn lemma_block_bound(a: int, b: int, w: int, h: int, k: int)
    requires
        0 <= k < block(a, b, w, h).len(),
    ensures
        0 <= block(a, b, w, h)[k] < w * h,
{
    lemma_cell_at_bound(a - 1, b - 1, w, h);
    lemma_cell_at_bound(a - 1, b, w, h);
    lemma_cell_at_bound(a - 1, b + 1, w, h);
    lemma_cell_at_bound(a, b - 1, w, h);
    lemma_cell_at_bound(a, b, w, h);
    lemma_cell_at_bound(a, b + 1, w, h);
    lemma_cell_at_bound(a + 1, b - 1, w, h);
    lemma_cell_at_bound(a + 1, b, w, h);
    lemma_cell_at_bound(a + 1, b + 1, w, h);
    let s = block(a, b, w, h);
    assert(forall|j: int| 0 <= j < s.len() ==> 0 <= #[trigger] s[j] < w * h);
}

/// Uniform grid over the world; each cell holds a snapshot of (position, group)
/// entries.
pub struct Chunks {
    pub width: usize,
    pub height: usize,
    /// Side of a cell, in fixed-point steps.
    pub size: u64,
    /// Cells row by row: cell `(a, b)` is at `a + b * width`.
    pub chunks: Vec<Chunk>,
}

impl Chunks {
    pub open spec fn wf(&self) -> bool {
        self.chunks@.len() == self.width * self.height
    }

    /// What each cell holds.
    pub open spec fn cells(&self) -> Seq<Seq<(Position, GroupId)>> {
        self.chunks@.map_values(|c: Chunk| c.particles@)
    }

    pub open spec fn has_cells(&self) -> bool {
        self.width > 0 && self.height > 0
    }

    pub open spec fn cell_x(&self, x: int) -> int {
        axis_cell(x, self.size as int, self.width as int)
    }

    pub open spec fn cell_y(&self, y: int) -> int {
        axis_cell(y, self.size as int, self.height as int)
    }

    /// Index of the cell that owns a position.
    pub open spec fn cell_of(&self, p: Vec2) -> int {
        self.cell_x(p.x as int) + self.cell_y(p.y as int) * self.width
    }

    /// Indices of the cells of the block around the cell that owns `(x, y)`.
    pub open spec fn around(&self, x: int, y: int) -> Seq<int> {
        block(self.cell_x(x), self.cell_y(y), self.width as int, self.height as int)
    }

    /// An empty grid of `width` by `height` cells of side `size`.
    pub fn new(width: usize, height: usize, size: u64) -> (r: Chunks)
        requires
            width * height <= usize::MAX,
        ensures
            r.wf(),
            r.width == width,
            r.height == height,
            r.size == size,
            r.cells() == empty_cells(width * height),
    {
        let n: usize = width * height;
        let mut chunks: Vec<Chunk> = Vec::new();
        let mut i: usize = 0;
        while i < n
            invariant
                i <= n,
                chunks@.len() == i,
                forall|k: int| 0 <= k < i ==> (#[trigger] chunks@[k]).particles@.len() == 0,
            decreases n - i,
        {
            chunks.push(Chunk::empty());
            i += 1;
        }
        let r = Chunks { width, height, size, chunks };
        assert(r.cells() =~~= empty_cells(width * height));
        r
    }

    /// Empties every cell, keeping the grid's dimensions.
    pub fn clear(&mut self)
        requires
            old(self).wf(),
        ensures
            final(self).wf(),
            final(self).width == old(self).width,
            final(self).height == old(self).height,
            final(self).size == old(self).size,
            final(self).cells() == empty_cells(old(self).width * old(self).height),
    {
        let n = self.chunks.len();
        let mut i: usize = 0;
        while i < n
            invariant
                i <= n,
                n == self.chunks@.len(),
                self.wf(),
                self.width == old(self).width,
                self.height == old(self).height,
                self.size == old(self).size,
                forall|k: int| 0 <= k < i ==> (#[trigger] self.chunks@[k]).particles@.len() == 0,
            decreases n - i,
        {
            self.chunks[i].clear();
            i += 1;
        }
        assert(self.cells() =~~= empty_cells(old(self).width * old(self).height));
    }

    /// The cell that owns `(x, y)`, if the grid has any cell.
    pub fn get_chunk(&self, x: i64, y: i64) -> (r: Option<&Chunk>)
        requires
            self.wf(),
        ensures
            r.is_some() == self.has_cells(),
            r.is_some() ==> *r.unwrap() == self.chunks@[self.cell_of(Vec2 { x, y })],
    {
        if self.width == 0 || self.height == 0 {
            return None;
        }
        let idx = self.cell_index(x, y);
        Some(&self.chunks[idx])
    }

    /// Index of the cell that owns `(x, y)`.
    pub fn cell_index(&self, x: i64, y: i64) -> (r: usize)
        requires
            self.wf(),
            self.has_cells(),
        ensures
            r as int == self.cell_of(Vec2 { x, y }),
            r < self.chunks@.len(),
    {
        let cells = self.chunks.len();
        assert(self.width * self.height == cells && cells <= usize::MAX);
        let a = axis_cell_exec(x, self.size, self.width);
        let b = axis_cell_exec(y, self.size, self.height);
        assert(b * self.width + a < self.width * self.height) by (nonlinear_arith)
            requires
                a < self.width,
                b < self.height,
        ;
        assert(b * self.width <= b * self.width + a);
        a + b * self.width
    }

    /// Indices of the cells of the 3x3 block around the cell that owns
    /// `(x, y)`; cells beyond the grid's border are left out.
    pub fn neighbour_cells(&self, x: i64, y: i64) -> (r: Vec<usize>)
        requires
            self.wf(),
        ensures
            as_ints(r@) == self.around(x as int, y as int),
            forall|k: int| 0 <= k < r@.len() ==> r@[k] < self.chunks@.len(),
    {
        let mut out: Vec<usize> = Vec::new();
        if self.width == 0 || self.height == 0 {
            assert(as_ints(out@) =~= self.around(x as int, y as int));
            return out;
        }
        let w = self.width;
        let h = self.height;
        let cells = self.chunks.len();
        assert(w * h == cells && cells <= usize::MAX);
        let a = axis_cell_exec(x, self.size, w) as i128;
        let b = axis_cell_exec(y, self.size, h) as i128;
        push_cell(&mut out, a - 1, b - 1, w, h);
        push_cell(&mut out, a - 1, b, w, h);
        push_cell(&mut out, a - 1, b + 1, w, h);
        push_cell(&mut out, a, b - 1, w, h);
        push_cell(&mut out, a, b, w, h);
        push_cell(&mut out, a, b + 1, w, h);
        push_cell(&mut out, a + 1, b - 1, w, h);
        push_cell(&mut out, a + 1, b, w, h);
        push_cell(&mut out, a + 1, b + 1, w, h);
        proof {
            let wi = w as int;
            let hi = h as int;
            let ai = a as int;
            let bi = b as int;
            assert(self.around(x as int, y as int) == block(ai, bi, wi, hi));
            assert(as_ints(out@) =~= block(ai, bi, wi, hi));
            assert forall|k: int| 0 <= k < out@.len() implies out@[k] < self.chunks@.len() by {
                let s = block(ai, bi, wi, hi);
                assert(as_ints(out@)[k] == s[k]);
                assert(s[k] < wi * hi) by {
                    lemma_block_bound(ai, bi, wi, hi, k);
                }
            }
        }
        out
    }

    /// The cells of the 3x3 block around the cell that owns `(x, y)`.
    pub fn get_chunks_around(&self, x: i64, y: i64) -> (r: Vec<&Chunk>)
        requires
            self.wf(),
        ensures
            r@.len() == self.around(x as int, y as int).len(),
            forall|k: int|
                0 <= k < r@.len() ==> *(#[trigger] r@[k]) == self.chunks@[self.around(x as int, y as int)[k]],
    {
        let idx = self.neighbour_cells(x, y);
        let mut out: Vec<&Chunk> = Vec::new();
        let mut k: usize = 0;
        while k < idx.len()
            invariant
                k <= idx@.len(),
                out@.len() == k,
                self.wf(),
                as_ints(idx@) == self.around(x as int, y as int),
                forall|j: int| 0 <= j < idx@.len() ==> idx@[j] < self.chunks@.len(),
                forall|j: int| 0 <= j < k ==> *(#[trigger] out@[j]) == self.chunks@[idx@[j] as int],
            decreases idx@.len() - k,
        {
            out.push(&self.chunks[idx[k]]);
            k += 1;
        }
        proof {
            assert forall|j: int| 0 <= j < out@.len() implies *(#[trigger] out@[j])
                == self.chunks@[self.around(x as int, y as int)[j]] by {
                assert(as_ints(idx@)[j] == idx@[j] as int);
            }
        }
        out
    }

    /// Appends `(pos, id)` to the cell that owns `pos`.
    pub fn insert_particle(&mut self, pos: Position, id: GroupId)
        requires
            old(self).wf(),
        ensures
            final(self).wf(),
            final(self).width == old(self).width,
            final(self).height == old(self).height,
            final(self).size == old(self).size,
            final(self).cells() == old(self).inserted(pos, id),
    {
        if self.width == 0 || self.height == 0 {
            assert(self.cells() == old(self).inserted(pos, id));
            return;
        }
        let idx = self.cell_index(pos.0.x, pos.0.y);
        self.chunks[idx].particles.push((pos, id));
        assert(self.cells() =~= old(self).inserted(pos, id));
    }

    /// The cells once the grid is emptied and every particle of `ps` is
    /// inserted, in order.
    pub open spec fn filled(&self, ps: Seq<Particle>) -> Seq<Seq<(Position, GroupId)>>
        decreases ps.len(),
    {
        if ps.len() == 0 {
            empty_cells(self.width * self.height)
        } else {
            let prev = self.filled(ps.drop_last());
            let p = ps.last();
            if self.has_cells() {
                let c = self.cell_of(p.position.0);
                prev.update(c, prev[c].push((p.position, p.group_id)))
            } else {
                prev
            }
        }
    }

    /// Every entry's group is below `n`.
    pub open spec fn groups_below(&self, n: nat) -> bool {
        forall|c: int, k: int|
            0 <= c < self.cells().len() && 0 <= k < self.cells()[c].len() ==> (#[trigger] self.cells()[c][k]).1.0 < n
    }

    pub open spec fn same_shape(&self, o: &Chunks) -> bool {
        &&& self.width == o.width
        &&& self.height == o.height
        &&& self.size == o.size
    }

    /// The cells once `(pos, id)` is added to the cell that owns `pos`.
    pub open spec fn inserted(&self, pos: Position, id: GroupId) -> Seq<Seq<(Position, GroupId)>> {
        if self.has_cells() {
            let c = self.cell_of(pos.0);
            self.cells().update(c, self.cells()[c].push((pos, id)))
        } else {
            self.cells()
        }
    }
}


} // verus!
