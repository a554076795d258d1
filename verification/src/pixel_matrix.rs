//! Row-major sample planes and a block-wise cursor over them.
//!
//! `PixelMatrix` stores a `width x height` grid in one contiguous buffer with
//! `row * width + col` indexing. `PixelMatrixBlockIterator` partitions such a
//! grid into `ceil(width/bw) * ceil(height/bh)` blocks of size `bw x bh`,
//! scanned in raster order, and can copy blocks out (optionally zero-padded)
//! or stream samples one at a time through an internal cursor. The cursor
//! borrows no plane; every operation takes the plane it walks as an argument,
//! so one cursor can drive reads of one plane and writes of another.

use vstd::prelude::*;
use vstd::arithmetic::div_mod::{lemma_fundamental_div_mod, lemma_fundamental_div_mod_converse};

verus! {

/// `ceil(a / b)` on nonnegative integers.
pub open spec fn spec_div_ceil(a: int, b: int) -> int {
    (a + b - 1) / b
}

/// Compute `ceil(a / b)` without overflow.
pub fn div_ceil_exec(a: usize, b: usize) -> (r: usize)
    requires
        b >= 1,
    ensures
        r == spec_div_ceil(a as int, b as int),
{
    let q = a / b;
    let rem = a % b;
    proof {
        let bi = b as int;
        let qi = q as int;
        let ri = rem as int;
        lemma_fundamental_div_mod(a as int, bi);
        assert(a == bi * qi + ri);
        if ri == 0 {
            assert(a + bi - 1 == qi * bi + (bi - 1)) by (nonlinear_arith)
                requires
                    a == bi * qi + ri && ri == 0,
            ;
            lemma_fundamental_div_mod_converse(a + bi - 1, bi, qi, bi - 1);
        } else {
            assert(a + bi - 1 == (qi + 1) * bi + (ri - 1)) by (nonlinear_arith)
                requires
                    a == bi * qi + ri,
            ;
            assert(qi < a) by (nonlinear_arith)
                requires
                    a == bi * qi + ri && ri >= 1 && bi >= 1 && qi >= 0,
            ;
            lemma_fundamental_div_mod_converse(a + bi - 1, bi, qi + 1, ri - 1);
        }
    }
    if rem == 0 {
        q
    } else {
        q + 1
    }
}

/// In a `width x height` grid, an in-range position has an in-range index.
pub proof fn lemma_index_in_plane(row: int, col: int, width: int, height: int)
    requires
        0 <= row < height,
        0 <= col < width,
    ensures
        0 <= row * width + col < width * height,
{
    assert(row * width + col < width * height) by (nonlinear_arith)
        requires
            0 <= row < height && 0 <= col < width,
    ;
    assert(0 <= row * width) by (nonlinear_arith)
        requires
            0 <= row && 0 <= width,
    ;
}

/// Rounding up to a multiple of the divisor overshoots by less than one
/// divisor.
pub proof fn lemma_div_ceil_times_divisor(a: int, b: int)
    requires
        0 <= a,
        1 <= b,
    ensures
        a <= spec_div_ceil(a, b) * b < a + b,
{
    vstd::arithmetic::div_mod::lemma_fundamental_div_mod(a + b - 1, b);
    let q = (a + b - 1) / b;
    let r = (a + b - 1) % b;
    vstd::arithmetic::div_mod::lemma_mod_bound(a + b - 1, b);
    assert(a <= q * b < a + b) by (nonlinear_arith)
        requires
            a + b - 1 == b * q + r,
            0 <= r < b,
    ;
}

/// A value below a product is, divided by one factor, below the other.
pub proof fn lemma_div_below(x: int, a: int, b: int)
    requires
        a >= 1,
        0 <= x,
        x < a * b,
    ensures
        0 <= x / a < b,
{
    vstd::arithmetic::div_mod::lemma_fundamental_div_mod(x, a);
    vstd::arithmetic::div_mod::lemma_mod_bound(x, a);
    let q = x / a;
    let r = x % a;
    assert(0 <= q < b) by (nonlinear_arith)
        requires
            x == a * q + r,
            0 <= r < a,
            a >= 1,
            0 <= x,
            x < a * b,
    ;
}

/// A row-major grid of samples with a contiguous backing buffer.
pub struct PixelMatrix<T> {
    pub width: usize,
    pub height: usize,
    pub pixels: Vec<T>,
}

impl<T> PixelMatrix<T> {
    /// The backing buffer holds exactly one sample per grid position.
    pub open spec fn wf(self) -> bool {
        &&& self.pixels@.len() == self.width * self.height
        &&& self.width * self.height <= usize::MAX
    }
}

impl<T: Copy> PixelMatrix<T> {
    /// A new plane with an empty backing buffer, to be filled by `push_next`.
    pub fn new(width: usize, height: usize) -> (r: PixelMatrix<T>)
        requires
            width * height <= usize::MAX,
        ensures
            r.width == width,
            r.height == height,
            r.pixels@ == Seq::<T>::empty(),
    {
        PixelMatrix { width, height, pixels: Vec::new() }
    }

    /// A new plane over a caller-supplied buffer.
    pub fn new_from_pixels(width: usize, height: usize, pixels: Vec<T>) -> (r: PixelMatrix<T>)
        ensures
            r.width == width,
            r.height == height,
            r.pixels@ == pixels@,
    {
        PixelMatrix { width, height, pixels }
    }
}

impl<T: Copy + Default> PixelMatrix<T> {
    /// A new plane filled with the default sample value.
    pub fn new_with_default(width: usize, height: usize) -> (r: PixelMatrix<T>)
        requires
            width * height <= usize::MAX,
        ensures
            r.width == width,
            r.height == height,
            r.wf(),
            exists|d: T|
                call_ensures(T::default, (), d) && r.pixels@ == Seq::new(
                    (width * height) as nat,
                    |i: int| d,
                ),
    {
        let d = T::default();
        let n = width * height;
        let mut pixels: Vec<T> = Vec::new();
        let mut i: usize = 0;
        while i < n
            invariant
                i <= n,
                pixels@ == Seq::new(i as nat, |k: int| d),
            decreases n - i,
        {
            pixels.push(d);
            proof {
                assert(pixels@ =~= Seq::new((i + 1) as nat, |k: int| d));
            }
            i = i + 1;
        }
        proof {
            assert(call_ensures(T::default, (), d));
        }
        PixelMatrix { width, height, pixels }
    }
}

impl<T: Copy> PixelMatrix<T> {
    /// Append one sample to the backing buffer, used while filling a plane
    /// from an ordered stream.
    pub fn push_next(&mut self, value: T)
        requires
            old(self).pixels@.len() < old(self).width * old(self).height,
        ensures
            final(self).width == old(self).width,
            final(self).height == old(self).height,
            final(self).pixels@ == old(self).pixels@.push(value),
    {
        self.pixels.push(value);
    }

    /// Bounds-checked read: `Some` exactly on in-range coordinates.
    pub fn get_pixel(&self, row: usize, col: usize) -> (r: Option<T>)
        requires
            self.wf(),
        ensures
            r == (if row < self.height && col < self.width {
                Some(self.pixels@[row * self.width + col])
            } else {
                None::<T>
            }),
    {
        if row >= self.height || col >= self.width {
            return None;
        }
        proof {
            lemma_index_in_plane(row as int, col as int, self.width as int, self.height as int);
        }
        Some(self.pixels[row * self.width + col])
    }

    /// Unchecked write; the caller guarantees the coordinates are in range.
    pub fn set_pixel(&mut self, row: usize, col: usize, value: T)
        requires
            old(self).wf(),
            row < old(self).height,
            col < old(self).width,
        ensures
            final(self).width == old(self).width,
            final(self).height == old(self).height,
            final(self).wf(),
            final(self).pixels@ == old(self).pixels@.update(row * old(self).width + col, value),
    {
        proof {
            lemma_index_in_plane(row as int, col as int, self.width as int, self.height as int);
        }
        let idx = row * self.width + col;
        self.pixels.set(idx, value);
    }

    /// The samples in storage order, copied out for the caller to walk.
    pub fn for_each_pixel(&self) -> (r: Vec<T>)
        ensures
            r@ == self.pixels@,
    {
        let mut out: Vec<T> = Vec::new();
        let mut i: usize = 0;
        while i < self.pixels.len()
            invariant
                i <= self.pixels@.len(),
                out@ == self.pixels@.subrange(0, i as int),
            decreases self.pixels@.len() - i,
        {
            out.push(self.pixels[i]);
            proof {
                assert(out@ =~= self.pixels@.subrange(0, i + 1));
            }
            i = i + 1;
        }
        proof {
            assert(out@ =~= self.pixels@);
        }
        out
    }

    /// A fresh block cursor over this plane's geometry.
    pub fn get_block_iterator(
        &self,
        block_width: usize,
        block_height: usize,
        use_default_padding: bool,
    ) -> (r: PixelMatrixBlockIterator)
        requires
            self.wf(),
            self.width >= 1,
            self.height >= 1,
            block_width >= 1,
            block_height >= 1,
            self.width + block_width <= usize::MAX,
            self.height + block_height <= usize::MAX,
        ensures
            r.wf(),
            r.matches::<T>(*self),
            r.block_width == block_width,
            r.block_height == block_height,
            r.use_default_padding == use_default_padding,
            r.at_start(),
    {
        PixelMatrixBlockIterator::new(self, block_width, block_height, use_default_padding)
    }
}

/// A stateful cursor that walks a plane block by block in raster order.
///
/// It records the geometry of the plane it was made for and an
/// `(block_idx, row_in_block, col_in_block)` position; the plane itself is
/// passed to each operation.
pub struct PixelMatrixBlockIterator {
    pub matrix_width: usize,
    pub matrix_height: usize,
    pub block_width: usize,
    pub block_height: usize,
    pub block_idx: usize,
    pub row_in_block_idx: usize,
    pub col_in_block_idx: usize,
    pub use_default_padding: bool,
}

impl PixelMatrixBlockIterator {
    /// Geometry is nondegenerate and the cursor is inside its ranges.
    pub open spec fn wf(self) -> bool {
        &&& self.matrix_width >= 1
        &&& self.matrix_height >= 1
        &&& self.block_width >= 1
        &&& self.block_height >= 1
        &&& self.matrix_width * self.matrix_height <= usize::MAX
        &&& self.spec_blocks_per_row() * self.block_width <= usize::MAX
        &&& self.spec_blocks_per_column() * self.block_height <= usize::MAX
        &&& self.block_idx < self.spec_blocks_amount()
        &&& self.row_in_block_idx < self.block_height
        &&& self.col_in_block_idx < self.block_width
    }

    /// The cursor belongs to planes with this geometry.
    pub open spec fn matches<T>(self, m: PixelMatrix<T>) -> bool {
        &&& m.wf()
        &&& m.width == self.matrix_width
        &&& m.height == self.matrix_height
    }

    pub open spec fn spec_blocks_per_row(self) -> int {
        spec_div_ceil(self.matrix_width as int, self.block_width as int)
    }

    pub open spec fn spec_blocks_per_column(self) -> int {
        spec_div_ceil(self.matrix_height as int, self.block_height as int)
    }

    pub open spec fn spec_blocks_amount(self) -> int {
        self.spec_blocks_per_row() * self.spec_blocks_per_column()
    }

    /// The cursor sits on the first sample of the first block.
    pub open spec fn at_start(self) -> bool {
        self.block_idx == 0 && self.row_in_block_idx == 0 && self.col_in_block_idx == 0
    }

    /// Row of the plane the cursor points at.
    pub open spec fn spec_cursor_row(self) -> int {
        (self.block_idx as int / self.spec_blocks_per_row()) * self.block_height
            + self.row_in_block_idx
    }

    /// Column of the plane the cursor points at.
    pub open spec fn spec_cursor_col(self) -> int {
        (self.block_idx as int % self.spec_blocks_per_row()) * self.block_width
            + self.col_in_block_idx
    }

    /// The cursor state that follows `self` in the stream order: the position
    /// advances row-major within the block, then to the next block, wrapping
    /// to block 0 after the last.
    pub open spec fn spec_advanced(self) -> PixelMatrixBlockIterator {
        let next_block = if self.row_in_block_idx == self.block_height - 1 && self.col_in_block_idx
            == self.block_width - 1 {
            if self.block_idx == self.spec_blocks_amount() - 1 {
                0
            } else {
                self.block_idx + 1
            }
        } else {
            self.block_idx as int
        };
        let next_col = ((self.col_in_block_idx + 1) % (self.block_width as int));
        let next_row = if next_col == 0 {
            (self.row_in_block_idx + 1) % (self.block_height as int)
        } else {
            self.row_in_block_idx as int
        };
        PixelMatrixBlockIterator {
            block_idx: next_block as usize,
            row_in_block_idx: next_row as usize,
            col_in_block_idx: next_col as usize,
            ..self
        }
    }

    /// A fresh cursor for the geometry of `m`, positioned at the start.
    pub fn new<T: Copy>(
        m: &PixelMatrix<T>,
        block_width: usize,
        block_height: usize,
        use_default_padding: bool,
    ) -> (r: PixelMatrixBlockIterator)
        requires
            m.wf(),
            m.width >= 1,
            m.height >= 1,
            block_width >= 1,
            block_height >= 1,
            m.width + block_width <= usize::MAX,
            m.height + block_height <= usize::MAX,
        ensures
            r.wf(),
            r.matches::<T>(*m),
            r.block_width == block_width,
            r.block_height == block_height,
            r.use_default_padding == use_default_padding,
            r.at_start(),
    {
        proof {
            lemma_div_ceil_times_divisor(m.width as int, block_width as int);
            lemma_div_ceil_times_divisor(m.height as int, block_height as int);
        }
        let r = PixelMatrixBlockIterator {
            matrix_width: m.width,
            matrix_height: m.height,
            block_width,
            block_height,
            block_idx: 0,
            row_in_block_idx: 0,
            col_in_block_idx: 0,
            use_default_padding,
        };
        proof {
            r.lemma_blocks_amount_bounds();
        }
        r
    }

    /// The block grid is nonempty and no larger than the plane.
    pub proof fn lemma_blocks_amount_bounds(self)
        requires
            self.matrix_width >= 1,
            self.matrix_height >= 1,
            self.block_width >= 1,
            self.block_height >= 1,
        ensures
            1 <= self.spec_blocks_per_row() <= self.matrix_width,
            1 <= self.spec_blocks_per_column() <= self.matrix_height,
            1 <= self.spec_blocks_amount() <= self.matrix_width * self.matrix_height,
    {
        let w = self.matrix_width as int;
        let h = self.matrix_height as int;
        let bw = self.block_width as int;
        let bh = self.block_height as int;
        assert(1 <= spec_div_ceil(w, bw) <= w) by (nonlinear_arith)
            requires
                w >= 1 && bw >= 1,
        ;
        assert(1 <= spec_div_ceil(h, bh) <= h) by (nonlinear_arith)
            requires
                h >= 1 && bh >= 1,
        ;
        assert(1 <= spec_div_ceil(w, bw) * spec_div_ceil(h, bh) <= w * h) by (nonlinear_arith)
            requires
                1 <= spec_div_ceil(w, bw) <= w,
                1 <= spec_div_ceil(h, bh) <= h,
        ;
    }

    /// Return the cursor to the first sample of the first block.
    pub fn reset(&mut self)
        ensures
            (*final(self) == PixelMatrixBlockIterator {
                block_idx: 0,
                row_in_block_idx: 0,
                col_in_block_idx: 0,
                ..*old(self)
            }),
    {
        self.block_idx = 0;
        self.row_in_block_idx = 0;
        self.col_in_block_idx = 0;
    }

    /// How many blocks lie side by side in one row of blocks.
    pub fn get_blocks_per_row(&self) -> (r: usize)
        requires
            self.wf(),
        ensures
            r == self.spec_blocks_per_row(),
    {
        div_ceil_exec(self.matrix_width, self.block_width)
    }

    /// How many rows of blocks cover the plane.
    pub fn get_blocks_per_column(&self) -> (r: usize)
        requires
            self.wf(),
        ensures
            r == self.spec_blocks_per_column(),
    {
        div_ceil_exec(self.matrix_height, self.block_height)
    }

    /// The total number of blocks.
    pub fn get_blocks_amount(&self) -> (r: usize)
        requires
            self.wf(),
        ensures
            r == self.spec_blocks_amount(),
    {
        proof {
            self.lemma_blocks_amount_bounds();
        }
        self.get_blocks_per_row() * self.get_blocks_per_column()
    }

    /// Advance the stream cursor by one sample.
    fn increment_idx(&mut self)
        requires
            old(self).wf(),
        ensures
            final(self).wf(),
            (*final(self) == old(self).spec_advanced()),
    {
        if self.row_in_block_idx == self.block_height - 1 && self.col_in_block_idx
            == self.block_width - 1 {
            self.increment_block_idx();
        }
        self.col_in_block_idx = (self.col_in_block_idx + 1) % self.block_width;
        if self.col_in_block_idx == 0 {
            self.row_in_block_idx = (self.row_in_block_idx + 1) % self.block_height;
        }
    }

    /// Step to the next block in raster order, wrapping to block 0 after the
    /// last; the in-block position is untouched.
    pub fn increment_block_idx(&mut self)
        requires
            old(self).wf(),
        ensures
            final(self).wf(),
            (*final(self) == PixelMatrixBlockIterator {
                block_idx: (if old(self).block_idx == old(self).spec_blocks_amount() - 1 {
                    0
                } else {
                    (old(self).block_idx + 1) as int
                }) as usize,
                ..*old(self)
            }),
    {
        proof {
            self.lemma_blocks_amount_bounds();
        }
        if self.block_idx == self.get_blocks_amount() - 1 {
            self.block_idx = 0;
        } else {
            self.block_idx = self.block_idx + 1;
        }
    }

    /// Everything the cursor addresses stays within the padded block grid,
    /// whose extent fits in `usize`.
    pub proof fn lemma_cursor_in_range(self)
        requires
            self.wf(),
        ensures
            0 <= self.block_idx as int / self.spec_blocks_per_row() < self.spec_blocks_per_column(),
            0 <= self.block_idx as int % self.spec_blocks_per_row() < self.spec_blocks_per_row(),
            0 <= self.spec_cursor_row() < self.spec_blocks_per_column() * self.block_height,
            0 <= self.spec_cursor_col() < self.spec_blocks_per_row() * self.block_width,
            (self.block_idx as int / self.spec_blocks_per_row()) * self.block_height
                + self.block_height <= self.spec_blocks_per_column() * self.block_height,
            (self.block_idx as int % self.spec_blocks_per_row()) * self.block_width
                + self.block_width <= self.spec_blocks_per_row() * self.block_width,
    {
        let bpr = self.spec_blocks_per_row();
        let bpc = self.spec_blocks_per_column();
        let bh = self.block_height as int;
        let bw = self.block_width as int;
        self.lemma_blocks_amount_bounds();
        lemma_div_below(self.block_idx as int, bpr, bpc);
        vstd::arithmetic::div_mod::lemma_mod_bound(self.block_idx as int, bpr);
        let q = self.block_idx as int / bpr;
        let p = self.block_idx as int % bpr;
        assert(0 <= q * bh && q * bh + bh <= bpc * bh) by (nonlinear_arith)
            requires
                0 <= q < bpc && bh >= 1,
        ;
        assert(0 <= p * bw && p * bw + bw <= bpr * bw) by (nonlinear_arith)
            requires
                0 <= p < bpr && bw >= 1,
        ;
    }

    /// Read the sample under the cursor from `m` (or `None` outside the
    /// plane) and advance the cursor by one position.
    pub fn get_next_pixel<T: Copy>(&mut self, m: &PixelMatrix<T>) -> (r: Option<T>)
        requires
            old(self).wf(),
            old(self).matches::<T>(*m),
        ensures
            final(self).wf(),
            (*final(self) == old(self).spec_advanced()),
            (r == if old(self).spec_cursor_row() < m.height && old(self).spec_cursor_col()
                < m.width {
                Some(m.pixels@[old(self).spec_cursor_row() * m.width + old(self).spec_cursor_col()])
            } else {
                None::<T>
            }),
    {
        proof {
            self.lemma_cursor_in_range();
        }
        let blocks_per_row = self.get_blocks_per_row();
        let block_start_i = (self.block_idx / blocks_per_row) * self.block_height;
        let block_start_j = (self.block_idx % blocks_per_row) * self.block_width;
        let pixel = m.get_pixel(
            block_start_i + self.row_in_block_idx,
            block_start_j + self.col_in_block_idx,
        );
        self.increment_idx();
        pixel
    }

    /// Write `value` at the sample under the cursor in `m` and advance the
    /// cursor by one position. The caller guarantees the cursor is inside
    /// the plane.
    pub fn set_next_pixel<T: Copy>(&mut self, m: &mut PixelMatrix<T>, value: T)
        requires
            old(self).wf(),
            old(self).matches::<T>(*old(m)),
            old(self).spec_cursor_row() < old(m).height,
            old(self).spec_cursor_col() < old(m).width,
        ensures
            final(self).wf(),
            (*final(self) == old(self).spec_advanced()),
            final(self).matches::<T>(*final(m)),
            final(m).width == old(m).width,
            final(m).height == old(m).height,
            final(m).pixels@ == old(m).pixels@.update(
                old(self).spec_cursor_row() * old(m).width + old(self).spec_cursor_col(),
                value,
            ),
    {
        proof {
            self.lemma_cursor_in_range();
        }
        let blocks_per_row = self.get_blocks_per_row();
        let block_start_i = (self.block_idx / blocks_per_row) * self.block_height;
        let block_start_j = (self.block_idx % blocks_per_row) * self.block_width;
        m.set_pixel(
            block_start_i + self.row_in_block_idx,
            block_start_j + self.col_in_block_idx,
            value,
        );
        self.increment_idx();
    }

    /// The cells of row `i` of the current block, from column `j` on: each
    /// in-plane sample, with `d` standing in for out-of-plane cells when the
    /// cursor pads and nothing when it does not.
    pub open spec fn spec_block_row_from<T>(
        self,
        m: PixelMatrix<T>,
        i: int,
        j: int,
        d: T,
    ) -> Seq<T>
        decreases self.block_width - j,
    {
        if j >= self.block_width {
            Seq::empty()
        } else {
            let rr = (self.block_idx as int / self.spec_blocks_per_row()) * self.block_height + i;
            let cc = (self.block_idx as int % self.spec_blocks_per_row()) * self.block_width + j;
            let cell = if rr < m.height && cc < m.width {
                seq![m.pixels@[rr * m.width + cc]]
            } else if self.use_default_padding {
                seq![d]
            } else {
                Seq::empty()
            };
            cell + self.spec_block_row_from(m, i, j + 1, d)
        }
    }

    /// The cells of the current block from row `i` on, in raster order.
    pub open spec fn spec_block_rows_from<T>(self, m: PixelMatrix<T>, i: int, d: T) -> Seq<T>
        decreases self.block_height - i,
    {
        if i >= self.block_height {
            Seq::empty()
        } else {
            self.spec_block_row_from(m, i, 0, d) + self.spec_block_rows_from(m, i + 1, d)
        }
    }

    /// The contents of the block under the cursor, in raster order, with `d`
    /// as the padding sample.
    pub open spec fn spec_block<T>(self, m: PixelMatrix<T>, d: T) -> Seq<T> {
        self.spec_block_rows_from(m, 0, d)
    }

    /// The contents of block `k`, independent of the cursor position.
    pub open spec fn spec_block_at<T>(self, m: PixelMatrix<T>, k: int, d: T) -> Seq<T> {
        PixelMatrixBlockIterator {
            block_idx: k as usize,
            row_in_block_idx: 0,
            col_in_block_idx: 0,
            ..self
        }.spec_block(m, d)
    }

    /// Copy the block under the cursor into `block_buffer` with `d` as the
    /// padding sample.
    fn fill_block<T: Copy>(&self, m: &PixelMatrix<T>, block_buffer: &mut Vec<T>, d: T)
        requires
            self.wf(),
            self.matches::<T>(*m),
        ensures
            final(block_buffer)@ == self.spec_block(*m, d),
    {
        proof {
            self.lemma_cursor_in_range();
        }
        block_buffer.clear();
        let blocks_per_row = self.get_blocks_per_row();
        let block_start_i = (self.block_idx / blocks_per_row) * self.block_height;
        let block_start_j = (self.block_idx % blocks_per_row) * self.block_width;
        let mut i: usize = 0;
        while i < self.block_height
            invariant
                self.wf(),
                self.matches::<T>(*m),
                i <= self.block_height,
                blocks_per_row == self.spec_blocks_per_row(),
                block_start_i == (self.block_idx as int / self.spec_blocks_per_row())
                    * self.block_height,
                block_start_j == (self.block_idx as int % self.spec_blocks_per_row())
                    * self.block_width,
                block_start_i + self.block_height <= usize::MAX,
                block_start_j + self.block_width <= usize::MAX,
                block_buffer@ + self.spec_block_rows_from(*m, i as int, d) == self.spec_block(
                    *m,
                    d,
                ),
            decreases self.block_height - i,
        {
            let mut j: usize = 0;
            while j < self.block_width
                invariant
                    self.wf(),
                    self.matches::<T>(*m),
                    i < self.block_height,
                    j <= self.block_width,
                    blocks_per_row == self.spec_blocks_per_row(),
                    block_start_i == (self.block_idx as int / self.spec_blocks_per_row())
                        * self.block_height,
                    block_start_j == (self.block_idx as int % self.spec_blocks_per_row())
                        * self.block_width,
                    block_start_i + self.block_height <= usize::MAX,
                    block_start_j + self.block_width <= usize::MAX,
                    block_buffer@ + self.spec_block_row_from(*m, i as int, j as int, d)
                        + self.spec_block_rows_from(*m, i as int + 1, d) == self.spec_block(*m, d),
                decreases self.block_width - j,
            {
                match m.get_pixel(block_start_i + i, block_start_j + j) {
                    Some(p) => {
                        block_buffer.push(p);
                    },
                    None => {
                        if self.use_default_padding {
                            block_buffer.push(d);
                        }
                    },
                }
                j = j + 1;
            }
            proof {
                assert(self.spec_block_row_from(*m, i as int, self.block_width as int, d)
                    =~= Seq::<T>::empty());
            }
            i = i + 1;
        }
        proof {
            assert(self.spec_block_rows_from(*m, self.block_height as int, d) =~= Seq::<T>::empty());
            assert(block_buffer@ =~= self.spec_block(*m, d));
        }
    }

    /// Copy the block under the cursor into `block_buffer`, zero-padding
    /// out-of-plane cells when the cursor pads and skipping them otherwise.
    pub fn get_block<T: Copy + Default>(&self, m: &PixelMatrix<T>, block_buffer: &mut Vec<T>)
        requires
            self.wf(),
            self.matches::<T>(*m),
        ensures
            exists|d: T|
                call_ensures(T::default, (), d) && final(block_buffer)@ == self.spec_block(*m, d),
    {
        let d = T::default();
        self.fill_block(m, block_buffer, d);
    }

    /// Copy the block under the cursor into `block_buffer` so the caller can
    /// apply its operation to the contents; the cursor does not move.
    pub fn block_operation<T: Copy + Default>(&self, m: &PixelMatrix<T>, block_buffer: &mut Vec<T>)
        requires
            self.wf(),
            self.matches::<T>(*m),
        ensures
            exists|d: T|
                call_ensures(T::default, (), d) && final(block_buffer)@ == self.spec_block(*m, d),
    {
        self.get_block(m, block_buffer);
    }

    /// Every block of the plane in raster order, each copied out as one
    /// buffer. The cursor is left on the last block, at its first sample.
    pub fn for_each_block<T: Copy + Default>(&mut self, m: &PixelMatrix<T>) -> (r: Vec<Vec<T>>)
        requires
            old(self).wf(),
            old(self).matches::<T>(*m),
        ensures
            final(self).wf(),
            (*final(self) == PixelMatrixBlockIterator {
                block_idx: (old(self).spec_blocks_amount() - 1) as usize,
                row_in_block_idx: 0,
                col_in_block_idx: 0,
                ..*old(self)
            }),
            r@.len() == old(self).spec_blocks_amount(),
            exists|d: T|
                call_ensures(T::default, (), d) && (forall|k: int|
                    0 <= k < r@.len() ==> #[trigger] r@[k]@ == old(self).spec_block_at(*m, k, d)),
    {
        let d = T::default();
        let amount = self.get_blocks_amount();
        let mut r: Vec<Vec<T>> = Vec::new();
        let mut k: usize = 0;
        self.block_idx = 0;
        self.row_in_block_idx = 0;
        self.col_in_block_idx = 0;
        while k < amount
            invariant
                old(self).wf(),
                old(self).matches::<T>(*m),
                amount == old(self).spec_blocks_amount(),
                k <= amount,
                (*self == PixelMatrixBlockIterator {
                    block_idx: (if k == 0 { 0int } else { k - 1 }) as usize,
                    row_in_block_idx: 0,
                    col_in_block_idx: 0,
                    ..*old(self)
                }),
                r@.len() == k,
                forall|t: int| 0 <= t < k ==> #[trigger] r@[t]@ == old(self).spec_block_at(*m, t, d),
            decreases amount - k,
        {
            self.block_idx = k;
            let mut buf: Vec<T> = Vec::new();
            self.fill_block(m, &mut buf, d);
            proof {
                assert(buf@ == old(self).spec_block_at(*m, k as int, d));
            }
            r.push(buf);
            k = k + 1;
        }
        proof {
            assert(call_ensures(T::default, (), d));
        }
        r
    }
}

} // verus!
