//! Row-aligned packing buffers.
//!
//! A [`RowBuffer`] is a growable sequence of packed scalars whose allocated
//! length is always an exact multiple of a fixed row width: it models the
//! rows of a 2D texture that receives the packed glyph data. Whenever an
//! append would exceed the allocated length, the buffer grows by exactly one
//! row width; it never shrinks.

use vstd::prelude::*;

verus! {

/// Mathematical state of a row buffer: the allocated cells, how many of
/// them are used, and the row width.
#[verifier::ext_equal]
pub ghost struct BufferModel {
    pub data: Seq<u16>,
    pub used: int,
    pub row_width: int,
}

/// The row-buffer invariant: a positive row width, an allocated length that
/// is an exact multiple of the row width, and a used length that never
/// exceeds the allocated length. Growth by single rows on demand also keeps
/// the wasted trailing space under one row width.
pub open spec fn buffer_wf(m: BufferModel) -> bool {
    &&& m.row_width >= 1
    &&& m.data.len() % (m.row_width as nat) == 0
    &&& 0 <= m.used <= m.data.len()
    &&& m.data.len() < m.used + m.row_width
}

/// The logically used contents of a buffer.
pub open spec fn buffer_contents(m: BufferModel) -> Seq<u16> {
    m.data.subrange(0, m.used)
}

/// A growable buffer of packed scalars whose allocated length is always a
/// multiple of its row width. Unused trailing cells hold zeros.
pub struct RowBuffer {
    data: Vec<u16>,
    used: usize,
    row_width: usize,
}

impl View for RowBuffer {
    type V = BufferModel;

    closed spec fn view(&self) -> BufferModel {
        BufferModel {
            data: self.data@,
            used: self.used as int,
            row_width: self.row_width as int,
        }
    }
}

impl RowBuffer {
    /// Creates an empty buffer with the given row width.
    pub fn new(row_width: usize) -> (r: RowBuffer)
        requires
            1 <= row_width <= 65536,
        ensures
            buffer_wf(r@),
            r@.used == 0,
            r@.data.len() == 0,
            r@.row_width == row_width,
    {
        RowBuffer { data: Vec::new(), used: 0, row_width }
    }

    /// The fixed row width.
    pub fn row_width(&self) -> (r: usize)
        ensures
            r == self@.row_width,
    {
        self.row_width
    }

    /// The logically used length.
    pub fn len(&self) -> (r: usize)
        ensures
            r == self@.used,
    {
        self.used
    }

    /// The allocated length (always a multiple of the row width).
    pub fn capacity(&self) -> (r: usize)
        ensures
            r == self@.data.len(),
    {
        self.data.len()
    }

    /// Reads one used cell.
    pub fn get(&self, i: usize) -> (r: u16)
        requires
            buffer_wf(self@),
            i < self@.used,
        ensures
            r == buffer_contents(self@)[i as int],
    {
        self.data[i]
    }

    /// Appends one scalar. If the buffer is full, it first grows by exactly
    /// one row width (filling the new row with zeros).
    pub fn push(&mut self, value: u16)
        requires
            buffer_wf(old(self)@),
            old(self)@.data.len() + old(self)@.row_width <= usize::MAX,
        ensures
            buffer_wf(final(self)@),
            final(self)@.row_width == old(self)@.row_width,
            final(self)@.used == old(self)@.used + 1,
            buffer_contents(final(self)@) == buffer_contents(old(self)@).push(value),
            final(self)@.data.len() == if old(self)@.used == old(self)@.data.len() {
                old(self)@.data.len() + old(self)@.row_width
            } else {
                old(self)@.data.len() as int
            },
    {
        let ghost m0 = self@;
        if self.used == self.data.len() {
            let target = self.data.len() + self.row_width;
            while self.data.len() < target
                invariant
                    m0.data.len() <= self.data@.len() <= target,
                    target <= usize::MAX,
                    self.data@.subrange(0, m0.data.len() as int) =~= m0.data,
                    self.used == m0.used,
                    self.row_width == m0.row_width,
                decreases target - self.data.len(),
            {
                self.data.push(0);
            }
            proof {
                assert(self.data@.len() == m0.data.len() + m0.row_width);
                vstd::arithmetic::div_mod::lemma_mod_adds(
                    m0.data.len() as int,
                    m0.row_width,
                    m0.row_width,
                );
                assert(m0.row_width % m0.row_width == 0) by (nonlinear_arith)
                    requires
                        m0.row_width >= 1;
            }
        }
        self.data[self.used] = value;
        self.used = self.used + 1;
        proof {
            assert(buffer_contents(self@) =~= buffer_contents(m0).push(value));
            assert(self@.data.len() % (self@.row_width as nat) == 0);
        }
    }

    /// Appends all scalars of `data`, growing row by row as needed.
    pub fn append(&mut self, data: &Vec<u16>)
        requires
            buffer_wf(old(self)@),
            old(self)@.row_width <= 65536,
            data@.len() <= 131070,
            old(self)@.data.len() + 300000 <= usize::MAX,
        ensures
            buffer_wf(final(self)@),
            final(self)@.row_width == old(self)@.row_width,
            final(self)@.used == old(self)@.used + data@.len(),
            buffer_contents(final(self)@) == buffer_contents(old(self)@) + data@,
    {
        let ghost m0 = self@;
        let n = data.len();
        let mut i: usize = 0;
        proof {
            assert(buffer_contents(self@) =~= buffer_contents(m0) + data@.subrange(0, 0));
        }
        while i < n
            invariant
                0 <= i <= n,
                n == data@.len(),
                n <= 131070,
                buffer_wf(self@),
                self@.row_width == m0.row_width,
                m0.row_width <= 65536,
                self@.used == m0.used + i,
                m0.data.len() + 300000 <= usize::MAX,
                m0.used <= m0.data.len(),
                buffer_contents(self@) == buffer_contents(m0) + data@.subrange(0, i as int),
            decreases n - i,
        {
            proof {
                assert(buffer_contents(m0) + data@.subrange(0, i as int + 1) =~= (buffer_contents(
                    m0,
                ) + data@.subrange(0, i as int)).push(data@[i as int]));
            }
            self.push(data[i]);
            i = i + 1;
        }
        proof {
            assert(data@.subrange(0, n as int) =~= data@);
        }
    }
}

} // verus!
