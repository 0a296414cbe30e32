//! Row and pixel iteration over one glyph's bitmap.
//!
//! A glyph bitmap is stored row-major: each scan line occupies
//! `ceil(width / 8)` bytes, and within a row pixel 0 is the
//! most-significant bit of byte 0. A [`Glyph`] hands out one [`GlyphRow`]
//! per scan line, from the front (`next`) or from the back (`next_back`);
//! a [`GlyphRow`] hands out one boolean per pixel, stopping after exactly
//! `width` bits regardless of padding bits in the row's last byte.

use vstd::arithmetic::div_mod::{lemma_div_by_multiple, lemma_div_plus_one};
use vstd::prelude::*;

verus! {

/// Mathematical model of a [`Glyph`]: the bitmap bytes not yet handed
/// out, and the pixel width of each row.
pub ghost struct GlyphModel {
    pub data: Seq<u8>,
    pub width: nat,
}

/// Mathematical model of a [`GlyphRow`]: one row's bytes, the position
/// of the next pixel to produce, and the pixel width.
pub ghost struct GlyphRowModel {
    pub row: Seq<u8>,
    pub bit_idx: nat,
    pub width: nat,
}

/// A cursor over the scan lines of one glyph's bitmap. Cloning it
/// restarts iteration from the clone's current state.
#[derive(Clone, Copy)]
pub struct Glyph<'a> {
    data: &'a [u8],
    width: usize,
}

/// A cursor over the pixels of one scan line, most significant bit of
/// byte 0 first.
#[derive(Clone, Copy)]
pub struct GlyphRow<'a> {
    row: &'a [u8],
    bit_idx: usize,
    width: usize,
}

impl<'a> View for Glyph<'a> {
    type V = GlyphModel;

    closed spec fn view(&self) -> GlyphModel {
        GlyphModel { data: self.data@, width: self.width as nat }
    }
}

impl<'a> View for GlyphRow<'a> {
    type V = GlyphRowModel;

    closed spec fn view(&self) -> GlyphRowModel {
        GlyphRowModel { row: self.row@, bit_idx: self.bit_idx as nat, width: self.width as nat }
    }
}

/// Number of bytes holding one row of `width` pixels: `ceil(width / 8)`.
pub open spec fn bytes_per_row(width: nat) -> nat {
    (width + 7) / 8
}

/// The pixel at column `i` of a row: bit `i % 8` from the
/// most-significant end of byte `i / 8`.
pub open spec fn row_bit(row: Seq<u8>, i: int) -> bool {
    (row[i / 8] & (0x80u8 >> ((i % 8) as u8))) != 0
}

/// The `width` pixels of one row, in column order.
pub open spec fn row_bits(row: Seq<u8>, width: nat) -> Seq<bool> {
    Seq::new(width, |i: int| row_bit(row, i))
}

/// The rows produced by forward iteration: slice `bytes_per_row(width)`
/// bytes off the front while at least that many remain.
pub open spec fn rows_forward(data: Seq<u8>, width: nat) -> Seq<Seq<u8>>
    decreases data.len(),
{
    let b = bytes_per_row(width);
    if b == 0 || data.len() < b {
        Seq::empty()
    } else {
        seq![data.take(b as int)] + rows_forward(data.skip(b as int), width)
    }
}

/// The rows produced by backward iteration: slice `bytes_per_row(width)`
/// bytes off the back while at least that many remain.
pub open spec fn rows_backward(data: Seq<u8>, width: nat) -> Seq<Seq<u8>>
    decreases data.len(),
{
    let b = bytes_per_row(width);
    if b == 0 || data.len() < b {
        Seq::empty()
    } else {
        seq![data.subrange(data.len() - b, data.len() as int)] + rows_backward(
            data.take(data.len() - b),
            width,
        )
    }
}

impl<'a> Glyph<'a> {
    /// Wraps a glyph bitmap slice together with the font's pixel width.
    pub fn new(slice: &'a [u8], width: usize) -> (g: Glyph<'a>)
        ensures
            g@.data == slice@,
            g@.width == width,
    {
        Glyph { data: slice, width }
    }

    /// Produces the front-most remaining row, or `None` when fewer than
    /// a full row of bytes remains; repeated calls walk
    /// [`rows_forward`] of the bitmap.
    pub fn next(&mut self) -> (r: Option<GlyphRow<'a>>)
        requires
            old(self)@.width + 7 <= usize::MAX,
        ensures
            final(self)@.width == old(self)@.width,
            old(self)@.data.len() < bytes_per_row(old(self)@.width) ==> r is None
                && final(self)@.data == old(self)@.data,
            old(self)@.data.len() >= bytes_per_row(old(self)@.width) ==> (r matches Some(row)
                && row@.row == old(self)@.data.take(bytes_per_row(old(self)@.width) as int)
                && row@.bit_idx == 0 && row@.width == old(self)@.width && final(self)@.data
                == old(self)@.data.skip(bytes_per_row(old(self)@.width) as int)),
            old(self)@.data.len() >= bytes_per_row(old(self)@.width) >= 1 ==> (r matches Some(row)
                && rows_forward(old(self)@.data, old(self)@.width) == seq![row@.row]
                + rows_forward(final(self)@.data, old(self)@.width)),
    {
        let b: usize = (self.width + 7) / 8;
        if self.data.len() < b {
            None
        } else {
            let d: &'a [u8] = self.data;
            let row: &'a [u8] = vstd::slice::slice_subrange(d, 0, b);
            self.data = vstd::slice::slice_subrange(d, b, d.len());
            Some(GlyphRow { row, bit_idx: 0, width: self.width })
        }
    }

    /// Produces the back-most remaining row, or `None` when fewer than a
    /// full row of bytes remains; repeated calls walk [`rows_backward`]
    /// of the bitmap, and interleaved calls to both ends meet in the
    /// middle.
    pub fn next_back(&mut self) -> (r: Option<GlyphRow<'a>>)
        requires
            old(self)@.width + 7 <= usize::MAX,
        ensures
            final(self)@.width == old(self)@.width,
            old(self)@.data.len() < bytes_per_row(old(self)@.width) ==> r is None
                && final(self)@.data == old(self)@.data,
            old(self)@.data.len() >= bytes_per_row(old(self)@.width) ==> (r matches Some(row)
                && row@.row == old(self)@.data.subrange(
                old(self)@.data.len() - bytes_per_row(old(self)@.width),
                old(self)@.data.len() as int,
            ) && row@.bit_idx == 0 && row@.width == old(self)@.width && final(self)@.data
                == old(self)@.data.take(old(self)@.data.len() - bytes_per_row(old(self)@.width))),
            old(self)@.data.len() >= bytes_per_row(old(self)@.width) >= 1 ==> (r matches Some(row)
                && rows_backward(old(self)@.data, old(self)@.width) == seq![row@.row]
                + rows_backward(final(self)@.data, old(self)@.width)),
    {
        let b: usize = (self.width + 7) / 8;
        if self.data.len() < b {
            None
        } else {
            let d: &'a [u8] = self.data;
            let split: usize = d.len() - b;
            let row: &'a [u8] = vstd::slice::slice_subrange(d, split, d.len());
            self.data = vstd::slice::slice_subrange(d, 0, split);
            Some(GlyphRow { row, bit_idx: 0, width: self.width })
        }
    }

    /// Number of full rows remaining, computable without consuming them.
    pub fn len(&self) -> (r: usize)
        requires
            1 <= self@.width,
            self@.width + 7 <= usize::MAX,
        ensures
            r == self@.data.len() as int / bytes_per_row(self@.width) as int,
            r == rows_forward(self@.data, self@.width).len(),
    {
        let b: usize = (self.width + 7) / 8;
        proof {
            lemma_rows_forward_len(self@.data, self@.width);
        }
        self.data.len() / b
    }
}

impl<'a> GlyphRow<'a> {
    /// Wraps one row's bytes together with the font's pixel width; the
    /// pixel cursor starts at column 0.
    pub fn new(row: &'a [u8], width: usize) -> (r: GlyphRow<'a>)
        ensures
            r@.row == row@,
            r@.width == width,
            r@.bit_idx == 0,
    {
        GlyphRow { row, bit_idx: 0, width }
    }

    /// Produces the pixel under the cursor and advances it, or `None`
    /// once `width` pixels have been produced.
    pub fn next(&mut self) -> (r: Option<bool>)
        requires
            old(self)@.width <= 8 * old(self)@.row.len(),
        ensures
            final(self)@.row == old(self)@.row,
            final(self)@.width == old(self)@.width,
            old(self)@.bit_idx >= old(self)@.width ==> r is None && final(self)@.bit_idx == old(
                self,
            )@.bit_idx,
            old(self)@.bit_idx < old(self)@.width ==> r == Some(
                row_bit(old(self)@.row, old(self)@.bit_idx as int),
            ) && final(self)@.bit_idx == old(self)@.bit_idx + 1,
    {
        if self.bit_idx >= self.width {
            None
        } else {
            assert(self.bit_idx / 8 < self.row@.len());
            let byte: u8 = *vstd::slice::slice_index_get(self.row, self.bit_idx / 8);
            let mask: u8 = 0x80u8 >> ((self.bit_idx % 8) as u8);
            let bit: bool = (byte & mask) != 0;
            self.bit_idx += 1;
            Some(bit)
        }
    }

    /// Number of pixels remaining before the cursor reaches `width`.
    pub fn len(&self) -> (r: usize)
        ensures
            r == if self@.bit_idx >= self@.width {
                0int
            } else {
                self@.width - self@.bit_idx
            },
    {
        if self.bit_idx >= self.width {
            0
        } else {
            self.width - self.bit_idx
        }
    }
}

/// Forward iteration over `data` yields one row per `bytes_per_row(width)`
/// bytes, trailing partial bytes dropped.
pub proof fn lemma_rows_forward_len(data: Seq<u8>, width: nat)
    requires
        1 <= width,
    ensures
        rows_forward(data, width).len() == data.len() as int / bytes_per_row(width) as int,
    decreases data.len(),
{
    let b = bytes_per_row(width);
    if data.len() < b {
        assert(data.len() as int / b as int == 0) by {
            vstd::arithmetic::div_mod::lemma_basic_div(data.len() as int, b as int);
        }
    } else {
        lemma_rows_forward_len(data.skip(b as int), width);
        assert(1 + (data.len() - b) / b as int == (b + (data.len() - b)) / b as int) by {
            lemma_div_plus_one(data.len() - b, b as int);
        }
    }
}

/// Backward iteration yields exactly as many rows as forward iteration.
pub proof fn lemma_rows_backward_len(data: Seq<u8>, width: nat)
    requires
        1 <= width,
    ensures
        rows_backward(data, width).len() == data.len() as int / bytes_per_row(width) as int,
    decreases data.len(),
{
    let b = bytes_per_row(width);
    if data.len() < b {
        assert(data.len() as int / b as int == 0) by {
            vstd::arithmetic::div_mod::lemma_basic_div(data.len() as int, b as int);
        }
    } else {
        lemma_rows_backward_len(data.take(data.len() - b), width);
        assert(1 + (data.len() - b) / b as int == (b + (data.len() - b)) / b as int) by {
            lemma_div_plus_one(data.len() - b, b as int);
        }
    }
}

/// One row of `width >= 1` pixels occupies at least one byte.
proof fn lemma_bpr_pos(width: nat)
    requires
        1 <= width,
    ensures
        1 <= bytes_per_row(width),
{
    vstd::arithmetic::div_mod::lemma_div_is_ordered(8, width as int + 7, 8);
}

/// The `k`-th row of forward iteration is the `k`-th row-sized chunk of
/// the bitmap, counted from the front.
pub proof fn lemma_rows_forward_index(data: Seq<u8>, width: nat, k: int)
    requires
        1 <= width,
        0 <= k,
        (k + 1) * bytes_per_row(width) <= data.len(),
    ensures
        rows_forward(data, width)[k] == data.subrange(
            k * bytes_per_row(width),
            (k + 1) * bytes_per_row(width),
        ),
    decreases data.len(),
{
    let b = bytes_per_row(width) as int;
    lemma_bpr_pos(width);
    assert((k + 1) * b == k * b + b) by (nonlinear_arith);
    if k == 0 {
        assert(data.take(b) =~= data.subrange(0, b));
    } else {
        assert(k * b == (k - 1) * b + b) by (nonlinear_arith);
        assert(k * b >= b) by (nonlinear_arith)
            requires
                1 <= k,
                1 <= b,
        ;
        lemma_rows_forward_index(data.skip(b), width, k - 1);
        lemma_rows_forward_len(data.skip(b), width);
        assert(k <= (data.len() - b) / b) by {
            vstd::arithmetic::div_mod::lemma_div_is_ordered(k * b, data.len() - b, b);
            lemma_div_by_multiple(k, b);
        }
        assert(rows_forward(data, width) == seq![data.take(b)] + rows_forward(
            data.skip(b),
            width,
        ));
        assert(rows_forward(data, width)[k] == rows_forward(data.skip(b), width)[k - 1]);
        assert(data.skip(b).subrange((k - 1) * b, k * b) =~= data.subrange(k * b, (k + 1) * b));
    }
}

/// The `k`-th row of backward iteration is the `k`-th row-sized chunk of
/// the bitmap, counted from the back.
pub proof fn lemma_rows_backward_index(data: Seq<u8>, width: nat, k: int)
    requires
        1 <= width,
        0 <= k,
        (k + 1) * bytes_per_row(width) <= data.len(),
    ensures
        rows_backward(data, width)[k] == data.subrange(
            data.len() - (k + 1) * bytes_per_row(width),
            data.len() - k * bytes_per_row(width),
        ),
    decreases data.len(),
{
    let b = bytes_per_row(width) as int;
    let n = data.len() as int;
    lemma_bpr_pos(width);
    assert((k + 1) * b == k * b + b) by (nonlinear_arith);
    if k == 0 {
    } else {
        assert(k * b == (k - 1) * b + b) by (nonlinear_arith);
        assert(k * b >= b) by (nonlinear_arith)
            requires
                1 <= k,
                1 <= b,
        ;
        lemma_rows_backward_index(data.take(n - b), width, k - 1);
        lemma_rows_backward_len(data.take(n - b), width);
        assert(k <= (data.len() - b) / b) by {
            vstd::arithmetic::div_mod::lemma_div_is_ordered(k * b, data.len() - b, b);
            lemma_div_by_multiple(k, b);
        }
        assert(rows_backward(data, width) == seq![data.subrange(n - b, n)] + rows_backward(
            data.take(n - b),
            width,
        ));
        assert(rows_backward(data, width)[k] == rows_backward(data.take(n - b), width)[k - 1]);
        assert(data.take(n - b).subrange((n - b) - k * b, (n - b) - (k - 1) * b) =~= data.subrange(
            n - (k + 1) * b,
            n - k * b,
        ));
    }
}

/// Law: on a bitmap holding a whole number of rows, backward row
/// iteration produces exactly the rows of forward iteration in reverse
/// order, each row's bytes (and hence its pixels, in column order)
/// unchanged.
pub proof fn lemma_iteration_symmetry(data: Seq<u8>, width: nat)
    requires
        1 <= width,
        data.len() % bytes_per_row(width) == 0,
    ensures
        rows_backward(data, width) == rows_forward(data, width).reverse(),
{
    let b = bytes_per_row(width) as int;
    let n = data.len() as int;
    let q = n / b;
    lemma_rows_forward_len(data, width);
    lemma_rows_backward_len(data, width);
    assert(q * b == n) by {
        vstd::arithmetic::div_mod::lemma_fundamental_div_mod(n, b);
    }
    let fwd = rows_forward(data, width);
    let bwd = rows_backward(data, width);
    assert forall|k: int| 0 <= k < q implies bwd[k] == fwd.reverse()[k] by {
        lemma_bpr_pos(width);
        assert((k + 1) * b <= n && (q - k) * b <= n) by (nonlinear_arith)
            requires
                0 <= k < q,
                q * b == n,
                1 <= b,
        ;
        lemma_rows_backward_index(data, width, k);
        lemma_rows_forward_index(data, width, q - 1 - k);
        assert((q - 1 - k) * b == n - (k + 1) * b && (q - k) * b == n - k * b) by (nonlinear_arith)
            requires
                q * b == n,
        ;
    }
    assert(bwd =~= fwd.reverse());
}

/// Law: a glyph bitmap of exactly `bytes_per_row(width) * height` bytes
/// yields exactly `height` rows, and each row yields exactly `width`
/// pixel booleans.
pub proof fn lemma_glyph_dimensions(data: Seq<u8>, width: nat, height: nat)
    requires
        1 <= width,
        data.len() == bytes_per_row(width) * height,
    ensures
        rows_forward(data, width).len() == height,
        forall|k: int|
            0 <= k < height ==> row_bits(#[trigger] rows_forward(data, width)[k], width).len()
                == width,
{
    let b = bytes_per_row(width) as int;
    lemma_rows_forward_len(data, width);
    assert((height * b) / b == height) by {
        lemma_div_by_multiple(height as int, b);
    }
    assert(b * height == height * b) by (nonlinear_arith);
}

} // verus!
