//! PSF2 font parsing and glyph resolution.
//!
//! A PSF2 file is a 32-byte header, then `num_glyphs * bytes_per_glyph`
//! bytes of packed glyph bitmaps, then a Unicode mapping table that
//! associates UTF-8 byte sequences with glyph indices. [`PSF2Font`]
//! borrows the caller's buffer for its entire lifetime and resolves a
//! UTF-8 sequence through three tiers: an ASCII fast path, a bounded
//! round-robin cache, and a linear scan of the mapping table.

use crate::cache::{
    cache_insert_model,
    cache_lookup,
    cache_wf,
    empty_cache,
    Cache,
    CacheModel,
};
use crate::glyph::Glyph;
use vstd::prelude::*;

verus! {

/// The PSF2 magic number, stored least-significant byte first.
pub const PSF2_MAGIC: [u8; 4] = [0x72, 0xb5, 0x4a, 0x86];

/// Why construction of a header or font failed. Every failure is
/// reported as a value; construction never panics.
#[derive(Clone, Copy, Debug, PartialEq, Eq)]
pub enum PSF2Error {
    /// The buffer holds fewer than the 32 bytes of a PSF2 header.
    HeaderTooShort,
    /// The first four bytes are not the PSF2 magic number.
    BadMagic,
    /// The version field is not 0.
    UnsupportedVersion,
    /// The buffer ends before the end of the glyph bitmap table.
    TruncatedData,
}

/// The eight fields of a PSF2 header. All multi-byte fields are
/// little-endian unsigned 32-bit integers; beyond magic and version they
/// are accepted as-is, so a corrupt file can carry inconsistent values.
#[derive(Debug, Clone, Copy)]
pub struct PSF2Header {
    /// The magic number identifying a PSF2 file.
    pub magic: [u8; 4],
    /// Format version; only 0 is supported.
    pub version: u32,
    /// Byte offset where the glyph bitmaps begin.
    pub header_size: u32,
    /// Bit 0 signals the presence of a Unicode table.
    pub flags: u32,
    /// Number of glyphs in the font.
    pub num_glyphs: u32,
    /// Size of each glyph bitmap in bytes.
    pub bytes_per_glyph: u32,
    /// Height of each glyph in pixels.
    pub height: u32,
    /// Width of each glyph in pixels.
    pub width: u32,
}

/// The unsigned 32-bit little-endian integer stored at offset `off`.
pub open spec fn le32_at(b: Seq<u8>, off: int) -> nat {
    b[off] as nat + 256 * (b[off + 1] as nat) + 65536 * (b[off + 2] as nat) + 16777216 * (b[off
        + 3] as nat)
}

/// True when the buffer starts with the PSF2 magic number.
pub open spec fn magic_ok(b: Seq<u8>) -> bool {
    b.len() >= 4 && b[0] == 0x72u8 && b[1] == 0xb5u8 && b[2] == 0x4au8 && b[3] == 0x86u8
}

/// True when the buffer holds a complete, supported PSF2 header: at
/// least 32 bytes, the magic number, and version 0.
pub open spec fn header_ok(b: Seq<u8>) -> bool {
    b.len() >= 32 && magic_ok(b) && le32_at(b, 4) == 0
}

/// Number of buffer bytes the header claims to precede the Unicode
/// table: the glyph-table offset plus the glyph table's size.
pub open spec fn data_needed(b: Seq<u8>) -> nat {
    le32_at(b, 8) + le32_at(b, 16) * le32_at(b, 20)
}

/// Reads the little-endian u32 at offset `off`.
fn le_u32_at(bytes: &[u8], off: usize) -> (r: u32)
    requires
        off + 4 <= bytes@.len(),
    ensures
        r as nat == le32_at(bytes@, off as int),
{
    proof {
        vstd::slice::axiom_spec_len(bytes);
    }
    let b0: u32 = *vstd::slice::slice_index_get(bytes, off) as u32;
    let b1: u32 = *vstd::slice::slice_index_get(bytes, off + 1) as u32;
    let b2: u32 = *vstd::slice::slice_index_get(bytes, off + 2) as u32;
    let b3: u32 = *vstd::slice::slice_index_get(bytes, off + 3) as u32;
    b0 + 256 * b1 + 65536 * b2 + 16777216 * b3
}

impl PSF2Header {
    /// Builds a header value from the given fields, unvalidated.
    pub fn new(
        magic: [u8; 4],
        version: u32,
        header_size: u32,
        flags: u32,
        num_glyphs: u32,
        bytes_per_glyph: u32,
        height: u32,
        width: u32,
    ) -> (h: PSF2Header)
        ensures
            h.magic == magic,
            h.version == version,
            h.header_size == header_size,
            h.flags == flags,
            h.num_glyphs == num_glyphs,
            h.bytes_per_glyph == bytes_per_glyph,
            h.height == height,
            h.width == width,
    {
        PSF2Header {
            magic,
            version,
            header_size,
            flags,
            num_glyphs,
            bytes_per_glyph,
            height,
            width,
        }
    }

    /// Parses and validates a PSF2 header: the buffer must hold at least
    /// 32 bytes, start with the magic number, and carry version 0; each
    /// failure is reported with its own error. The six remaining fields
    /// are decoded little-endian with no further validation.
    pub fn from_bytes(bytes: &[u8]) -> (r: Result<PSF2Header, PSF2Error>)
        ensures
            r is Ok <==> header_ok(bytes@),
            r == Err::<PSF2Header, PSF2Error>(PSF2Error::HeaderTooShort) <==> bytes@.len() < 32,
            r == Err::<PSF2Header, PSF2Error>(PSF2Error::BadMagic) <==> bytes@.len() >= 32
                && !magic_ok(bytes@),
            r == Err::<PSF2Header, PSF2Error>(PSF2Error::UnsupportedVersion) <==> bytes@.len()
                >= 32 && magic_ok(bytes@) && le32_at(bytes@, 4) != 0,
            r matches Ok(h) ==> h.magic@ == bytes@.subrange(0, 4) && h.version == 0
                && h.header_size as nat == le32_at(bytes@, 8) && h.flags as nat == le32_at(
                bytes@,
                12,
            ) && h.num_glyphs as nat == le32_at(bytes@, 16) && h.bytes_per_glyph as nat == le32_at(
                bytes@,
                20,
            ) && h.height as nat == le32_at(bytes@, 24) && h.width as nat == le32_at(bytes@, 28),
    {
        if bytes.len() < 32 {
            return Err(PSF2Error::HeaderTooShort);
        }
        let m0: u8 = *vstd::slice::slice_index_get(bytes, 0);
        let m1: u8 = *vstd::slice::slice_index_get(bytes, 1);
        let m2: u8 = *vstd::slice::slice_index_get(bytes, 2);
        let m3: u8 = *vstd::slice::slice_index_get(bytes, 3);
        if !(m0 == 0x72 && m1 == 0xb5 && m2 == 0x4a && m3 == 0x86) {
            return Err(PSF2Error::BadMagic);
        }
        let magic: [u8; 4] = [m0, m1, m2, m3];
        proof {
            assert(magic@ =~= bytes@.subrange(0, 4));
        }
        let version: u32 = le_u32_at(bytes, 4);
        if version != 0 {
            return Err(PSF2Error::UnsupportedVersion);
        }
        let header_size: u32 = le_u32_at(bytes, 8);
        let flags: u32 = le_u32_at(bytes, 12);
        let num_glyphs: u32 = le_u32_at(bytes, 16);
        let bytes_per_glyph: u32 = le_u32_at(bytes, 20);
        let height: u32 = le_u32_at(bytes, 24);
        let width: u32 = le_u32_at(bytes, 28);
        Ok(
            PSF2Header::new(
                magic,
                version,
                header_size,
                flags,
                num_glyphs,
                bytes_per_glyph,
                height,
                width,
            ),
        )
    }
}

/// Table byte separating multiple alias sequences within one glyph's
/// record.
pub const START_SEQ: u8 = 0xFE;

/// Table byte terminating one glyph's record; two in a row at a record
/// boundary terminate the whole table.
pub const END_REC: u8 = 0xFF;

/// Byte length of a UTF-8 scalar sequence, determined by its leading
/// byte; 0 when the byte cannot lead a sequence.
pub open spec fn utf8_seq_len(b: u8) -> nat {
    if b <= 0x7F {
        1
    } else if 0xC2 <= b && b <= 0xDF {
        2
    } else if 0xE0 <= b && b <= 0xEF {
        3
    } else if 0xF0 <= b && b <= 0xF4 {
        4
    } else {
        0
    }
}

/// Table bytes not yet walked, clamped at zero; the termination measure
/// of the scan model.
pub open spec fn rem_len(table: Seq<u8>, p: int) -> int {
    if p <= table.len() {
        table.len() - p
    } else {
        0
    }
}

/// The scan outcome from a record boundary at `p`, with `g` records
/// already passed: the walk ends with no match at the table's end or at
/// a doubled end-of-record marker, and otherwise walks the record at
/// `p`. This models the whole table walk when applied at `p == 0`,
/// `g == 0`; a walk that runs past the end of the table (which a
/// well-formed table's terminator makes unreachable) yields no match.
pub open spec fn scan_table(table: Seq<u8>, query: Seq<u8>, p: int, g: nat) -> Option<nat>
    decreases rem_len(table, p), 2int,
{
    if p >= table.len() {
        None
    } else if p + 2 <= table.len() && table[p] == END_REC && table[p + 1] == END_REC {
        None
    } else {
        scan_record(table, query, p, g)
    }
}

/// The scan outcome from position `p` inside record `g`: a continuation
/// marker starts the next alias, an end-of-record marker finishes the
/// record (counting it), and any other byte starts an alias sequence,
/// which fails the whole scan when it is not a valid leading byte.
pub open spec fn scan_record(table: Seq<u8>, query: Seq<u8>, p: int, g: nat) -> Option<nat>
    decreases rem_len(table, p), 0int,
{
    if p >= table.len() {
        None
    } else if table[p] == START_SEQ {
        scan_record(table, query, p + 1, g)
    } else if table[p] == END_REC {
        scan_table(table, query, p + 1, g + 1)
    } else {
        let l = utf8_seq_len(table[p]);
        if l == 0 {
            None
        } else {
            scan_alias(table, query, p, p + l, g)
        }
    }
}

/// The scan outcome while consuming the alias that began at `start`,
/// with the cursor at `q`: scalar sequences are consumed until a marker
/// or the table's end, then the alias bytes are compared against the
/// query; on a match the scan returns `g` — the record's end-of-record
/// marker has not been consumed yet, so the running index is still the
/// matching record's. A malformed leading byte, or a scalar sequence
/// running past the table's end, fails the whole scan.
pub open spec fn scan_alias(table: Seq<u8>, query: Seq<u8>, start: int, q: int, g: nat) -> Option<
    nat,
>
    decreases rem_len(table, q), 1int,
{
    if q > table.len() {
        None
    } else if q == table.len() || table[q] == START_SEQ || table[q] == END_REC {
        if table.subrange(start, q) == query {
            Some(g)
        } else if q == table.len() {
            None
        } else {
            scan_record(table, query, q, g)
        }
    } else {
        let l = utf8_seq_len(table[q]);
        if l == 0 {
            None
        } else {
            scan_alias(table, query, start, q + l, g)
        }
    }
}

/// What a scan of the whole mapping table yields for `query`.
pub open spec fn scan_result(table: Seq<u8>, query: Seq<u8>) -> Option<nat> {
    scan_table(table, query, 0, 0)
}

/// True when `a` and `b` hold the same bytes.
fn slices_equal(a: &[u8], b: &[u8]) -> (r: bool)
    ensures
        r == (a@ == b@),
{
    if a.len() != b.len() {
        return false;
    }
    let n: usize = a.len();
    let mut j: usize = 0;
    while j < n
        invariant
            j <= n,
            n == a@.len(),
            a@.len() == b@.len(),
            forall|k: int| 0 <= k < j ==> a@[k] == b@[k],
        decreases n - j,
    {
        if *vstd::slice::slice_index_get(a, j) != *vstd::slice::slice_index_get(b, j) {
            return false;
        }
        j += 1;
    }
    proof {
        assert(a@ =~= b@);
    }
    true
}

/// Mathematical model of a [`PSF2Font`]: the copied header scalars, the
/// bytes of the glyph table and of the Unicode mapping table, and the
/// cache state.
pub ghost struct FontModel {
    pub height: nat,
    pub width: nat,
    pub header_size: nat,
    pub bytes_per_glyph: nat,
    pub num_glyphs: nat,
    pub glyphs: Seq<u8>,
    pub unicode: Seq<u8>,
    pub cache: CacheModel,
}

/// A PSF2 font borrowing the caller's byte buffer. Immutable except for
/// the lookup cache, which mutates on non-ASCII, non-cached lookups.
pub struct PSF2Font<'a> {
    /// Height of each glyph in pixels.
    pub height: u32,
    /// Width of each glyph in pixels.
    pub width: u32,
    /// Size of the PSF2 header in bytes.
    pub header_size: u32,
    /// Size of each glyph bitmap in bytes.
    pub bytes_per_glyph: u32,
    /// Number of glyphs in the font.
    pub num_glyphs: u32,
    glyphs: &'a [u8],
    unicode_mapping: &'a [u8],
    cache: Cache,
}

impl<'a> View for PSF2Font<'a> {
    type V = FontModel;

    closed spec fn view(&self) -> FontModel {
        FontModel {
            height: self.height as nat,
            width: self.width as nat,
            header_size: self.header_size as nat,
            bytes_per_glyph: self.bytes_per_glyph as nat,
            num_glyphs: self.num_glyphs as nat,
            glyphs: self.glyphs@,
            unicode: self.unicode_mapping@,
            cache: self.cache@,
        }
    }
}

/// Well-formedness: the glyph table covers exactly `num_glyphs` bitmaps
/// of `bytes_per_glyph` bytes each, and the cache is well-formed.
/// `PSF2Font::new` establishes this and every method preserves it.
pub open spec fn font_wf(f: FontModel) -> bool {
    &&& f.glyphs.len() == f.num_glyphs * f.bytes_per_glyph
    &&& cache_wf(f.cache)
}

/// The bitmap bytes of glyph `i`: the `i`-th `bytes_per_glyph`-sized
/// chunk of the glyph table.
pub open spec fn glyph_slice(f: FontModel, i: nat) -> Seq<u8> {
    f.glyphs.subrange((i * f.bytes_per_glyph) as int, ((i + 1) * f.bytes_per_glyph) as int)
}

/// True when the query takes the ASCII fast path: exactly one byte with
/// value at most 0x7F, used directly as the glyph index.
pub open spec fn ascii_query(text: Seq<u8>) -> bool {
    text.len() == 1 && text[0] <= 0x7F
}

/// The glyph index the three-tier resolution yields for `text`: the
/// ASCII fast path, else the first matching cache entry, else the
/// mapping-table scan.
pub open spec fn resolve_index(f: FontModel, text: Seq<u8>) -> Option<nat> {
    if ascii_query(text) {
        Some(text[0] as nat)
    } else {
        match cache_lookup(f.cache, text) {
            Some(i) => Some(i),
            None => scan_result(f.unicode, text),
        }
    }
}

/// The bitmap slice a lookup of `text` returns: glyph
/// `resolve_index(f, text)` when that index is in range, `None` when no
/// tier matched or the index is out of range.
pub open spec fn lookup_result(f: FontModel, text: Seq<u8>) -> Option<Seq<u8>> {
    match resolve_index(f, text) {
        Some(i) => if i < f.num_glyphs {
            Some(glyph_slice(f, i))
        } else {
            None
        },
        None => None,
    }
}

/// The cache state a lookup of `text` leaves behind: unchanged unless
/// the scan tier resolved the query, in which case the pair is inserted
/// (even when the resolved index then turns out to be out of range).
pub open spec fn cache_after_lookup(f: FontModel, text: Seq<u8>) -> CacheModel {
    if ascii_query(text) {
        f.cache
    } else {
        match cache_lookup(f.cache, text) {
            Some(i) => f.cache,
            None => match scan_result(f.unicode, text) {
                Some(i) => cache_insert_model(f.cache, text, i),
                None => f.cache,
            },
        }
    }
}

impl<'a> PSF2Font<'a> {
    /// Creates a font from a complete PSF2 file buffer: parses and
    /// validates the header, then slices out the glyph table and the
    /// Unicode mapping table. Fails with `TruncatedData` when the buffer
    /// ends before the glyph table does.
    pub fn new(data: &'a [u8]) -> (r: Result<PSF2Font<'a>, PSF2Error>)
        ensures
            r is Ok <==> header_ok(data@) && data@.len() >= data_needed(data@),
            r == Err::<PSF2Font<'a>, PSF2Error>(PSF2Error::HeaderTooShort) <==> data@.len() < 32,
            r == Err::<PSF2Font<'a>, PSF2Error>(PSF2Error::BadMagic) <==> data@.len() >= 32
                && !magic_ok(data@),
            r == Err::<PSF2Font<'a>, PSF2Error>(PSF2Error::UnsupportedVersion) <==> data@.len()
                >= 32 && magic_ok(data@) && le32_at(data@, 4) != 0,
            r == Err::<PSF2Font<'a>, PSF2Error>(PSF2Error::TruncatedData) <==> header_ok(data@)
                && data@.len() < data_needed(data@),
            r matches Ok(f) ==> f@.height == le32_at(data@, 24) && f@.width == le32_at(data@, 28)
                && f@.header_size == le32_at(data@, 8) && f@.bytes_per_glyph == le32_at(data@, 20)
                && f@.num_glyphs == le32_at(data@, 16) && f@.glyphs == data@.subrange(
                le32_at(data@, 8) as int,
                data_needed(data@) as int,
            ) && f@.unicode == data@.subrange(data_needed(data@) as int, data@.len() as int)
                && f@.cache == empty_cache() && font_wf(f@),
    {
        let header = PSF2Header::from_bytes(data)?;

        let glyphs_offset: u64 = header.header_size as u64;
        proof {
            assert(header.num_glyphs as int * header.bytes_per_glyph as int <= 0xffff_ffff
                * 0xffff_ffff) by (nonlinear_arith)
                requires
                    header.num_glyphs <= 0xffff_ffffu32,
                    header.bytes_per_glyph <= 0xffff_ffffu32,
            ;
        }
        let glyphs_size: u64 = header.num_glyphs as u64 * header.bytes_per_glyph as u64;
        let unicode_offset: u64 = glyphs_offset + glyphs_size;

        if (data.len() as u64) < unicode_offset {
            return Err(PSF2Error::TruncatedData);
        }

        let go: usize = glyphs_offset as usize;
        let uo: usize = unicode_offset as usize;
        let glyphs: &'a [u8] = vstd::slice::slice_subrange(data, go, uo);
        let unicode_mapping: &'a [u8] = vstd::slice::slice_subrange(data, uo, data.len());

        Ok(
            PSF2Font {
                height: header.height,
                width: header.width,
                header_size: header.header_size,
                bytes_per_glyph: header.bytes_per_glyph,
                num_glyphs: header.num_glyphs,
                glyphs,
                unicode_mapping,
                cache: Cache::new(),
            },
        )
    }

    /// Returns glyph `idx`'s bitmap, a slice of exactly
    /// `bytes_per_glyph` bytes, or `None` when `idx` is out of range.
    pub fn glyph_by_idx(&self, idx: u32) -> (r: Option<&'a [u8]>)
        requires
            font_wf(self@),
        ensures
            (idx as nat) < self@.num_glyphs ==> (r matches Some(s) && s@ == glyph_slice(
                self@,
                idx as nat,
            ) && s@.len() == self@.bytes_per_glyph),
            (idx as nat) >= self@.num_glyphs ==> r is None,
    {
        if idx < self.num_glyphs {
            proof {
                vstd::slice::axiom_spec_len(self.glyphs);
                assert((idx as int + 1) * (self.bytes_per_glyph as int) <= (self.num_glyphs as int)
                    * (self.bytes_per_glyph as int) && (idx as int + 1) * (self.bytes_per_glyph
                    as int) == (idx as int) * (self.bytes_per_glyph as int)
                    + self.bytes_per_glyph as int) by (nonlinear_arith)
                    requires
                        idx < self.num_glyphs,
                        0 <= self.bytes_per_glyph as int,
                ;
                assert((idx as int) * (self.bytes_per_glyph as int) >= 0) by (nonlinear_arith)
                    requires
                        0 <= idx as int,
                        0 <= self.bytes_per_glyph as int,
                ;
            }
            let offset: usize = (idx as usize) * (self.bytes_per_glyph as usize);
            let end: usize = offset + self.bytes_per_glyph as usize;
            Some(vstd::slice::slice_subrange(self.glyphs, offset, end))
        } else {
            None
        }
    }

    /// Byte length of one UTF-8 scalar sequence given its leading byte;
    /// `None` on a continuation or otherwise invalid byte.
    pub fn next_utf8_len(b: u8) -> (r: Option<usize>)
        ensures
            match r {
                Some(l) => utf8_seq_len(b) == l && 1 <= l <= 4,
                None => utf8_seq_len(b) == 0,
            },
    {
        if b <= 0x7F {
            Some(1)
        } else if 0xC2 <= b && b <= 0xDF {
            Some(2)
        } else if 0xE0 <= b && b <= 0xEF {
            Some(3)
        } else if 0xF0 <= b && b <= 0xF4 {
            Some(4)
        } else {
            None
        }
    }

    /// Walks the Unicode mapping table for an alias equal to `sequence`
    /// and returns the index of the record holding it, as
    /// [`scan_result`] describes. The walk is linear in the table; the
    /// cache in front of it exists to amortize this cost.
    pub fn scan_unicode_table(&self, table: &[u8], sequence: &[u8]) -> (r: Option<u32>)
        requires
            table@.len() < 0x1_0000_0000,
        ensures
            match r {
                Some(i) => scan_result(table@, sequence@) == Some(i as nat),
                None => scan_result(table@, sequence@) is None,
            },
    {
        let mut p: usize = 0;
        let mut glyph_idx: u32 = 0;

        while p < table.len()
            invariant
                table@.len() < 0x1_0000_0000,
                p <= table@.len(),
                glyph_idx as nat <= p as nat,
                scan_result(table@, sequence@) == scan_table(
                    table@,
                    sequence@,
                    p as int,
                    glyph_idx as nat,
                ),
            decreases table@.len() - p,
        {
            let ghost p_entry: int = p as int;

            // Two end-of-record markers at a record boundary end the table.
            if p + 1 < table.len() {
                let c0: u8 = *vstd::slice::slice_index_get(table, p);
                let c1: u8 = *vstd::slice::slice_index_get(table, p + 1);
                if c0 == END_REC && c1 == END_REC {
                    return None;
                }
            }
            assert(scan_table(table@, sequence@, p as int, glyph_idx as nat) == scan_record(
                table@,
                sequence@,
                p as int,
                glyph_idx as nat,
            ));

            loop
                invariant_except_break
                    table@.len() < 0x1_0000_0000,
                    p_entry <= p <= table@.len(),
                    glyph_idx as nat <= p as nat,
                    scan_result(table@, sequence@) == scan_record(
                        table@,
                        sequence@,
                        p as int,
                        glyph_idx as nat,
                    ),
                ensures
                    p_entry < p <= table@.len(),
                    glyph_idx as nat <= p as nat,
                    scan_result(table@, sequence@) == scan_table(
                        table@,
                        sequence@,
                        p as int,
                        glyph_idx as nat,
                    ),
                decreases table@.len() - p,
            {
                if p == table.len() {
                    return None;
                }
                let b: u8 = *vstd::slice::slice_index_get(table, p);
                if b == START_SEQ {
                    p += 1;
                } else if b == END_REC {
                    glyph_idx += 1;
                    p += 1;
                    break;
                } else {
                    let start: usize = p;
                    let l: usize = match Self::next_utf8_len(b) {
                        Some(l) => l,
                        None => {
                            return None;
                        },
                    };
                    if table.len() - p < l {
                        proof {
                            assert(scan_record(table@, sequence@, p as int, glyph_idx as nat)
                                == scan_alias(
                                table@,
                                sequence@,
                                p as int,
                                p as int + l,
                                glyph_idx as nat,
                            ));
                            assert(scan_alias(
                                table@,
                                sequence@,
                                p as int,
                                p as int + l,
                                glyph_idx as nat,
                            ) is None);
                        }
                        return None;
                    }
                    p += l;
                    loop
                        invariant_except_break
                            table@.len() < 0x1_0000_0000,
                            start < p <= table@.len(),
                            glyph_idx as nat <= start as nat,
                            scan_result(table@, sequence@) == scan_alias(
                                table@,
                                sequence@,
                                start as int,
                                p as int,
                                glyph_idx as nat,
                            ),
                        ensures
                            start < p <= table@.len(),
                            glyph_idx as nat <= start as nat,
                            p == table@.len() || table@[p as int] == START_SEQ || table@[p as int]
                                == END_REC,
                            scan_result(table@, sequence@) == scan_alias(
                                table@,
                                sequence@,
                                start as int,
                                p as int,
                                glyph_idx as nat,
                            ),
                        decreases table@.len() - p,
                    {
                        if p == table.len() {
                            break;
                        }
                        let c: u8 = *vstd::slice::slice_index_get(table, p);
                        if c == START_SEQ || c == END_REC {
                            break;
                        }
                        let l2: usize = match Self::next_utf8_len(c) {
                            Some(l2) => l2,
                            None => {
                                return None;
                            },
                        };
                        if table.len() - p < l2 {
                            proof {
                                assert(scan_alias(
                                    table@,
                                    sequence@,
                                    start as int,
                                    p as int,
                                    glyph_idx as nat,
                                ) == scan_alias(
                                    table@,
                                    sequence@,
                                    start as int,
                                    p as int + l2,
                                    glyph_idx as nat,
                                ));
                                assert(scan_alias(
                                    table@,
                                    sequence@,
                                    start as int,
                                    p as int + l2,
                                    glyph_idx as nat,
                                ) is None);
                            }
                            return None;
                        }
                        p += l2;
                    }
                    let alias: &[u8] = vstd::slice::slice_subrange(table, start, p);
                    if slices_equal(alias, sequence) {
                        return Some(glyph_idx);
                    }
                    if p == table.len() {
                        return None;
                    }
                }
            }
        }
        None
    }

    /// Resolves one UTF-8 byte sequence to its glyph bitmap through
    /// three tiers, first match winning: a single ASCII byte is used
    /// directly as the glyph index; otherwise the cache is consulted;
    /// otherwise the Unicode mapping table is scanned and a hit is
    /// inserted into the cache. Whatever tier yields the index, an
    /// out-of-range index gives `None`, never a panic.
    pub fn get_glyph_data(&mut self, text: &[u8]) -> (r: Option<&'a [u8]>)
        requires
            font_wf(old(self)@),
            old(self)@.unicode.len() < 0x1_0000_0000,
        ensures
            font_wf(final(self)@),
            final(self)@ == (FontModel {
                cache: cache_after_lookup(old(self)@, text@),
                ..old(self)@
            }),
            match r {
                Some(s) => lookup_result(old(self)@, text@) == Some(s@),
                None => lookup_result(old(self)@, text@) is None,
            },
    {
        if text.len() == 1 {
            let b: u8 = *vstd::slice::slice_index_get(text, 0);
            if b <= 0x7F {
                return self.glyph_by_idx(b as u32);
            }
        }

        if let Some(idx) = self.cache.get(text) {
            return self.glyph_by_idx(idx);
        }

        let table: &'a [u8] = self.unicode_mapping;
        if let Some(idx) = self.scan_unicode_table(table, text) {
            self.cache.insert(text, idx);
            return self.glyph_by_idx(idx);
        }

        None
    }

    /// Resolves a UTF-8 byte sequence as [`Self::get_glyph_data`] does
    /// and wraps the bitmap with the font's width, ready for row
    /// iteration.
    pub fn glyph_for_utf8(&mut self, text: &[u8]) -> (r: Option<Glyph<'a>>)
        requires
            font_wf(old(self)@),
            old(self)@.unicode.len() < 0x1_0000_0000,
        ensures
            font_wf(final(self)@),
            final(self)@ == (FontModel {
                cache: cache_after_lookup(old(self)@, text@),
                ..old(self)@
            }),
            match r {
                Some(g) => lookup_result(old(self)@, text@) == Some(g@.data) && g@.width == old(
                    self,
                )@.width,
                None => lookup_result(old(self)@, text@) is None,
            },
    {
        match self.get_glyph_data(text) {
            Some(d) => Some(Glyph::new(d, self.width as usize)),
            None => None,
        }
    }
}

/// Law: ASCII fast path. Looking up the single byte `b <= 0x7F` yields
/// exactly what `glyph_by_idx` yields for index `b` — glyph `b`'s bitmap
/// when `b` is in range, no match otherwise — and leaves the cache
/// untouched.
pub proof fn lemma_ascii_fast_path(f: FontModel, b: u8)
    requires
        b <= 0x7F,
    ensures
        lookup_result(f, seq![b]) == (if (b as nat) < f.num_glyphs {
            Some(glyph_slice(f, b as nat))
        } else {
            None::<Seq<u8>>
        }),
        cache_after_lookup(f, seq![b]) == f.cache,
{
    assert(ascii_query(seq![b]));
}

/// Law: cache idempotence. For a non-ASCII query, a lookup returns the
/// same result on the state it itself left behind — in particular, a
/// scan hit is found in the cache on the second call — and that second
/// lookup leaves the cache unchanged.
pub proof fn lemma_lookup_idempotent(f: FontModel, text: Seq<u8>)
    requires
        font_wf(f),
        !ascii_query(text),
    ensures
        ({
            let f1 = FontModel { cache: cache_after_lookup(f, text), ..f };
            lookup_result(f1, text) == lookup_result(f, text) && cache_after_lookup(f1, text)
                == f1.cache
        }),
{
    let f1 = FontModel { cache: cache_after_lookup(f, text), ..f };
    match cache_lookup(f.cache, text) {
        Some(i) => {
            assert(f1 == f);
        },
        None => {
            match scan_result(f.unicode, text) {
                Some(i) => {
                    if text.len() > crate::cache::MAX_KEY_SIZE {
                        assert(f1 == f);
                    } else {
                        crate::cache::lemma_lookup_after_insert(f.cache, text, i);
                        assert(cache_lookup(f1.cache, text) == Some(i));
                    }
                },
                None => {
                    assert(f1 == f);
                },
            }
        },
    }
}

} // verus!

