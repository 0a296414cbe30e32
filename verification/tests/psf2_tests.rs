//! End-to-end tests over in-memory PSF2 font buffers.
//!
//! Each buffer is a complete PSF2 file: a 32-byte header, a glyph table
//! of `num_glyphs * bytes_per_glyph` bytes, and a Unicode mapping table
//! in which glyph `i < 64` carries the aliases `[i]` and `[0xC3, 0x80 + i]`,
//! glyph 64 carries `[64]` and the euro sign, and every later glyph
//! carries only its own ASCII byte.

use spleen_font::psf::{PSF2Error, PSF2Font, PSF2Header, PSF2_MAGIC};
use spleen_font::{Cache, Glyph, GlyphRow};

fn push_le32(buf: &mut Vec<u8>, v: u32) {
    buf.push((v & 0xFF) as u8);
    buf.push(((v >> 8) & 0xFF) as u8);
    buf.push(((v >> 16) & 0xFF) as u8);
    buf.push(((v >> 24) & 0xFF) as u8);
}

/// Bytes whose first five bits (MSB first) read the same in both
/// directions, so reversed pixel streams compare cleanly.
const ROW_PATTERNS: [u8; 8] = [0x00, 0x20, 0x50, 0x70, 0x88, 0xA8, 0xD8, 0xF8];

/// A 5x8 font with `num_glyphs` glyphs (one byte per row) and the
/// Unicode table described at the top of this file.
fn make_font_with(num_glyphs: u32) -> Vec<u8> {
    let mut buf: Vec<u8> = Vec::new();
    buf.extend_from_slice(&PSF2_MAGIC);
    push_le32(&mut buf, 0); // version
    push_le32(&mut buf, 32); // header_size
    push_le32(&mut buf, 1); // flags: has a Unicode table
    push_le32(&mut buf, num_glyphs);
    push_le32(&mut buf, 8); // bytes_per_glyph = ceil(5/8) * 8
    push_le32(&mut buf, 8); // height
    push_le32(&mut buf, 5); // width

    for i in 0..num_glyphs {
        for r in 0..8u32 {
            buf.push(ROW_PATTERNS[((i + r) % 8) as usize]);
        }
    }

    for i in 0..num_glyphs {
        buf.push((i % 128) as u8);
        if i < 64 {
            buf.push(0xFE);
            buf.push(0xC3);
            buf.push(0x80 + i as u8);
        } else if i == 64 {
            buf.push(0xFE);
            buf.push(0xE2);
            buf.push(0x82);
            buf.push(0xAC);
        }
        buf.push(0xFF);
    }
    buf.push(0xFF);
    buf.push(0xFF);
    buf
}

fn make_font() -> Vec<u8> {
    make_font_with(128)
}

#[test]
fn header_round_trip() {
    let blob = make_font();
    let hdr = PSF2Header::from_bytes(&blob[..32]).unwrap();

    assert_eq!(hdr.magic, PSF2_MAGIC);
    assert_eq!(hdr.version, 0);
    assert_eq!(hdr.header_size, 32);
    assert!(hdr.width > 0 && hdr.height > 0);
    assert_eq!(hdr.bytes_per_glyph, ((hdr.width + 7) >> 3) * hdr.height);
}

#[test]
fn header_rejects_invalid_magic() {
    let mut bad = make_font();
    bad[0] = 0; // corrupt magic
    assert!(PSF2Header::from_bytes(&bad).is_err());
}

#[test]
fn open_font_and_first_last_glyph() {
    let blob = make_font();
    let font = PSF2Font::new(&blob).unwrap();

    // First glyph should be 0 and not empty.
    assert!(!font.glyph_by_idx(0).unwrap().is_empty());

    // Last glyph index = num_glyphs - 1
    let last = font.glyph_by_idx(font.num_glyphs - 1).unwrap();
    assert_eq!(last.len(), font.bytes_per_glyph as usize);

    // Out-of-range must be None (overflow-safe)
    assert!(font.glyph_by_idx(font.num_glyphs).is_none());
}

// ASCII fast path and cache hit
#[test]
fn ascii_fast_then_cached() {
    let blob = make_font();
    let mut font = PSF2Font::new(&blob).unwrap();

    // first call -> cold
    let g1 = font.get_glyph_data(&[b'A']).unwrap();
    // second call -> same borrowed bytes
    let g2 = font.get_glyph_data(&[b'A']).unwrap();
    assert!(core::ptr::eq(g1.as_ptr(), g2.as_ptr()));
}

// Unicode lookup (é) & iterator correctness
#[test]
fn unicode_lookup_and_iter() {
    let blob = make_font();
    let mut font = PSF2Font::new(&blob).unwrap();
    let mut tmp = [0u8; 2];
    let utf8 = 'é'.encode_utf8(&mut tmp);

    let glyph = font.glyph_for_utf8(utf8.as_bytes()).expect("é present");

    // Glyph MUST yield exactly height rows
    assert_eq!(glyph.len(), font.height as usize);

    // Every row must yield exactly width bits
    let mut rows = glyph;
    loop {
        let row = match rows.next() {
            Some(row) => row,
            None => break,
        };
        assert_eq!(row.len(), font.width as usize);
    }

    // Forward bit stream, reversed, must match the backward row walk
    let mut forward: Vec<bool> = Vec::new();
    let mut rows_fwd = glyph;
    loop {
        let mut row = match rows_fwd.next() {
            Some(row) => row,
            None => break,
        };
        loop {
            match row.next() {
                Some(bit) => forward.push(bit),
                None => break,
            }
        }
    }
    let mut reverse: Vec<bool> = Vec::new();
    let mut rows_bwd = glyph;
    loop {
        let mut row = match rows_bwd.next_back() {
            Some(row) => row,
            None => break,
        };
        loop {
            match row.next() {
                Some(bit) => reverse.push(bit),
                None => break,
            }
        }
    }
    let mut rev2 = reverse.clone();
    rev2.reverse();
    assert_eq!(forward, rev2);
}

#[test]
fn header_fields_decoded_exactly() {
    let mut buf: Vec<u8> = Vec::new();
    buf.extend_from_slice(&PSF2_MAGIC);
    push_le32(&mut buf, 0);
    push_le32(&mut buf, 0x0403_0201);
    push_le32(&mut buf, 0x0000_0001);
    push_le32(&mut buf, 0x0000_0180);
    push_le32(&mut buf, 0x0000_0020);
    push_le32(&mut buf, 0x0000_0010);
    push_le32(&mut buf, 0x0000_0008);
    let hdr = PSF2Header::from_bytes(&buf).unwrap();
    assert_eq!(hdr.header_size, 0x0403_0201);
    assert_eq!(hdr.flags, 1);
    assert_eq!(hdr.num_glyphs, 0x180);
    assert_eq!(hdr.bytes_per_glyph, 0x20);
    assert_eq!(hdr.height, 0x10);
    assert_eq!(hdr.width, 8);
}

#[test]
fn header_error_variants() {
    // fewer than 32 bytes
    let short = vec![0u8; 31];
    assert!(matches!(
        PSF2Header::from_bytes(&short),
        Err(PSF2Error::HeaderTooShort)
    ));

    // wrong magic
    let mut bad_magic = make_font();
    bad_magic[1] = 0x00;
    assert!(matches!(
        PSF2Header::from_bytes(&bad_magic),
        Err(PSF2Error::BadMagic)
    ));

    // unsupported version
    let mut bad_version = make_font();
    bad_version[4] = 1;
    assert!(matches!(
        PSF2Header::from_bytes(&bad_version),
        Err(PSF2Error::UnsupportedVersion)
    ));
}

#[test]
fn construction_rejects_truncated_data() {
    let blob = make_font();
    // keep the header but cut the glyph table short
    let cut = &blob[..100];
    assert!(matches!(
        PSF2Font::new(cut),
        Err(PSF2Error::TruncatedData)
    ));
}

#[test]
fn corrupt_magic_fails_construction() {
    let mut blob = make_font();
    blob[0] ^= 0xFF;
    assert!(matches!(PSF2Font::new(&blob), Err(PSF2Error::BadMagic)));
}

#[test]
fn ascii_matches_glyph_by_idx() {
    let blob = make_font();
    let mut font = PSF2Font::new(&blob).unwrap();
    for b in [0u8, b'A', 0x7F] {
        let via_lookup = font.get_glyph_data(&[b]).unwrap();
        let via_index = font.glyph_by_idx(b as u32).unwrap();
        assert_eq!(via_lookup, via_index);
        assert!(core::ptr::eq(via_lookup.as_ptr(), via_index.as_ptr()));
    }
}

#[test]
fn ascii_out_of_range_returns_none() {
    let blob = make_font_with(70);
    let mut font = PSF2Font::new(&blob).unwrap();
    assert!(font.get_glyph_data(&[100u8]).is_none());
    assert!(font.get_glyph_data(&[b'A']).is_some());
}

#[test]
fn unicode_scan_returns_expected_index() {
    let blob = make_font();
    let mut font = PSF2Font::new(&blob).unwrap();
    // 'é' is C3 A9, the alias of glyph 0x29
    let g = font.get_glyph_data(&[0xC3, 0xA9]).unwrap();
    let expected = font.glyph_by_idx(0x29).unwrap();
    assert!(core::ptr::eq(g.as_ptr(), expected.as_ptr()));
    // the euro sign is the second alias of glyph 64
    let e = font.get_glyph_data(&[0xE2, 0x82, 0xAC]).unwrap();
    let expected64 = font.glyph_by_idx(64).unwrap();
    assert!(core::ptr::eq(e.as_ptr(), expected64.as_ptr()));
}

#[test]
fn absent_sequence_returns_none() {
    let blob = make_font();
    let mut font = PSF2Font::new(&blob).unwrap();
    // neither ASCII nor in the table
    assert!(font.get_glyph_data(&[0xC3, 0xC0]).is_none());
    assert!(font.get_glyph_data(&[0xE2, 0x82, 0xAD]).is_none());
}

#[test]
fn cache_insert_and_get() {
    let mut cache = Cache::new();
    assert!(cache.get(&[0xC3, 0xA9]).is_none());
    cache.insert(&[0xC3, 0xA9], 41);
    assert_eq!(cache.get(&[0xC3, 0xA9]), Some(41));
}

#[test]
fn cache_ignores_too_long_keys() {
    let mut cache = Cache::new();
    let long_key = [7u8; 17];
    cache.insert(&long_key, 3);
    assert!(cache.get(&long_key).is_none());
}

#[test]
fn cache_eviction_after_sixty_five_inserts() {
    let mut cache = Cache::new();
    // 65 distinct two-byte keys: the first is overwritten when the
    // round-robin cursor wraps
    for i in 0..65u32 {
        cache.insert(&[0xC3, (0x80 + i) as u8], i);
    }
    assert!(cache.get(&[0xC3, 0x80]).is_none());
    assert_eq!(cache.get(&[0xC3, 0x81]), Some(1));
    assert_eq!(cache.get(&[0xC3, 0xC0]), Some(64));
}

#[test]
fn evicted_key_still_resolved_by_scan() {
    let blob = make_font();
    let mut font = PSF2Font::new(&blob).unwrap();
    // 64 two-byte lookups plus the euro sign: 65 cache insertions
    for i in 0..64u8 {
        assert!(font.get_glyph_data(&[0xC3, 0x80 + i]).is_some());
    }
    assert!(font.get_glyph_data(&[0xE2, 0x82, 0xAC]).is_some());
    // the first key's cache entry is gone, but the table scan still finds it
    let g = font.get_glyph_data(&[0xC3, 0x80]).unwrap();
    let expected = font.glyph_by_idx(0).unwrap();
    assert!(core::ptr::eq(g.as_ptr(), expected.as_ptr()));
}

#[test]
fn row_bits_msb_first() {
    let row_bytes = [0b1100_1100u8];
    let mut row = GlyphRow::new(&row_bytes, 8);
    let mut bits: Vec<bool> = Vec::new();
    loop {
        match row.next() {
            Some(bit) => bits.push(bit),
            None => break,
        }
    }
    assert_eq!(
        bits,
        vec![true, true, false, false, true, true, false, false]
    );
}

#[test]
fn row_stops_at_width_despite_padding() {
    // 5 wide: only the first five bits of the byte are pixels
    let row_bytes = [0b1101_1111u8];
    let mut row = GlyphRow::new(&row_bytes, 5);
    assert_eq!(row.len(), 5);
    let mut bits: Vec<bool> = Vec::new();
    loop {
        match row.next() {
            Some(bit) => bits.push(bit),
            None => break,
        }
    }
    assert_eq!(bits, vec![true, true, false, true, true]);
    assert_eq!(row.len(), 0);
}

#[test]
fn glyph_rows_from_both_ends() {
    let data = [0xAAu8, 0x55u8];
    let mut glyph = Glyph::new(&data, 8);
    assert_eq!(glyph.len(), 2);
    let front = glyph.next().unwrap();
    let mut front_bits: Vec<bool> = Vec::new();
    let mut f = front;
    loop {
        match f.next() {
            Some(bit) => front_bits.push(bit),
            None => break,
        }
    }
    assert_eq!(
        front_bits,
        vec![true, false, true, false, true, false, true, false]
    );
    // the iterators meet in the middle
    let back = glyph.next_back().unwrap();
    let mut back_bits: Vec<bool> = Vec::new();
    let mut b = back;
    loop {
        match b.next() {
            Some(bit) => back_bits.push(bit),
            None => break,
        }
    }
    assert_eq!(
        back_bits,
        vec![false, true, false, true, false, true, false, true]
    );
    assert!(glyph.next().is_none());
    assert!(glyph.next_back().is_none());
}

#[test]
fn empty_sequence_matches_preallocated_entry() {
    // Cache entries start out with zero-length keys, so the empty
    // sequence hits slot 0 and resolves to glyph index 0.
    let blob = make_font();
    let mut font = PSF2Font::new(&blob).unwrap();
    let g = font.get_glyph_data(&[]).unwrap();
    let expected = font.glyph_by_idx(0).unwrap();
    assert!(core::ptr::eq(g.as_ptr(), expected.as_ptr()));
}
