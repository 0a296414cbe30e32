//! Reader for PSF2 bitmap fonts: header parsing, glyph lookup with an
//! ASCII fast path, a bounded round-robin cache, a linear scan of the
//! embedded Unicode mapping table, and row/pixel iteration over glyph
//! bitmaps. All lookups borrow from the caller's font buffer and are
//! proven panic-free.

use vstd::prelude::*;

pub mod cache;
pub mod glyph;
pub mod psf;

pub use cache::Cache;
pub use glyph::{Glyph, GlyphRow};
pub use psf::{PSF2Error, PSF2Font, PSF2Header, PSF2_MAGIC};

verus! {

/// Logical name for each of the classic fixed pixel sizes this format
/// is commonly distributed in.
pub enum Size {
    S5x8,
    S6x12,
    S8x16,
    S12x24,
    S16x32,
    S32x64,
}

} // verus!
