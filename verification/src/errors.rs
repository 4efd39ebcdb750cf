use vstd::prelude::*;

verus! {

/// Everything that can go wrong while baking an atlas from already-measured
/// glyph metrics. Rendering-backend and I/O failures live with the caller;
/// these are the failures of the layout and encoding stages themselves.
#[derive(Clone, Copy, Debug, PartialEq, Eq, Structural)]
pub enum AtlasError {
    /// The input sequence list was empty; no atlas can be sized or packed.
    EmptyInput,
    /// A glyph sequence had no code units, so it has no lookup key.
    EmptySequence,
    /// A glyph's padded box does not fit the 0..=255 range of the record's
    /// size fields.
    OversizedGlyph,
    /// A packed coordinate or the target width does not fit the unsigned
    /// 32-bit fields of the output format.
    CoordinateOverflow,
}

} // verus!
