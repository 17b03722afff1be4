use vstd::prelude::*;

verus! {

/// The failure conditions of the mosaic core. I/O failures (missing files,
/// undecodable images or fonts, write errors) belong to the caller that
/// performs the I/O; these are the conditions the core itself detects.
#[derive(Clone, Copy, Debug, PartialEq, Eq, Structural)]
pub enum ArtError {
    /// A background hex string that does not hold six hex digits.
    InvalidColor,
    /// A charset that resolved to zero characters.
    EmptyCharset,
    /// A charset name outside the enumerated domain.
    UnknownCharset,
    /// A sampling region whose clipped area is zero.
    EmptyRegion,
    /// A cell width or height that rounded to zero pixels.
    DegenerateMetrics,
    /// A glyph the width table holds no entry for.
    MissingMetrics,
}

} // verus!
