use vstd::prelude::*;

verus! {

/// A sixteen-block-high slice of a chunk as it lies on disk. No version
/// of the format is read yet.
pub struct SubChunk {}

/// Whether `version` is one of the format versions with a block palette.
pub open spec fn has_palette(version: u8) -> bool {
    version == 8 || version == 9
}

impl SubChunk {
    /// Loads a sub-chunk from its stored bytes, whose last byte names the
    /// format version. Versions without a block palette are not
    /// supported and give `None`; the palette versions and empty input
    /// are left out.
    pub fn load(bytes: Vec<u8>) -> (r: Option<SubChunk>)
        requires
            bytes@.len() > 0,
            !has_palette(bytes@.last()),
        ensures
            r is None,
    {
        None
    }
}

} // verus!
