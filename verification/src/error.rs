use vstd::prelude::*;

verus! {

/// Why a package or one of its parts could not be read.
#[derive(Debug, Clone, Copy, PartialEq, Eq, Structural)]
pub enum PptxError {
    /// The archive cannot be opened, or a part it must hold is missing or unreadable.
    Archive,
    /// A part is not well-formed XML.
    Xml,
    /// An attribute value or a text node cannot be decoded (bad UTF-8, number, or escape).
    Value,
    /// A `srgbClr` value whose hex pairs cannot be cut at byte offsets 2, 4 and 6
    /// (too short, or a cut falls inside a multi-byte character).
    ColorCut,
}

} // verus!
