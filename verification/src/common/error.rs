use vstd::prelude::*;

verus! {

/// Why an encode or a decode did not go through. Every failure is a value
/// handed back to the caller; nothing in this crate aborts on bad input.
#[derive(Debug, Clone, Copy, PartialEq, Eq, Structural)]
pub enum Error {
    /// A read or a write would leave the region that the cursor covers.
    BufferBounds,
    /// The class or number of a tag is not the one the grammar has at this place.
    UnexpectedTag,
    /// A byte that selects a variant lies outside the known range.
    InvalidVariant,
    /// A well-formed tag of a shape that the grammar does not take here.
    TagNotSupported,
    /// Well-formed input that names something this codec does not handle yet.
    Unimplemented,
    /// A value that breaks a rule of the protocol, such as a negative count.
    InvalidValue,
    /// A declared length that the buffer at hand cannot hold.
    Length,
}

} // verus!
