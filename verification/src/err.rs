use vstd::prelude::*;

verus! {

/// The failure kinds this library reports.
///
/// Every fallible entry point returns one of these; none of the verified
/// functions panic on malformed input.
#[derive(Clone, Copy, Debug, PartialEq, Eq, Structural)]
pub enum ImageError {
    /// The input bytes do not carry the container signature this decoder
    /// handles, or the container asks for a pixel format outside the
    /// supported set.
    UnsupportedFormat,
    /// The container was recognized but its payload is internally
    /// inconsistent or fails an integrity check.
    CorruptData,
    /// A caller-supplied geometry or filter parameter violates a
    /// precondition.
    InvalidParameter,
    /// The declared dimensions are large enough that decoding would need an
    /// unreasonable amount of memory.
    AllocationFailure,
}

impl ImageError {
    /// The descriptive string for this failure, as a spec-level sequence.
    pub open spec fn message_spec(self) -> Seq<char> {
        match self {
            ImageError::UnsupportedFormat => "unsupported format: missing or unknown container signature"@,
            ImageError::CorruptData => "corrupt data: container payload is inconsistent or fails integrity checks"@,
            ImageError::InvalidParameter => "invalid parameter: geometry or filter parameter violates a precondition"@,
            ImageError::AllocationFailure => "allocation failure: declared dimensions are unreasonably large"@,
        }
    }

    /// A short human-readable description of the failure.
    pub fn message(&self) -> (r: &'static str)
        ensures
            r@ == self.message_spec(),
    {
        match self {
            ImageError::UnsupportedFormat => "unsupported format: missing or unknown container signature",
            ImageError::CorruptData => "corrupt data: container payload is inconsistent or fails integrity checks",
            ImageError::InvalidParameter => "invalid parameter: geometry or filter parameter violates a precondition",
            ImageError::AllocationFailure => "allocation failure: declared dimensions are unreasonably large",
        }
    }
}

} // verus!
