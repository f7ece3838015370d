use vstd::prelude::*;

verus! {

/// Everything that can go wrong while reading or writing a container.
#[derive(Debug, Clone, Copy, PartialEq, Eq, Structural)]
pub enum NuccError {
    /// A required field was cut off in the middle of a structure.
    TruncatedInput,
    /// The first four bytes are not `NUCC`.
    BadMagic,
    /// A curve header carries a format tag outside the known table.
    UnknownCurveFormat,
    /// A curve format that is known but has no codec.
    UnimplementedCurveFormat,
    /// The keyframes do not suit the channel they were offered to.
    InvalidKeyframes,
    /// Duplicate entry coordinate, dangling edge, or a cycle.
    MalformedGraph,
    /// Non-empty list of unknown entries, or an encrypted container.
    UnsupportedFeature,
    /// Counts in the index disagree with the sizes that follow them.
    CountMismatch,
    /// A string region could not be decoded as code page 932.
    StringDecode,
}

} // verus!
