use vstd::prelude::*;

verus! {

/// Failure kinds reported by the codec pipeline. Each stage reports its own
/// kind; none is silently downgraded to a default value.
#[derive(Debug, Clone, Copy, PartialEq, Eq, Structural)]
pub enum CodecError {
    /// The container byte sequence is shorter than its header or body require.
    ShortInput,
    /// A token exceeds the 16-bit capacity of the container format.
    ValueOutOfRange,
    /// The requested quantizer count is zero or exceeds the available count.
    InvalidBandwidthTarget,
    /// An opaque failure from the external encoder or decoder model.
    UpstreamModelFailure,
    /// A failure from the host environment while reading or writing.
    IOFailure,
}

} // verus!
