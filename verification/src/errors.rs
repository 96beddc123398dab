use vstd::prelude::*;

verus! {

/// Everything that can go wrong in the streamer: loading the sample file,
/// configuring a filter, moving a value through the fixed-point pipeline,
/// and the transport errors reported by the surrounding binary.
#[derive(Clone, Copy, Debug, PartialEq, Eq, Structural)]
pub enum SignalError {
    /// The sample file is missing or unreadable.
    SourceUnreadable,
    /// A record's first field is not a decimal number the loader accepts.
    ParseError,
    /// The file produced zero data records.
    EmptyInput,
    /// Every sample has the same value, so the affine rescale is undefined.
    DegenerateRange,
    /// A filter cutoff at or above the Nyquist frequency, a negative cutoff,
    /// a non-positive sample rate, or a coefficient out of range.
    FilterConfigError,
    /// The outbound socket could not be bound.
    NetworkBindError,
    /// A datagram could not be sent.
    NetworkSendError,
    /// A pipeline value left the representable fixed-point range.
    ValueOutOfRange,
}

} // verus!
