use vstd::prelude::*;

verus! {

/// The error taxonomy of a session. Every failure is fatal to its own
/// session only, and carries exactly one of these kinds.
#[derive(Clone, Copy, Debug, PartialEq, Eq, Structural)]
pub enum SessionError {
    /// An I/O failure on the underlying encrypted stream.
    Transport,
    /// Malformed or truncated message bytes, or invalid text encoding.
    Framing,
    /// A message whose content deviates from the protocol: an
    /// acknowledgement that is not exactly `OK`, or a request that does
    /// not have the delimited form.
    Protocol,
    /// Failure to read the source path or to produce archive bytes.
    Archive,
}

} // verus!
