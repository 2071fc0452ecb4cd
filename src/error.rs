use vstd::prelude::*;

verus! {

/// Why a buffer could not be decoded as a DNS message.
#[derive(Debug, Clone, Copy, PartialEq, Eq, Structural)]
pub enum Error {
    /// The buffer ended before a fixed- or length-prefixed field was complete.
    UnexpectedEnd,
    /// A record type code outside the supported set.
    UnknownRecordType(u16),
}

} // verus!
