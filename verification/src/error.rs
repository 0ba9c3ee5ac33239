//! The ways in which a datagram can be rejected.

use vstd::prelude::*;

verus! {

/// Why a datagram was not answered. Each error ends the handling of the
/// datagram it was raised for and nothing else.
#[derive(Clone, Copy, Debug, PartialEq, Eq, Structural)]
pub enum StunMessageError {
    /// Fewer than the 20 bytes of a message header were supplied.
    MessageTooShort,
    /// Bytes 4 to 7 of the header are not the magic cookie.
    BadMagicConstant,
    /// Fewer than the 4 bytes of an attribute header were supplied, or are
    /// left where the next attribute of a message should start.
    AttributeHeaderTooShort,
    /// An attribute header announces more value bytes than follow it.
    AttributeBodyTruncated,
    /// The message is of a kind other than a binding request.
    UnsupportedRequestKind,
}

} // verus!
