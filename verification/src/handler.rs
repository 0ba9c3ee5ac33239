//! The dispatch from a decoded request to its response.

use crate::address::{create_xor_mapped_address, xor_mapped_attribute, PeerAddress};
use crate::error::StunMessageError;
use crate::message::{message_outcome, MessageView, StunMessage};
use vstd::prelude::*;

verus! {

/// The message type of a binding request, the one kind that is answered.
pub const BINDING_REQUEST: u16 = 0x0001;

/// The message type of the answer to a binding request.
pub const BINDING_RESPONSE: u16 = 0x0101;

/// The answer to a binding request that came from `peer`: a binding
/// response with the request's transaction id and one attribute, the masked
/// address of the peer. Its message length is left at zero.
pub open spec fn binding_response(request: MessageView, peer: PeerAddress) -> MessageView {
    MessageView {
        message_type: BINDING_RESPONSE,
        length: 0,
        transaction_id: request.transaction_id,
        attributes: seq![xor_mapped_attribute(peer, request.transaction_id)],
    }
}

/// What a request from `peer` is answered with: a binding request with its
/// binding response, a message of any other type with
/// `UnsupportedRequestKind`.
pub open spec fn dispatch(request: MessageView, peer: PeerAddress) -> Result<
    MessageView,
    StunMessageError,
> {
    if request.message_type == BINDING_REQUEST {
        Ok(binding_response(request, peer))
    } else {
        Err(StunMessageError::UnsupportedRequestKind)
    }
}

/// Answers a decoded request that came from `client_addr`.
///
/// A binding request (type `0x0001`) gets a binding response (type
/// `0x0101`) with the same transaction id and the peer's masked address as
/// its one attribute. Any other type fails with `UnsupportedRequestKind`,
/// and no response is built. The request's attributes and message length
/// play no part.
pub fn handle_stun_request(request: &StunMessage, client_addr: &PeerAddress) -> (r: Result<
    StunMessage,
    StunMessageError,
>)
    ensures
        message_outcome(r) == dispatch(request@, *client_addr),
        r is Ok <==> request.message_type == BINDING_REQUEST,
        r matches Ok(response) ==> response.well_formed(),
{
    match request.message_type {
        BINDING_REQUEST => Ok(handle_binding_request(request, client_addr)),
        _ => Err(StunMessageError::UnsupportedRequestKind),
    }
}

/// Builds the binding response to `request` for the peer at `client_addr`.
///
/// The message length of the response is zero, not the number of bytes of
/// its attribute: it is a placeholder that is written to the wire as it is.
pub fn handle_binding_request(request: &StunMessage, client_addr: &PeerAddress) -> (response:
    StunMessage)
    ensures
        response@ == binding_response(request@, *client_addr),
        response.well_formed(),
{
    let xor_mapped_address = create_xor_mapped_address(client_addr, &request.transaction_id);

    let mut attributes = Vec::new();
    attributes.push(xor_mapped_address);
    let response = StunMessage {
        message_type: BINDING_RESPONSE,
        length: 0,
        transaction_id: request.transaction_id,
        attributes,
    };
    assert(response@.attributes =~= binding_response(request@, *client_addr).attributes);
    response
}

} // verus!
