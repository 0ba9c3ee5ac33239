//! The wire codec: a 20-byte header followed by type-length-value attributes.
//!
//! ```text
//!  0                   1                   2                   3
//!  0 1 2 3 4 5 6 7 8 9 0 1 2 3 4 5 6 7 8 9 0 1 2 3 4 5 6 7 8 9 0 1
//! +-+-+-+-+-+-+-+-+-+-+-+-+-+-+-+-+-+-+-+-+-+-+-+-+-+-+-+-+-+-+-+-+
//! |         Message Type          |         Message Length        |
//! +-+-+-+-+-+-+-+-+-+-+-+-+-+-+-+-+-+-+-+-+-+-+-+-+-+-+-+-+-+-+-+-+
//! |                         Magic Cookie                          |
//! +-+-+-+-+-+-+-+-+-+-+-+-+-+-+-+-+-+-+-+-+-+-+-+-+-+-+-+-+-+-+-+-+
//! |                                                               |
//! |                     Transaction ID (96 bits)                  |
//! |                                                               |
//! +-+-+-+-+-+-+-+-+-+-+-+-+-+-+-+-+-+-+-+-+-+-+-+-+-+-+-+-+-+-+-+-+
//! |         Attribute Type        |        Attribute Length       |
//! +-+-+-+-+-+-+-+-+-+-+-+-+-+-+-+-+-+-+-+-+-+-+-+-+-+-+-+-+-+-+-+-+
//! |                     Attribute Value ...
//! ```
//!
//! All integers are big-endian. The message length of the header is carried
//! as it is found: decoding does not hold it against the attributes that
//! follow, and encoding does not compute it from them.

use crate::error::StunMessageError;
use crate::wire::{
    be16, be16_bytes, be32, be32_bytes, lemma_be16_of_bytes, lemma_be32_of_bytes,
    lemma_bytes_of_be16, lemma_bytes_of_be32, push_u16_be, push_u32_be, read_u16_be, read_u32_be,
};
use vstd::prelude::*;
use vstd::slice::{slice_subrange, slice_to_vec};

verus! {

/// The fixed 32-bit value at bytes 4 to 7 of every message header.
pub const STUN_MAGIC_COOKIE: u32 = 0x2112_A442;

/// The number of bytes of a message header.
pub const HEADER_LEN: usize = 20;

/// The number of bytes of an attribute header: type and length.
pub const ATTRIBUTE_HEADER_LEN: usize = 4;

/// One type-length-value record of a message.
///
/// `length` is meant to be the number of bytes of `value`. The fields are
/// public and nothing enforces this: [`StunAttribute::is_consistent`] says
/// whether it holds, and [`StunAttribute::encode`] writes `length` as it is.
#[derive(Debug, PartialEq, Eq)]
pub struct StunAttribute {
    pub attr_type: u16,
    pub length: u16,
    pub value: Vec<u8>,
}

/// An attribute as a mathematical value.
pub struct AttributeView {
    pub attr_type: u16,
    pub length: u16,
    pub value: Seq<u8>,
}

impl AttributeView {
    /// The length field is the number of value bytes.
    pub open spec fn is_consistent(self) -> bool {
        self.length == self.value.len()
    }

    /// The bytes of this attribute on the wire: type, length, value.
    pub open spec fn wire(self) -> Seq<u8> {
        be16_bytes(self.attr_type) + be16_bytes(self.length) + self.value
    }
}

impl View for StunAttribute {
    type V = AttributeView;

    open spec fn view(&self) -> AttributeView {
        AttributeView { attr_type: self.attr_type, length: self.length, value: self.value@ }
    }
}

/// The attribute that starts at the front of `bytes`, or why there is none.
/// Bytes that follow the attribute's value are of no account.
pub open spec fn parse_attribute(bytes: Seq<u8>) -> Result<AttributeView, StunMessageError> {
    if bytes.len() < 4 {
        Err(StunMessageError::AttributeHeaderTooShort)
    } else {
        let length = be16(bytes[2], bytes[3]);
        if bytes.len() < 4 + length {
            Err(StunMessageError::AttributeBodyTruncated)
        } else {
            Ok(
                AttributeView {
                    attr_type: be16(bytes[0], bytes[1]),
                    length,
                    value: bytes.subrange(4, 4 + length),
                },
            )
        }
    }
}

/// The outcome of decoding an attribute, as a mathematical value.
pub open spec fn attribute_outcome(r: Result<StunAttribute, StunMessageError>) -> Result<
    AttributeView,
    StunMessageError,
> {
    match r {
        Ok(attribute) => Ok(attribute@),
        Err(e) => Err(e),
    }
}

impl StunAttribute {
    /// The length field is the number of value bytes.
    pub open spec fn is_consistent(&self) -> bool {
        self@.is_consistent()
    }

    /// Decodes the attribute at the front of `data`.
    ///
    /// Fails with `AttributeHeaderTooShort` on fewer than 4 bytes, and with
    /// `AttributeBodyTruncated` where fewer bytes follow the header than its
    /// length field announces. Otherwise the value is a copy of exactly that
    /// many bytes; what follows them is neither read nor reported.
    pub fn decode(data: &[u8]) -> (r: Result<StunAttribute, StunMessageError>)
        ensures
            attribute_outcome(r) == parse_attribute(data@),
    {
        if data.len() < ATTRIBUTE_HEADER_LEN {
            return Err(StunMessageError::AttributeHeaderTooShort);
        }
        let attr_type = read_u16_be(data, 0);
        let length = read_u16_be(data, 2);
        if data.len() - ATTRIBUTE_HEADER_LEN < length as usize {
            return Err(StunMessageError::AttributeBodyTruncated);
        }
        let value = slice_to_vec(
            slice_subrange(data, ATTRIBUTE_HEADER_LEN, ATTRIBUTE_HEADER_LEN + length as usize),
        );
        Ok(StunAttribute { attr_type, length, value })
    }

    /// Encodes the attribute: type and length as big-endian 16-bit fields,
    /// then the value as it is. The length field is written as it stands,
    /// whether or not it is the number of value bytes.
    pub fn encode(&self) -> (bytes: Vec<u8>)
        ensures
            bytes@ == self@.wire(),
            bytes@.len() == 4 + self.value@.len(),
    {
        let mut bytes = Vec::new();
        push_u16_be(&mut bytes, self.attr_type);
        push_u16_be(&mut bytes, self.length);
        bytes.extend_from_slice(self.value.as_slice());
        proof {
            lemma_be16_of_bytes(self.attr_type);
            lemma_be16_of_bytes(self.length);
            assert(bytes@ =~= self@.wire());
        }
        bytes
    }
}

/// An attribute that was parsed holds as many value bytes as its length
/// field says, and its encoding is the bytes it was parsed from.
pub proof fn lemma_parsed_attribute(bytes: Seq<u8>)
    requires
        parse_attribute(bytes) is Ok,
    ensures
        parse_attribute(bytes)->Ok_0.is_consistent(),
        parse_attribute(bytes)->Ok_0.wire() == bytes.take(
            4 + parse_attribute(bytes)->Ok_0.length as int,
        ),
{
    let a = parse_attribute(bytes)->Ok_0;
    lemma_bytes_of_be16(bytes[0], bytes[1]);
    lemma_bytes_of_be16(bytes[2], bytes[3]);
    assert(a.wire() =~= bytes.take(4 + a.length as int));
}

/// A consistent attribute is parsed back from its encoding, whatever bytes
/// follow it.
pub proof fn lemma_parse_attribute_of_wire(a: AttributeView, tail: Seq<u8>)
    requires
        a.is_consistent(),
    ensures
        parse_attribute(a.wire() + tail) == Ok::<AttributeView, StunMessageError>(a),
        (a.wire() + tail).skip(4 + a.length as int) == tail,
{
    let bytes = a.wire() + tail;
    lemma_be16_of_bytes(a.attr_type);
    lemma_be16_of_bytes(a.length);
    assert(bytes[0] == be16_bytes(a.attr_type)[0]);
    assert(bytes[1] == be16_bytes(a.attr_type)[1]);
    assert(bytes[2] == be16_bytes(a.length)[0]);
    assert(bytes[3] == be16_bytes(a.length)[1]);
    assert(bytes.subrange(4, 4 + a.length as int) =~= a.value);
    assert(bytes.skip(4 + a.length as int) =~= tail);
}

/// A message: the fields of its header and its attributes in wire order.
///
/// The magic cookie is no field: every message has the same one. `length` is
/// the header's message length as it was found or as it is to be written.
#[derive(Debug, PartialEq, Eq)]
pub struct StunMessage {
    pub message_type: u16,
    pub length: u16,
    pub transaction_id: [u8; 12],
    pub attributes: Vec<StunAttribute>,
}

/// A message as a mathematical value.
pub struct MessageView {
    pub message_type: u16,
    pub length: u16,
    pub transaction_id: Seq<u8>,
    pub attributes: Seq<AttributeView>,
}

/// The attributes of a sequence, each as a mathematical value.
pub open spec fn attribute_views(attributes: Seq<StunAttribute>) -> Seq<AttributeView> {
    Seq::new(attributes.len(), |i: int| attributes[i]@)
}

impl View for StunMessage {
    type V = MessageView;

    open spec fn view(&self) -> MessageView {
        MessageView {
            message_type: self.message_type,
            length: self.length,
            transaction_id: self.transaction_id@,
            attributes: attribute_views(self.attributes@),
        }
    }
}

/// The encodings of the attributes, one after the other.
pub open spec fn wire_attributes(attributes: Seq<AttributeView>) -> Seq<u8>
    decreases attributes.len(),
{
    if attributes.len() == 0 {
        Seq::empty()
    } else {
        attributes[0].wire() + wire_attributes(attributes.skip(1))
    }
}

impl MessageView {
    /// The transaction id has its 12 bytes and every attribute's length
    /// field is the number of its value bytes.
    pub open spec fn well_formed(self) -> bool {
        &&& self.transaction_id.len() == 12
        &&& forall|i: int| 0 <= i < self.attributes.len() ==> self.attributes[i].is_consistent()
    }

    /// The bytes of this message on the wire: type, length, magic cookie,
    /// transaction id, then the attributes in order.
    pub open spec fn wire(self) -> Seq<u8> {
        be16_bytes(self.message_type) + be16_bytes(self.length) + be32_bytes(STUN_MAGIC_COOKIE)
            + self.transaction_id + wire_attributes(self.attributes)
    }
}

/// `attributes` in front of what `rest` holds, or the error of `rest`.
pub open spec fn prepend_attributes(
    attributes: Seq<AttributeView>,
    rest: Result<Seq<AttributeView>, StunMessageError>,
) -> Result<Seq<AttributeView>, StunMessageError> {
    match rest {
        Ok(more) => Ok(attributes + more),
        Err(e) => Err(e),
    }
}

/// The attributes that `bytes` is made of, from the first byte to the last,
/// or the error of the first attribute that cannot be parsed.
pub open spec fn parse_attributes(bytes: Seq<u8>) -> Result<Seq<AttributeView>, StunMessageError>
    decreases bytes.len(),
{
    if bytes.len() == 0 {
        Ok(Seq::empty())
    } else {
        match parse_attribute(bytes) {
            Err(e) => Err(e),
            Ok(first) => prepend_attributes(
                seq![first],
                parse_attributes(bytes.skip(4 + first.length as int)),
            ),
        }
    }
}

/// The message that `bytes` encodes, or why it encodes none.
pub open spec fn parse_message(bytes: Seq<u8>) -> Result<MessageView, StunMessageError> {
    if bytes.len() < 20 {
        Err(StunMessageError::MessageTooShort)
    } else if be32(bytes[4], bytes[5], bytes[6], bytes[7]) != STUN_MAGIC_COOKIE {
        Err(StunMessageError::BadMagicConstant)
    } else {
        match parse_attributes(bytes.skip(20)) {
            Err(e) => Err(e),
            Ok(attributes) => Ok(
                MessageView {
                    message_type: be16(bytes[0], bytes[1]),
                    length: be16(bytes[2], bytes[3]),
                    transaction_id: bytes.subrange(8, 20),
                    attributes,
                },
            ),
        }
    }
}

/// Four bytes read as the magic cookie exactly when they are `21 12 A4 42`.
pub proof fn lemma_magic_cookie_bytes(b0: u8, b1: u8, b2: u8, b3: u8)
    ensures
        be32(b0, b1, b2, b3) == STUN_MAGIC_COOKIE <==> b0 == 0x21 && b1 == 0x12 && b2 == 0xA4 && b3
            == 0x42,
{
    lemma_bytes_of_be32(b0, b1, b2, b3);
    lemma_bytes_of_be32(0x21, 0x12, 0xA4, 0x42);
    assert(be32(0x21, 0x12, 0xA4, 0x42) == STUN_MAGIC_COOKIE) by {
        reveal(be32);
    }
    if be32(b0, b1, b2, b3) == STUN_MAGIC_COOKIE {
        let bytes = be32_bytes(STUN_MAGIC_COOKIE);
        assert(bytes == seq![b0, b1, b2, b3]);
        assert(bytes == seq![0x21u8, 0x12u8, 0xA4u8, 0x42u8]);
        assert(bytes[0] == b0 && bytes[1] == b1 && bytes[2] == b2 && bytes[3] == b3);
    }
}

/// The outcome of decoding a message, as a mathematical value.
pub open spec fn message_outcome(r: Result<StunMessage, StunMessageError>) -> Result<
    MessageView,
    StunMessageError,
> {
    match r {
        Ok(message) => Ok(message@),
        Err(e) => Err(e),
    }
}

impl StunMessage {
    /// The transaction id has its 12 bytes and every attribute's length
    /// field is the number of its value bytes.
    pub open spec fn well_formed(&self) -> bool {
        self@.well_formed()
    }

    /// Decodes a message from a datagram.
    ///
    /// Fails with `MessageTooShort` on fewer than 20 bytes and with
    /// `BadMagicConstant` where bytes 4 to 7 are not the magic cookie. The
    /// bytes from offset 20 to the end are decoded as attributes, one after
    /// the other; the first that cannot be decoded gives its error to the
    /// whole. The header's message length is stored and not otherwise used.
    pub fn decode(data: &[u8]) -> (r: Result<StunMessage, StunMessageError>)
        ensures
            message_outcome(r) == parse_message(data@),
            data@.len() < 20 ==> (r matches Err(e) && e == StunMessageError::MessageTooShort),
            data@.len() >= 20 && be32(data@[4], data@[5], data@[6], data@[7]) != STUN_MAGIC_COOKIE
                ==> (r matches Err(e) && e == StunMessageError::BadMagicConstant),
            r matches Ok(message) ==> message.well_formed(),
    {
        if data.len() < HEADER_LEN {
            return Err(StunMessageError::MessageTooShort);
        }
        let magic_cookie = read_u32_be(data, 4);
        if magic_cookie != STUN_MAGIC_COOKIE {
            return Err(StunMessageError::BadMagicConstant);
        }
        let message_type = read_u16_be(data, 0);
        let length = read_u16_be(data, 2);
        let transaction_id: [u8; 12] = [
            data[8],
            data[9],
            data[10],
            data[11],
            data[12],
            data[13],
            data[14],
            data[15],
            data[16],
            data[17],
            data[18],
            data[19],
        ];
        assert(transaction_id@ =~= data@.subrange(8, 20));

        let mut attributes: Vec<StunAttribute> = Vec::new();
        let mut offset: usize = HEADER_LEN;
        assert(attribute_views(attributes@) + parse_attributes(data@.skip(20))->Ok_0
            =~= parse_attributes(data@.skip(20))->Ok_0);
        while offset < data.len()
            invariant
                20 <= offset <= data@.len(),
                be32(data@[4], data@[5], data@[6], data@[7]) == STUN_MAGIC_COOKIE,
                parse_attributes(data@.skip(20)) == prepend_attributes(
                    attribute_views(attributes@),
                    parse_attributes(data@.skip(offset as int)),
                ),
                forall|i: int|
                    0 <= i < attributes@.len() ==> (#[trigger] attributes@[i]).is_consistent(),
            decreases data@.len() - offset,
        {
            let rest = slice_subrange(data, offset, data.len());
            assert(rest@ =~= data@.skip(offset as int));
            let attr = match StunAttribute::decode(rest) {
                Ok(attr) => attr,
                Err(e) => {
                    return Err(e);
                },
            };
            proof {
                let before = attribute_views(attributes@);
                let step = 4 + attr.length as int;
                let after = parse_attributes(data@.skip(offset + step));
                assert(rest@.skip(step) =~= data@.skip(offset + step));
                assert(attribute_views(attributes@.push(attr)) =~= before + seq![attr@]);
                if after is Ok {
                    assert(before + (seq![attr@] + after->Ok_0) =~= (before + seq![attr@])
                        + after->Ok_0);
                }
            }
            offset += ATTRIBUTE_HEADER_LEN + attr.length as usize;
            attributes.push(attr);
        }
        assert(attribute_views(attributes@) + Seq::<AttributeView>::empty() =~= attribute_views(
            attributes@,
        ));
        Ok(StunMessage { message_type, length, transaction_id, attributes })
    }

    /// Encodes the message: type, length, magic cookie and transaction id,
    /// then each attribute in order. The header's message length is written
    /// as it stands, whatever the attributes add up to.
    pub fn encode(&self) -> (bytes: Vec<u8>)
        ensures
            bytes@ == self@.wire(),
    {
        let mut bytes = Vec::new();
        push_u16_be(&mut bytes, self.message_type);
        push_u16_be(&mut bytes, self.length);
        push_u32_be(&mut bytes, STUN_MAGIC_COOKIE);
        bytes.extend_from_slice(self.transaction_id.as_slice());
        let ghost header = be16_bytes(self.message_type) + be16_bytes(self.length) + be32_bytes(
            STUN_MAGIC_COOKIE,
        ) + self.transaction_id@;
        assert(bytes@ =~= header);
        let ghost views = attribute_views(self.attributes@);
        let mut i: usize = 0;
        assert(views.take(0) =~= Seq::<AttributeView>::empty());
        while i < self.attributes.len()
            invariant
                i <= self.attributes@.len(),
                views == attribute_views(self.attributes@),
                bytes@ == header + wire_attributes(views.take(i as int)),
            decreases self.attributes@.len() - i,
        {
            let encoded = self.attributes[i].encode();
            proof {
                lemma_wire_attributes_push(views.take(i as int), views[i as int]);
                assert(views.take(i + 1) =~= views.take(i as int).push(views[i as int]));
            }
            bytes.extend_from_slice(encoded.as_slice());
            assert(bytes@ =~= header + (wire_attributes(views.take(i as int)) + encoded@));
            i += 1;
        }
        assert(views.take(i as int) =~= views);
        bytes
    }
}

/// Encoding one more attribute appends its bytes.
pub proof fn lemma_wire_attributes_push(attributes: Seq<AttributeView>, last: AttributeView)
    ensures
        wire_attributes(attributes.push(last)) == wire_attributes(attributes) + last.wire(),
    decreases attributes.len(),
{
    let all = attributes.push(last);
    if attributes.len() == 0 {
        assert(all.skip(1) =~= Seq::<AttributeView>::empty());
        assert(wire_attributes(all.skip(1)) =~= Seq::<u8>::empty());
        assert(wire_attributes(all) =~= last.wire());
        assert(wire_attributes(attributes) + last.wire() =~= last.wire());
    } else {
        lemma_wire_attributes_push(attributes.skip(1), last);
        assert(all.skip(1) =~= attributes.skip(1).push(last));
        assert(wire_attributes(all) =~= wire_attributes(attributes) + last.wire());
    }
}

/// Consistent attributes are parsed back from their encodings, in order.
pub proof fn lemma_parse_attributes_of_wire(attributes: Seq<AttributeView>)
    requires
        forall|i: int| 0 <= i < attributes.len() ==> attributes[i].is_consistent(),
    ensures
        parse_attributes(wire_attributes(attributes)) == Ok::<Seq<AttributeView>, StunMessageError>(
            attributes,
        ),
    decreases attributes.len(),
{
    if attributes.len() == 0 {
        assert(attributes =~= Seq::<AttributeView>::empty());
    } else {
        let first = attributes[0];
        let others = attributes.skip(1);
        let tail = wire_attributes(others);
        let bytes = wire_attributes(attributes);
        assert(bytes == first.wire() + tail);
        assert(bytes.len() > 0) by {
            lemma_be16_of_bytes(first.attr_type);
            lemma_be16_of_bytes(first.length);
            assert(first.wire().len() == 4 + first.value.len());
        }
        assert(parse_attribute(bytes) == Ok::<AttributeView, StunMessageError>(first)
            && bytes.skip(4 + first.length as int) == tail) by {
            lemma_parse_attribute_of_wire(first, tail);
        }
        assert(parse_attributes(tail) == Ok::<Seq<AttributeView>, StunMessageError>(others)) by {
            assert forall|i: int| 0 <= i < others.len() implies others[i].is_consistent() by {
                assert(others[i] == attributes[i + 1]);
            }
            lemma_parse_attributes_of_wire(others);
        }
        assert(seq![first] + others =~= attributes);
    }
}

/// Round trip, values first: a well-formed message is decoded from its own
/// encoding, with its type, length, transaction id and attributes as they
/// were.
pub proof fn lemma_decode_inverts_encode(message: MessageView)
    requires
        message.well_formed(),
    ensures
        parse_message(message.wire()) == Ok::<MessageView, StunMessageError>(message),
{
    let bytes = message.wire();
    let header = be16_bytes(message.message_type) + be16_bytes(message.length) + be32_bytes(
        STUN_MAGIC_COOKIE,
    ) + message.transaction_id;
    lemma_be16_of_bytes(message.message_type);
    lemma_be16_of_bytes(message.length);
    lemma_be32_of_bytes(STUN_MAGIC_COOKIE);
    assert(header.len() == 20);
    assert(bytes =~= header + wire_attributes(message.attributes));
    assert(bytes[0] == be16_bytes(message.message_type)[0]);
    assert(bytes[1] == be16_bytes(message.message_type)[1]);
    assert(bytes[2] == be16_bytes(message.length)[0]);
    assert(bytes[3] == be16_bytes(message.length)[1]);
    assert(bytes[4] == be32_bytes(STUN_MAGIC_COOKIE)[0]);
    assert(bytes[5] == be32_bytes(STUN_MAGIC_COOKIE)[1]);
    assert(bytes[6] == be32_bytes(STUN_MAGIC_COOKIE)[2]);
    assert(bytes[7] == be32_bytes(STUN_MAGIC_COOKIE)[3]);
    assert(bytes.subrange(8, 20) =~= message.transaction_id);
    assert(bytes.skip(20) =~= wire_attributes(message.attributes));
    lemma_parse_attributes_of_wire(message.attributes);
}

/// Attributes that were parsed are consistent, and their encodings, one
/// after the other, are the bytes they were parsed from.
pub proof fn lemma_parsed_attributes(bytes: Seq<u8>)
    requires
        parse_attributes(bytes) is Ok,
    ensures
        forall|i: int|
            0 <= i < parse_attributes(bytes)->Ok_0.len() ==> (#[trigger] parse_attributes(
                bytes,
            )->Ok_0[i]).is_consistent(),
        wire_attributes(parse_attributes(bytes)->Ok_0) == bytes,
    decreases bytes.len(),
{
    let attributes = parse_attributes(bytes)->Ok_0;
    if bytes.len() == 0 {
        assert(wire_attributes(attributes) =~= bytes);
    } else {
        let first = parse_attribute(bytes)->Ok_0;
        let step = 4 + first.length as int;
        let others = parse_attributes(bytes.skip(step))->Ok_0;
        lemma_parsed_attribute(bytes);
        lemma_parsed_attributes(bytes.skip(step));
        assert(attributes =~= seq![first] + others);
        assert(attributes.skip(1) =~= others);
        assert(bytes.take(step) + bytes.skip(step) =~= bytes);
    }
}

/// Round trip, bytes first: a message that was decoded is well formed, and
/// its encoding is the datagram it was decoded from.
pub proof fn lemma_encode_inverts_decode(bytes: Seq<u8>)
    requires
        parse_message(bytes) is Ok,
    ensures
        parse_message(bytes)->Ok_0.well_formed(),
        parse_message(bytes)->Ok_0.wire() == bytes,
{
    let message = parse_message(bytes)->Ok_0;
    lemma_parsed_attributes(bytes.skip(20));
    lemma_bytes_of_be16(bytes[0], bytes[1]);
    lemma_bytes_of_be16(bytes[2], bytes[3]);
    lemma_bytes_of_be32(bytes[4], bytes[5], bytes[6], bytes[7]);
    assert(message.wire() =~= bytes);
}

} // verus!
