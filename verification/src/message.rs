//! WebSocket message types and framing
use vstd::prelude::*;
use bytes::Bytes;
use crate::error::{Error, Result};
use crate::text::{TextArg, decimal, push_decimal};
use vstd::string::StringSliceAdditionalSpecFns;

verus! {

#[verifier::external_type_specification]
#[verifier::external_body]
pub struct ExBytes(bytes::Bytes);

/// The bytes a `Bytes` buffer holds.
pub uninterp spec fn bytes_view(b: Bytes) -> Seq<u8>;

/// `Bytes::new` makes an empty buffer.
pub assume_specification[ bytes::Bytes::new ]() -> (r: Bytes)
    ensures
        bytes_view(r) == Seq::<u8>::empty(),
;

/// `Bytes::len` is the number of bytes the buffer holds.
pub assume_specification[ bytes::Bytes::len ](b: &Bytes) -> (n: usize)
    ensures
        n == bytes_view(*b).len(),
;

/// `Bytes::copy_from_slice` makes a buffer holding a copy of the slice.
pub assume_specification[ bytes::Bytes::copy_from_slice ](data: &[u8]) -> (r: Bytes)
    ensures
        bytes_view(r) == data@,
;

/// Cloning a buffer gives one holding the same bytes.
pub assume_specification[ <bytes::Bytes as core::clone::Clone>::clone ](b: &Bytes) -> (r: Bytes)
    ensures
        bytes_view(r) == bytes_view(*b),
;

/// A buffer dereferences to the slice of its bytes.
pub assume_specification[ <bytes::Bytes as core::ops::Deref>::deref ](b: &Bytes) -> (r: &[u8])
    ensures
        r@ == bytes_view(*b),
;

/// A buffer made from a vector holds the vector's bytes.
pub assume_specification[ <bytes::Bytes as core::convert::From<Vec<u8>>>::from ](v: Vec<u8>) -> (r: Bytes)
    ensures
        bytes_view(r) == v@,
;

/// A payload argument: a byte vector, a byte slice or a `Bytes` buffer.
pub trait IntoPayload {
    /// The bytes of the argument.
    spec fn payload_view(&self) -> Seq<u8>;

    /// Turn the argument into a buffer.
    fn into_payload(self) -> (r: Bytes)
        ensures
            bytes_view(r) == self.payload_view(),
    ;
}

impl IntoPayload for Vec<u8> {
    open spec fn payload_view(&self) -> Seq<u8> {
        self@
    }

    fn into_payload(self) -> (r: Bytes) {
        Bytes::from(self)
    }
}

impl<'a> IntoPayload for &'a [u8] {
    open spec fn payload_view(&self) -> Seq<u8> {
        (**self)@
    }

    fn into_payload(self) -> (r: Bytes) {
        Bytes::copy_from_slice(self)
    }
}

impl IntoPayload for Bytes {
    open spec fn payload_view(&self) -> Seq<u8> {
        bytes_view(*self)
    }

    fn into_payload(self) -> (r: Bytes) {
        self
    }
}

#[verifier::external_type_specification]
#[verifier::external_body]
pub struct ExFromUtf8Error(std::string::FromUtf8Error);

/// `String::from_utf8`: succeeds exactly when the bytes are valid UTF-8, and
/// then holds the characters they encode.
#[verifier::external_body]
fn string_from_utf8(v: Vec<u8>) -> (r: core::result::Result<String, std::string::FromUtf8Error>)
    ensures
        r is Ok <==> vstd::utf8::valid_utf8(v@),
        r matches Ok(s) ==> s@ == vstd::utf8::decode_utf8(v@),
{
    String::from_utf8(v)
}

/// WebSocket message type
#[derive(Debug, Clone, Copy, PartialEq, Eq, Structural)]
pub enum MessageType {
    /// Text message (UTF-8)
    Text,
    /// Binary message
    Binary,
    /// Ping message
    Ping,
    /// Pong message
    Pong,
    /// Close message
    Close,
    /// Continuation frame
    Continuation,
}

/// The name of a message type as it appears in messages.
pub open spec fn msg_type_name(t: MessageType) -> Seq<char> {
    match t {
        MessageType::Text => "text"@,
        MessageType::Binary => "binary"@,
        MessageType::Ping => "ping"@,
        MessageType::Pong => "pong"@,
        MessageType::Close => "close"@,
        MessageType::Continuation => "continuation"@,
    }
}

impl MessageType {
    /// The name of the type ("text", "binary", ...).
    pub fn to_string(&self) -> (r: String)
        ensures
            r@ == msg_type_name(*self),
    {
        match self {
            MessageType::Text => String::from_str("text"),
            MessageType::Binary => String::from_str("binary"),
            MessageType::Ping => String::from_str("ping"),
            MessageType::Pong => String::from_str("pong"),
            MessageType::Close => String::from_str("close"),
            MessageType::Continuation => String::from_str("continuation"),
        }
    }
}

/// The payload of a close message: the status code in big-endian order
/// followed by the reason, or nothing when there is no code.
pub open spec fn close_payload(code: Option<u16>, reason: Option<Seq<char>>) -> Seq<u8> {
    match code {
        None => Seq::<u8>::empty(),
        Some(c) => seq![(c / 256) as u8, (c % 256) as u8] + match reason {
            Some(r) => vstd::utf8::encode_utf8(r),
            None => Seq::<u8>::empty(),
        },
    }
}

/// WebSocket message
#[derive(Debug, Clone)]
pub struct Message {
    /// Message type
    pub msg_type: MessageType,
    /// Message payload
    pub payload: Bytes,
}

impl Message {
    /// The bytes of the payload.
    pub open spec fn data(&self) -> Seq<u8> {
        bytes_view(self.payload)
    }

    /// Create a new text message holding the UTF-8 encoding of `text`
    pub fn text(text: impl TextArg) -> (r: Self)
        ensures
            r.msg_type == MessageType::Text,
            r.data() == vstd::utf8::encode_utf8(text.text_view()),
    {
        let s = text.as_text();
        Message { msg_type: MessageType::Text, payload: Bytes::copy_from_slice(s.as_bytes()) }
    }

    /// Create a new binary message
    pub fn binary(data: impl IntoPayload) -> (r: Self)
        ensures
            r.msg_type == MessageType::Binary,
            r.data() == data.payload_view(),
    {
        Message { msg_type: MessageType::Binary, payload: data.into_payload() }
    }

    /// Create a binary message from a slice (copies data)
    pub fn binary_from_slice(data: &[u8]) -> (r: Self)
        ensures
            r.msg_type == MessageType::Binary,
            r.data() == data@,
    {
        Message { msg_type: MessageType::Binary, payload: Bytes::copy_from_slice(data) }
    }

    /// Create a new ping message
    pub fn ping(data: impl IntoPayload) -> (r: Self)
        ensures
            r.msg_type == MessageType::Ping,
            r.data() == data.payload_view(),
    {
        Message { msg_type: MessageType::Ping, payload: data.into_payload() }
    }

    /// Create a new pong message
    pub fn pong(data: impl IntoPayload) -> (r: Self)
        ensures
            r.msg_type == MessageType::Pong,
            r.data() == data.payload_view(),
    {
        Message { msg_type: MessageType::Pong, payload: data.into_payload() }
    }

    /// Create a new close message: the status code (big-endian) followed by
    /// the reason; a reason without a code is dropped.
    pub fn close(code: Option<u16>, reason: Option<String>) -> (r: Self)
        ensures
            r.msg_type == MessageType::Close,
            r.data() == close_payload(
                code,
                match reason {
                    Some(s) => Some(s@),
                    None => None,
                },
            ),
    {
        let mut payload: Vec<u8> = Vec::new();
        if let Some(c) = code {
            payload.push((c / 256) as u8);
            payload.push((c % 256) as u8);
            if let Some(r) = reason {
                let bytes = r.as_str().as_bytes();
                let mut i: usize = 0;
                let ghost start = payload@;
                while i < bytes.len()
                    invariant
                        i <= bytes@.len(),
                        payload@ == start + bytes@.subrange(0, i as int),
                    decreases bytes@.len() - i,
                {
                    payload.push(bytes[i]);
                    assert(payload@ =~= start + bytes@.subrange(0, i + 1));
                    i = i + 1;
                }
                assert(bytes@.subrange(0, i as int) =~= bytes@);
            } else {
                assert(payload@ =~= seq![(c / 256) as u8, (c % 256) as u8] + Seq::<u8>::empty());
            }
        }
        Message { msg_type: MessageType::Close, payload: Bytes::from(payload) }
    }

    /// Get message as text: fails if the message is not a text message, or
    /// if its payload is not valid UTF-8.
    pub fn as_text(&self) -> (r: Result<String>)
        ensures
            self.msg_type != MessageType::Text ==> (r matches Err(Error::InvalidFrame(m)) && m@
                == "Expected text message, got "@ + msg_type_name(self.msg_type)),
            self.msg_type == MessageType::Text ==> (r is Ok <==> vstd::utf8::valid_utf8(self.data())),
            self.msg_type == MessageType::Text && !vstd::utf8::valid_utf8(self.data()) ==> (
            r matches Err(Error::Utf8Error(_))),
            r matches Ok(s) ==> s@ == vstd::utf8::decode_utf8(self.data()),
    {
        if self.msg_type != MessageType::Text {
            let mut m = String::from_str("Expected text message, got ");
            let t = self.msg_type.to_string();
            m.append(t.as_str());
            return Err(Error::InvalidFrame(m));
        }
        let bytes: &[u8] = &self.payload;
        match string_from_utf8(vstd::slice::slice_to_vec(bytes)) {
            Ok(s) => Ok(s),
            Err(e) => Err(Error::Utf8Error(e)),
        }
    }

    /// The payload of a message whose content is parsed as JSON: fails for
    /// any message that is not a text message.
    pub fn json_source(&self) -> (r: Result<&[u8]>)
        ensures
            self.msg_type == MessageType::Text ==> (r matches Ok(b) && b@ == self.data()),
            self.msg_type != MessageType::Text ==> (r matches Err(Error::InvalidFrame(m)) && m@
                == "Cannot parse "@ + msg_type_name(self.msg_type) + " as JSON"@),
    {
        if self.msg_type != MessageType::Text {
            let mut m = String::from_str("Cannot parse ");
            let t = self.msg_type.to_string();
            m.append(t.as_str());
            m.append(" as JSON");
            return Err(Error::InvalidFrame(m));
        }
        Ok(&self.payload)
    }

    /// Get message as bytes
    pub fn as_bytes(&self) -> (r: &[u8])
        ensures
            r@ == self.data(),
    {
        &self.payload
    }

    /// Get message payload
    pub fn payload(&self) -> (r: &Bytes)
        ensures
            *r == self.payload,
    {
        &self.payload
    }

    /// Get message type
    pub fn msg_type(&self) -> (r: &MessageType)
        ensures
            *r == self.msg_type,
    {
        &self.msg_type
    }

    /// Check if message is text
    pub fn is_text(&self) -> (r: bool)
        ensures
            r == (self.msg_type == MessageType::Text),
    {
        self.msg_type == MessageType::Text
    }

    /// Check if message is binary
    pub fn is_binary(&self) -> (r: bool)
        ensures
            r == (self.msg_type == MessageType::Binary),
    {
        self.msg_type == MessageType::Binary
    }

    /// Check if message is ping
    pub fn is_ping(&self) -> (r: bool)
        ensures
            r == (self.msg_type == MessageType::Ping),
    {
        self.msg_type == MessageType::Ping
    }

    /// Check if message is pong
    pub fn is_pong(&self) -> (r: bool)
        ensures
            r == (self.msg_type == MessageType::Pong),
    {
        self.msg_type == MessageType::Pong
    }

    /// Check if message is close
    pub fn is_close(&self) -> (r: bool)
        ensures
            r == (self.msg_type == MessageType::Close),
    {
        self.msg_type == MessageType::Close
    }

    /// Get message size in bytes
    pub fn len(&self) -> (r: usize)
        ensures
            r == self.data().len(),
    {
        self.payload.len()
    }

    /// Check if message is empty
    pub fn is_empty(&self) -> (r: bool)
        ensures
            r == (self.data().len() == 0),
    {
        self.payload.len() == 0
    }

    /// A one-line description: the type and the size, and for a text
    /// message the text, cut after 50 bytes (followed by "...") when longer.
    /// The cut must fall between two characters.
    pub fn to_string(&self) -> (r: String)
        requires
            self.msg_type == MessageType::Text && vstd::utf8::valid_utf8(self.data())
                && self.data().len() > 50 ==> vstd::utf8::valid_utf8(self.data().subrange(0, 50)),
        ensures
            r@ == message_description(*self),
    {
        let mut s = self.msg_type.to_string();
        s.append(" (");
        push_decimal(&mut s, self.payload.len() as u128);
        s.append(" bytes)");
        if self.msg_type == MessageType::Text {
            if let Ok(text) = self.as_text() {
                s.append(": ");
                if self.payload.len() > 50 {
                    let bytes: &[u8] = &self.payload;
                    let head = vstd::slice::slice_to_vec(vstd::slice::slice_subrange(bytes, 0, 50));
                    match string_from_utf8(head) {
                        Ok(h) => s.append(h.as_str()),
                        Err(_) => {},
                    }
                    s.append("...");
                } else {
                    s.append(text.as_str());
                }
            }
        }
        s
    }
}

impl From<String> for Message {
    /// A text message (see `Message::text`)
    fn from(text: String) -> (r: Self)
        ensures
            r.msg_type == MessageType::Text,
            r.data() == vstd::utf8::encode_utf8(text@),
    {
        Message::text(text)
    }
}

impl vstd::std_specs::convert::FromSpecImpl<String> for Message {
    /// No equation is claimed for `from`: its `ensures` says what it gives.
    open spec fn obeys_from_spec() -> bool {
        false
    }

    open spec fn from_spec(v: String) -> Self {
        vstd::pervasive::arbitrary()
    }
}

impl<'a> From<&'a str> for Message {
    /// A text message (see `Message::text`)
    fn from(text: &'a str) -> (r: Self)
        ensures
            r.msg_type == MessageType::Text,
            r.data() == vstd::utf8::encode_utf8(text@),
    {
        Message::text(text)
    }
}

impl<'a> vstd::std_specs::convert::FromSpecImpl<&'a str> for Message {
    /// No equation is claimed for `from`: its `ensures` says what it gives.
    open spec fn obeys_from_spec() -> bool {
        false
    }

    open spec fn from_spec(v: &'a str) -> Self {
        vstd::pervasive::arbitrary()
    }
}

impl From<Vec<u8>> for Message {
    /// A binary message (see `Message::binary`)
    fn from(data: Vec<u8>) -> (r: Self)
        ensures
            r.msg_type == MessageType::Binary,
            r.data() == data@,
    {
        Message::binary(data)
    }
}

impl vstd::std_specs::convert::FromSpecImpl<Vec<u8>> for Message {
    /// No equation is claimed for `from`: its `ensures` says what it gives.
    open spec fn obeys_from_spec() -> bool {
        false
    }

    open spec fn from_spec(v: Vec<u8>) -> Self {
        vstd::pervasive::arbitrary()
    }
}

impl<'a> From<&'a [u8]> for Message {
    /// A binary message copying the slice (see `Message::binary_from_slice`)
    fn from(data: &'a [u8]) -> (r: Self)
        ensures
            r.msg_type == MessageType::Binary,
            r.data() == data@,
    {
        Message::binary_from_slice(data)
    }
}

impl<'a> vstd::std_specs::convert::FromSpecImpl<&'a [u8]> for Message {
    /// No equation is claimed for `from`: its `ensures` says what it gives.
    open spec fn obeys_from_spec() -> bool {
        false
    }

    open spec fn from_spec(v: &'a [u8]) -> Self {
        vstd::pervasive::arbitrary()
    }
}

/// The description of a message: its type and size, and for a valid text
/// message ": " and the text, cut after 50 bytes followed by "..." when
/// longer.
pub open spec fn message_description(m: Message) -> Seq<char> {
    let head = msg_type_name(m.msg_type) + " ("@ + decimal(m.data().len()) + " bytes)"@;
    if m.msg_type == MessageType::Text && vstd::utf8::valid_utf8(m.data()) {
        if m.data().len() > 50 {
            head + ": "@ + vstd::utf8::decode_utf8(m.data().subrange(0, 50)) + "..."@
        } else {
            head + ": "@ + vstd::utf8::decode_utf8(m.data())
        }
    } else {
        head
    }
}

/// WebSocket frame
#[derive(Debug, Clone)]
pub struct Frame {
    /// Final frame flag
    pub fin: bool,
    /// Reserved bit 1
    pub rsv1: bool,
    /// Reserved bit 2
    pub rsv2: bool,
    /// Reserved bit 3
    pub rsv3: bool,
    /// Message opcode
    pub opcode: u8,
    /// Payload data
    pub payload: Bytes,
}

impl Frame {
    /// The bytes of the payload.
    pub open spec fn data(&self) -> Seq<u8> {
        bytes_view(self.payload)
    }

    /// Create a new frame (reserved bits clear)
    pub fn new(fin: bool, opcode: u8, payload: impl IntoPayload) -> (r: Self)
        ensures
            r.fin == fin,
            r.opcode == opcode,
            !r.rsv1 && !r.rsv2 && !r.rsv3,
            r.data() == payload.payload_view(),
    {
        Frame { fin, rsv1: false, rsv2: false, rsv3: false, opcode, payload: payload.into_payload() }
    }

    /// Get frame size
    pub fn len(&self) -> (r: usize)
        ensures
            r == self.data().len(),
    {
        self.payload.len()
    }

    /// Check if frame is empty
    pub fn is_empty(&self) -> (r: bool)
        ensures
            r == (self.data().len() == 0),
    {
        self.payload.len() == 0
    }

    /// Check if frame is final
    pub fn is_final(&self) -> (r: bool)
        ensures
            r == self.fin,
    {
        self.fin
    }

    /// Get opcode
    pub fn opcode(&self) -> (r: u8)
        ensures
            r == self.opcode,
    {
        self.opcode
    }
}

} // verus!
