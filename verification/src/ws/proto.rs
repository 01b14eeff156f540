//! WebSocket protocol constants: frame opcodes, close codes and the
//! handshake accept key.
use vstd::prelude::*;
use vstd::string::StringSliceAdditionalSpecFns;

verus! {

/// Operation codes as part of rfc6455.
#[derive(Debug, Clone, Copy, PartialEq, Eq, Structural)]
pub enum OpCode {
    /// Indicates a continuation frame of a fragmented message.
    Continue,
    /// Indicates a text data frame.
    Text,
    /// Indicates a binary data frame.
    Binary,
    /// Indicates a close control frame.
    Close,
    /// Indicates a ping control frame.
    Ping,
    /// Indicates a pong control frame.
    Pong,
    /// Indicates an invalid opcode was received.
    Bad,
}

/// The opcode that a frame's opcode byte denotes.
pub open spec fn opcode_of_byte(byte: u8) -> OpCode {
    match byte {
        0 => OpCode::Continue,
        1 => OpCode::Text,
        2 => OpCode::Binary,
        8 => OpCode::Close,
        9 => OpCode::Ping,
        10 => OpCode::Pong,
        _ => OpCode::Bad,
    }
}

/// The byte that encodes an opcode in a frame. `Bad` has no encoding of its
/// own: it is sent as a close frame, so that the connection is torn down.
pub open spec fn byte_of_opcode(op: OpCode) -> u8 {
    match op {
        OpCode::Continue => 0,
        OpCode::Text => 1,
        OpCode::Binary => 2,
        OpCode::Close => 8,
        OpCode::Ping => 9,
        OpCode::Pong => 10,
        OpCode::Bad => 8,
    }
}

/// The upper-case name by which an opcode is displayed.
pub open spec fn opcode_name(op: OpCode) -> Seq<char> {
    match op {
        OpCode::Continue => "CONTINUE"@,
        OpCode::Text => "TEXT"@,
        OpCode::Binary => "BINARY"@,
        OpCode::Close => "CLOSE"@,
        OpCode::Ping => "PING"@,
        OpCode::Pong => "PONG"@,
        OpCode::Bad => "BAD"@,
    }
}

impl OpCode {
    /// The display name of the opcode (`CONTINUE`, `TEXT`, ...).
    pub fn to_string(&self) -> (s: String)
        ensures
            s@ == opcode_name(*self),
    {
        match *self {
            OpCode::Continue => "CONTINUE".to_owned(),
            OpCode::Text => "TEXT".to_owned(),
            OpCode::Binary => "BINARY".to_owned(),
            OpCode::Close => "CLOSE".to_owned(),
            OpCode::Ping => "PING".to_owned(),
            OpCode::Pong => "PONG".to_owned(),
            OpCode::Bad => "BAD".to_owned(),
        }
    }
}

impl From<u8> for OpCode {
    fn from(byte: u8) -> (op: OpCode) {
        match byte {
            0 => OpCode::Continue,
            1 => OpCode::Text,
            2 => OpCode::Binary,
            8 => OpCode::Close,
            9 => OpCode::Ping,
            10 => OpCode::Pong,
            _ => OpCode::Bad,
        }
    }
}

impl vstd::std_specs::convert::FromSpecImpl<u8> for OpCode {
    open spec fn obeys_from_spec() -> bool {
        true
    }

    open spec fn from_spec(byte: u8) -> OpCode {
        opcode_of_byte(byte)
    }
}

impl From<OpCode> for u8 {
    fn from(op: OpCode) -> (byte: u8) {
        match op {
            OpCode::Continue => 0,
            OpCode::Text => 1,
            OpCode::Binary => 2,
            OpCode::Close => 8,
            OpCode::Ping => 9,
            OpCode::Pong => 10,
            OpCode::Bad => 8,
        }
    }
}

impl vstd::std_specs::convert::FromSpecImpl<OpCode> for u8 {
    open spec fn obeys_from_spec() -> bool {
        true
    }

    open spec fn from_spec(op: OpCode) -> u8 {
        byte_of_opcode(op)
    }
}

/// Status code used to indicate why an endpoint is closing the `WebSocket` connection.
#[derive(Debug, Clone, Copy, PartialEq, Eq, Structural)]
pub enum CloseCode {
    /// Indicates a normal closure, meaning that the purpose for
    /// which the connection was established has been fulfilled.
    Normal,
    /// Indicates that an endpoint is "going away", such as a server
    /// going down or a browser having navigated away from a page.
    Away,
    /// Indicates that an endpoint is terminating the connection due
    /// to a protocol error.
    Protocol,
    /// Indicates that an endpoint is terminating the connection
    /// because it has received a type of data it cannot accept.
    Unsupported,
    /// Indicates that no status code was included in a closing frame.
    Status,
    /// Indicates an abnormal closure.
    Abnormal,
    /// Indicates that an endpoint is terminating the connection
    /// because it has received data within a message that was not
    /// consistent with the type of the message.
    Invalid,
    /// Indicates that an endpoint is terminating the connection
    /// because it has received a message that violates its policy.
    Policy,
    /// Indicates that an endpoint is terminating the connection
    /// because it has received a message that is too big for it to
    /// process.
    Size,
    /// Indicates that a client is terminating the connection because the
    /// server did not negotiate an extension it expected.
    Extension,
    /// Indicates that a server is terminating the connection because
    /// it encountered an unexpected condition.
    Error,
    /// Indicates that the server is restarting.
    Restart,
    /// Indicates that the server is overloaded.
    Again,
    /// Indicates a failure to perform a TLS handshake.
    Tls,
    /// No code.
    Empty,
    /// Any other numeric code.
    Other(u16),
}

/// The numeric status that a close code is sent as.
pub open spec fn close_code_value(code: CloseCode) -> u16 {
    match code {
        CloseCode::Normal => 1000,
        CloseCode::Away => 1001,
        CloseCode::Protocol => 1002,
        CloseCode::Unsupported => 1003,
        CloseCode::Status => 1005,
        CloseCode::Abnormal => 1006,
        CloseCode::Invalid => 1007,
        CloseCode::Policy => 1008,
        CloseCode::Size => 1009,
        CloseCode::Extension => 1010,
        CloseCode::Error => 1011,
        CloseCode::Restart => 1012,
        CloseCode::Again => 1013,
        CloseCode::Tls => 1015,
        CloseCode::Empty => 0,
        CloseCode::Other(c) => c,
    }
}

/// The close code that a numeric status denotes.
pub open spec fn close_code_of_value(value: u16) -> CloseCode {
    match value {
        1000 => CloseCode::Normal,
        1001 => CloseCode::Away,
        1002 => CloseCode::Protocol,
        1003 => CloseCode::Unsupported,
        1005 => CloseCode::Status,
        1006 => CloseCode::Abnormal,
        1007 => CloseCode::Invalid,
        1008 => CloseCode::Policy,
        1009 => CloseCode::Size,
        1010 => CloseCode::Extension,
        1011 => CloseCode::Error,
        1012 => CloseCode::Restart,
        1013 => CloseCode::Again,
        1015 => CloseCode::Tls,
        0 => CloseCode::Empty,
        _ => CloseCode::Other(value),
    }
}

impl From<CloseCode> for u16 {
    fn from(code: CloseCode) -> (value: u16) {
        match code {
            CloseCode::Normal => 1000,
            CloseCode::Away => 1001,
            CloseCode::Protocol => 1002,
            CloseCode::Unsupported => 1003,
            CloseCode::Status => 1005,
            CloseCode::Abnormal => 1006,
            CloseCode::Invalid => 1007,
            CloseCode::Policy => 1008,
            CloseCode::Size => 1009,
            CloseCode::Extension => 1010,
            CloseCode::Error => 1011,
            CloseCode::Restart => 1012,
            CloseCode::Again => 1013,
            CloseCode::Tls => 1015,
            CloseCode::Empty => 0,
            CloseCode::Other(c) => c,
        }
    }
}

impl vstd::std_specs::convert::FromSpecImpl<CloseCode> for u16 {
    open spec fn obeys_from_spec() -> bool {
        true
    }

    open spec fn from_spec(code: CloseCode) -> u16 {
        close_code_value(code)
    }
}

impl From<u16> for CloseCode {
    fn from(value: u16) -> (code: CloseCode) {
        match value {
            1000 => CloseCode::Normal,
            1001 => CloseCode::Away,
            1002 => CloseCode::Protocol,
            1003 => CloseCode::Unsupported,
            1005 => CloseCode::Status,
            1006 => CloseCode::Abnormal,
            1007 => CloseCode::Invalid,
            1008 => CloseCode::Policy,
            1009 => CloseCode::Size,
            1010 => CloseCode::Extension,
            1011 => CloseCode::Error,
            1012 => CloseCode::Restart,
            1013 => CloseCode::Again,
            1015 => CloseCode::Tls,
            0 => CloseCode::Empty,
            _ => CloseCode::Other(value),
        }
    }
}

impl vstd::std_specs::convert::FromSpecImpl<u16> for CloseCode {
    open spec fn obeys_from_spec() -> bool {
        true
    }

    open spec fn from_spec(value: u16) -> CloseCode {
        close_code_of_value(value)
    }
}

/// Decoding an opcode byte and encoding the opcode again gives back the byte,
/// for every byte that denotes a valid opcode.
pub proof fn lemma_opcode_byte_roundtrip(byte: u8)
    requires
        opcode_of_byte(byte) != OpCode::Bad,
    ensures
        byte_of_opcode(opcode_of_byte(byte)) == byte,
{
}

/// Encoding a valid opcode and decoding the byte gives back the opcode.
pub proof fn lemma_opcode_roundtrip(op: OpCode)
    requires
        op != OpCode::Bad,
    ensures
        opcode_of_byte(byte_of_opcode(op)) == op,
{
}

/// Decoding a numeric close status and encoding it again always gives back
/// the number.
pub proof fn lemma_close_value_roundtrip(value: u16)
    ensures
        close_code_value(close_code_of_value(value)) == value,
{
}

/// Encoding a close code and decoding it gives back the code, except for an
/// `Other` that carries a number which has a name of its own.
pub proof fn lemma_close_code_roundtrip(code: CloseCode)
    requires
        code matches CloseCode::Other(c) ==> close_code_of_value(c) == CloseCode::Other(c),
    ensures
        close_code_of_value(close_code_value(code)) == code,
{
}

/// The GUID that RFC 6455 appends to the client's key before hashing.
pub const WS_GUID: &'static str = "258EAFA5-E914-47DA-95CA-C5AB0DC85B11";

/// The SHA-1 digest of a byte string.
pub uninterp spec fn spec_sha1(data: Seq<u8>) -> Seq<u8>;

/// The standard (padded) base64 encoding of a byte string.
pub uninterp spec fn spec_base64(data: Seq<u8>) -> Seq<char>;

/// Calls `sha1::Sha1::from(data).digest().bytes()` (the `sha1` crate, whose
/// code is `sha1_smol`). Claimed: the result is the digest named
/// `spec_sha1` of the bytes handed in, and it is 20 bytes long, as the
/// crate's `DIGEST_LENGTH` array type fixes. What the digest is on given
/// bytes is not stated.
#[verifier::external_body]
fn sha1_digest(data: &[u8]) -> (digest: Vec<u8>)
    ensures
        digest@ == spec_sha1(data@),
        digest@.len() == 20,
{
    sha1::Sha1::from(data).digest().bytes().to_vec()
}

/// Calls `base64::encode` (standard alphabet, with padding). Claimed: the
/// result is the encoding named `spec_base64` of the bytes handed in. What the
/// encoding is on given bytes is not stated.
#[verifier::external_body]
fn base64_encode(data: &[u8]) -> (encoded: String)
    ensures
        encoded@ == spec_base64(data@),
{
    base64::encode(data)
}

/// Hashes a `Sec-WebSocket-Key` into the matching `Sec-WebSocket-Accept`.
pub fn hash_key(key: &[u8]) -> (accept: String)
    ensures
        accept@ == spec_base64(spec_sha1(key@ + WS_GUID.spec_bytes())),
{
    let guid = WS_GUID.as_bytes();
    let mut data: Vec<u8> = Vec::new();
    let mut i: usize = 0;
    while i < key.len()
        invariant
            i <= key@.len(),
            data@ == key@.subrange(0, i as int),
        decreases key@.len() - i,
    {
        data.push(key[i]);
        i += 1;
    }
    let mut j: usize = 0;
    while j < guid.len()
        invariant
            j <= guid@.len(),
            data@ == key@ + guid@.subrange(0, j as int),
        decreases guid@.len() - j,
    {
        data.push(guid[j]);
        j += 1;
    }
    assert(guid@.subrange(0, guid@.len() as int) =~= guid@);
    let digest = sha1_digest(data.as_slice());
    base64_encode(digest.as_slice())
}

} // verus!
