use actix_web::ws::proto::{hash_key, CloseCode, OpCode};

fn opcode_into(byte: u8, expected: OpCode) {
    let res: OpCode = byte.into();
    assert_eq!(res, expected);
}

fn opcode_from(op: OpCode, expected: u8) {
    let res: u8 = op.into();
    assert_eq!(res, expected);
}

#[test]
fn test_to_opcode() {
    opcode_into(0, OpCode::Continue);
    opcode_into(1, OpCode::Text);
    opcode_into(2, OpCode::Binary);
    opcode_into(8, OpCode::Close);
    opcode_into(9, OpCode::Ping);
    opcode_into(10, OpCode::Pong);
    opcode_into(99, OpCode::Bad);
}

#[test]
fn test_from_opcode() {
    opcode_from(OpCode::Continue, 0);
    opcode_from(OpCode::Text, 1);
    opcode_from(OpCode::Binary, 2);
    opcode_from(OpCode::Close, 8);
    opcode_from(OpCode::Ping, 9);
    opcode_from(OpCode::Pong, 10);
}

#[test]
fn test_from_opcode_display() {
    assert_eq!(OpCode::Continue.to_string(), "CONTINUE");
    assert_eq!(OpCode::Text.to_string(), "TEXT");
    assert_eq!(OpCode::Binary.to_string(), "BINARY");
    assert_eq!(OpCode::Close.to_string(), "CLOSE");
    assert_eq!(OpCode::Ping.to_string(), "PING");
    assert_eq!(OpCode::Pong.to_string(), "PONG");
    assert_eq!(OpCode::Bad.to_string(), "BAD");
}

#[test]
fn closecode_from_u16() {
    assert_eq!(CloseCode::from(1000u16), CloseCode::Normal);
    assert_eq!(CloseCode::from(1001u16), CloseCode::Away);
    assert_eq!(CloseCode::from(1002u16), CloseCode::Protocol);
    assert_eq!(CloseCode::from(1003u16), CloseCode::Unsupported);
    assert_eq!(CloseCode::from(1005u16), CloseCode::Status);
    assert_eq!(CloseCode::from(1006u16), CloseCode::Abnormal);
    assert_eq!(CloseCode::from(1007u16), CloseCode::Invalid);
    assert_eq!(CloseCode::from(1008u16), CloseCode::Policy);
    assert_eq!(CloseCode::from(1009u16), CloseCode::Size);
    assert_eq!(CloseCode::from(1010u16), CloseCode::Extension);
    assert_eq!(CloseCode::from(1011u16), CloseCode::Error);
    assert_eq!(CloseCode::from(1012u16), CloseCode::Restart);
    assert_eq!(CloseCode::from(1013u16), CloseCode::Again);
    assert_eq!(CloseCode::from(1015u16), CloseCode::Tls);
    assert_eq!(CloseCode::from(0u16), CloseCode::Empty);
    assert_eq!(CloseCode::from(2000u16), CloseCode::Other(2000));
}

#[test]
fn closecode_into_u16() {
    assert_eq!(1000u16, Into::<u16>::into(CloseCode::Normal));
    assert_eq!(1001u16, Into::<u16>::into(CloseCode::Away));
    assert_eq!(1002u16, Into::<u16>::into(CloseCode::Protocol));
    assert_eq!(1003u16, Into::<u16>::into(CloseCode::Unsupported));
    assert_eq!(1005u16, Into::<u16>::into(CloseCode::Status));
    assert_eq!(1006u16, Into::<u16>::into(CloseCode::Abnormal));
    assert_eq!(1007u16, Into::<u16>::into(CloseCode::Invalid));
    assert_eq!(1008u16, Into::<u16>::into(CloseCode::Policy));
    assert_eq!(1009u16, Into::<u16>::into(CloseCode::Size));
    assert_eq!(1010u16, Into::<u16>::into(CloseCode::Extension));
    assert_eq!(1011u16, Into::<u16>::into(CloseCode::Error));
    assert_eq!(1012u16, Into::<u16>::into(CloseCode::Restart));
    assert_eq!(1013u16, Into::<u16>::into(CloseCode::Again));
    assert_eq!(1015u16, Into::<u16>::into(CloseCode::Tls));
    assert_eq!(0u16, Into::<u16>::into(CloseCode::Empty));
    assert_eq!(2000u16, Into::<u16>::into(CloseCode::Other(2000)));
}

#[test]
fn opcode_roundtrip_through_byte() {
    for op in [
        OpCode::Continue,
        OpCode::Text,
        OpCode::Binary,
        OpCode::Close,
        OpCode::Ping,
        OpCode::Pong,
    ] {
        let b: u8 = op.into();
        let back: OpCode = b.into();
        assert_eq!(back, op);
    }
}

#[test]
fn closecode_roundtrip_through_u16() {
    for code in [1000u16, 1001, 1011, 1015, 0, 2000, 4999] {
        let c = CloseCode::from(code);
        let back: u16 = c.into();
        assert_eq!(back, code);
    }
}

#[test]
fn hash_key_rfc_example() {
    assert_eq!(hash_key(b"dGhlIHNhbXBsZSBub25jZQ=="), "s3pPLMBiTxaQ9kYGzzhZRbK+xOo=");
}

#[test]
fn hash_key_depends_on_key() {
    assert_ne!(hash_key(b"x3JJHMbDL1EzLkh9GBhXDw=="), hash_key(b"dGhlIHNhbXBsZSBub25jZQ=="));
    assert_eq!(hash_key(b"x3JJHMbDL1EzLkh9GBhXDw=="), "HSmrc0sMlYUkAGmm5OPpG2HaGWk=");
}
