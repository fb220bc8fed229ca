use redis_server::data::{RESPDataType, RESPError};
use redis_server::deserializer::RespDeserializer;

#[test]
fn test_deserialize_ss() {
    let mut buf: Vec<u8> = Vec::with_capacity(20);
    buf.extend_from_slice(&b"+OK\r\n"[..]);
    let resp_deserializer = RespDeserializer::default();
    assert_eq!(
        resp_deserializer.deserialize(&buf, 0).unwrap().unwrap(),
        (5 as usize, RESPDataType::SimpleString(b"OK".to_vec()))
    )
}

#[test]
fn test_deserialize_error() {
    let mut buf: Vec<u8> = Vec::with_capacity(20);
    buf.extend_from_slice(&b"-Error message\r\n"[..]);
    let resp_deserializer = RespDeserializer::default();
    assert_eq!(
        resp_deserializer.deserialize(&buf, 0).unwrap().unwrap(),
        (16 as usize, RESPDataType::Error(b"Error message".to_vec()))
    )
}

#[test]
fn test_deserialize_int() {
    let mut buf: Vec<u8> = Vec::with_capacity(20);
    buf.extend_from_slice(&b":1024\r\n"[..]);
    let resp_deserializer = RespDeserializer::default();
    assert_eq!(
        resp_deserializer.deserialize(&buf, 0).unwrap().unwrap(),
        (7 as usize, RESPDataType::Integer(1024))
    )
}

#[test]
fn test_deserialize_bulk_str() {
    let mut buf: Vec<u8> = Vec::with_capacity(20);
    buf.extend_from_slice(&b"$5\r\nlorem\r\n"[..]);
    let resp_deserializer = RespDeserializer::default();
    assert_eq!(
        resp_deserializer.deserialize(&buf, 0).unwrap().unwrap(),
        (11 as usize, RESPDataType::BulkString(b"lorem".to_vec()))
    )
}

#[test]
fn test_deserialize_array() {
    let mut buf: Vec<u8> = Vec::with_capacity(20);
    buf.extend_from_slice(&b"*2\r\n$4\r\necho\r\n$11\r\nhello world\r\n"[..]);
    let resp_deserializer = RespDeserializer::default();
    let expected_vec = vec![
        RESPDataType::BulkString(b"echo".to_vec()),
        RESPDataType::BulkString(b"hello world".to_vec()),
    ];
    assert_eq!(
        resp_deserializer.deserialize(&buf, 0).unwrap().unwrap(),
        (32 as usize, RESPDataType::Array(expected_vec))
    )
}

#[test]
fn test_deserialize_array_ping() {
    let mut buf: Vec<u8> = Vec::with_capacity(20);
    buf.extend_from_slice(&b"*1\r\n$4\r\nping\r\n"[..]);
    let resp_deserializer = RespDeserializer::default();
    let expected_vec = vec![RESPDataType::BulkString(b"ping".to_vec())];
    assert_eq!(
        resp_deserializer.deserialize(&buf, 0).unwrap().unwrap(),
        (14 as usize, RESPDataType::Array(expected_vec))
    )
}

#[test]
fn test_unknown_starting_byte() {
    let mut buf: Vec<u8> = Vec::with_capacity(20);
    buf.extend_from_slice(&b"@Unknown\r\n"[..]);
    let resp_deserializer = RespDeserializer::default();
    assert_eq!(
        resp_deserializer.deserialize(&buf, 0).unwrap_err(),
        RESPError::UnknownStartingByte
    )
}
