use redis_server::data::RESPDataType;
use redis_server::parser::{
    find_carraige_return, from_array, from_bulk_string, from_error, from_int, from_simple_string,
    parse_word,
};

#[test]
fn test_find_carraige_return() {
    let mut buf: Vec<u8> = Vec::with_capacity(20);
    buf.extend_from_slice(&b"hello world\r\n"[..]);
    assert_eq!(find_carraige_return(&buf).unwrap(), 11);
}

#[test]
fn test_find_carraige_return_none() {
    let mut buf: Vec<u8> = Vec::with_capacity(20);
    buf.extend_from_slice(&b"hello world"[..]);
    assert_eq!(find_carraige_return(&buf), None);
}

#[test]
fn test_parse_word_from_start() {
    let mut buf: Vec<u8> = Vec::with_capacity(20);
    buf.extend_from_slice(&b"hello world\r\n"[..]);
    let result = parse_word(&buf, 0);
    assert_eq!(result, Some((13, b"hello world".to_vec())));
}

#[test]
fn test_parse_word_from_middle() {
    let mut buf: Vec<u8> = Vec::with_capacity(20);
    buf.extend_from_slice(&b"hello\r\nworld\r\n"[..]);
    let result = parse_word(&buf, 7);
    assert_eq!(result, Some((14, b"world".to_vec())));
}

#[test]
fn test_from_simple_string() {
    let mut buf: Vec<u8> = Vec::with_capacity(20);
    buf.extend_from_slice(&b"OK\r\n"[..]);
    let result = from_simple_string(&buf, 0);
    assert_eq!(
        result.unwrap().unwrap(),
        (4 as usize, RESPDataType::SimpleString(b"OK".to_vec()))
    );
}

#[test]
fn test_from_error() {
    let mut buf: Vec<u8> = Vec::with_capacity(20);
    buf.extend_from_slice(&b"error\r\n"[..]);
    let result = from_error(&buf, 0);
    assert_eq!(
        result.unwrap().unwrap(),
        (7 as usize, RESPDataType::Error(b"error".to_vec()))
    );
}

#[test]
fn test_from_int() {
    let mut buf: Vec<u8> = Vec::with_capacity(20);
    buf.extend_from_slice(&b"64\r\n"[..]);
    let result = from_int(&buf, 0);
    assert_eq!(result.unwrap().unwrap(), (4 as usize, RESPDataType::Integer(64)));
}

#[test]
fn test_bulk_str_null() {
    let mut buf: Vec<u8> = Vec::with_capacity(20);
    buf.extend_from_slice(&b"-1\r\n"[..]);
    let result = from_bulk_string(&buf, 0);
    assert_eq!(result.unwrap().unwrap(), (4 as usize, RESPDataType::NullBulkString));
}

#[test]
fn test_bulk_str_empty() {
    let mut buf: Vec<u8> = Vec::with_capacity(20);
    buf.extend_from_slice(&b"0\r\n\r\n"[..]);
    let result = from_bulk_string(&buf, 0);
    assert_eq!(result.unwrap().unwrap(), (5, RESPDataType::BulkString(b"".to_vec())));
}

#[test]
fn test_bulk_str_normal() {
    let mut buf: Vec<u8> = Vec::with_capacity(20);
    buf.extend_from_slice(&b"5\r\nhello\r\n"[..]);
    let result = from_bulk_string(&buf, 0);
    assert_eq!(
        result.unwrap().unwrap(),
        (10 as usize, RESPDataType::BulkString(b"hello".to_vec()))
    );
}

#[test]
fn test_array_null() {
    let mut buf: Vec<u8> = Vec::with_capacity(20);
    buf.extend_from_slice(&b"-1\r\n"[..]);
    let result = from_array(&buf, 0);
    assert_eq!(result.unwrap().unwrap(), (4 as usize, RESPDataType::NullArray));
}

#[test]
fn test_array_ping() {
    let mut buf: Vec<u8> = Vec::with_capacity(20);
    buf.extend_from_slice(&b"1\r\n$4\r\nping\r\n"[..]);
    let result = from_array(&buf, 0);
    let expected_vec = vec![RESPDataType::BulkString(b"ping".to_vec())];
    assert_eq!(
        result.unwrap().unwrap(),
        (13 as usize, RESPDataType::Array(expected_vec))
    );
}

#[test]
fn test_array_echo() {
    let mut buf: Vec<u8> = Vec::with_capacity(20);
    buf.extend_from_slice(&b"2\r\n$4\r\necho\r\n$11\r\nhello world\r\n"[..]);
    let result = from_array(&buf, 0);
    let expected_vec = vec![
        RESPDataType::BulkString(b"echo".to_vec()),
        RESPDataType::BulkString(b"hello world".to_vec()),
    ];
    assert_eq!(
        result.unwrap().unwrap(),
        (31 as usize, RESPDataType::Array(expected_vec))
    );
}
