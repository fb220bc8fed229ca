use redis_server::data::{RESPDataType, RESPError};
use redis_server::deserializer::RespDeserializer;
use redis_server::dispatch::{handle_request, handle_resp_command};
use redis_server::serializer::{encode_error, encode_nil, encode_simple_string};
use redis_server::store::Store;

#[test]
fn scenario_ping() {
    let mut store = Store::init();
    let reply = handle_request(&b"*1\r\n$4\r\nping\r\n".to_vec(), &mut store);
    assert_eq!(reply, b"+pong\r\n".to_vec());
}

#[test]
fn scenario_echo() {
    let mut store = Store::init();
    let reply = handle_request(&b"*2\r\n$4\r\necho\r\n$5\r\nhello\r\n".to_vec(), &mut store);
    assert_eq!(reply, b"+hello\r\n".to_vec());
}

#[test]
fn scenario_set_then_get() {
    let mut store = Store::init();
    let set_reply = handle_request(
        &b"*3\r\n$3\r\nset\r\n$3\r\nfoo\r\n$3\r\nbar\r\n".to_vec(),
        &mut store,
    );
    assert_eq!(set_reply, b"+OK\r\n".to_vec());
    let get_reply = handle_request(&b"*2\r\n$3\r\nget\r\n$3\r\nfoo\r\n".to_vec(), &mut store);
    assert_eq!(get_reply, b"+bar\r\n".to_vec());
}

#[test]
fn scenario_get_missing_is_nil() {
    let mut store = Store::init();
    let reply = handle_request(&b"*2\r\n$3\r\nget\r\n$7\r\nmissing\r\n".to_vec(), &mut store);
    assert_eq!(reply, b"$-1\r\n".to_vec());
}

#[test]
fn scenario_non_array_command_is_error() {
    let mut store = Store::init();
    let reply = handle_request(&b"$5\r\nhello\r\n".to_vec(), &mut store);
    assert_eq!(reply, b"-Command should be an array.\r\n".to_vec());
}

#[test]
fn scenario_truncated_input_is_incomplete() {
    let result = RespDeserializer::default().deserialize(&b"*2\r\n$4\r\nec".to_vec(), 0);
    assert_eq!(result, Ok(None));
}

#[test]
fn get_is_idempotent() {
    let mut store = Store::init();
    handle_request(
        &b"*3\r\n$3\r\nset\r\n$3\r\nfoo\r\n$3\r\nbar\r\n".to_vec(),
        &mut store,
    );
    let first = handle_request(&b"*2\r\n$3\r\nget\r\n$3\r\nfoo\r\n".to_vec(), &mut store);
    let second = handle_request(&b"*2\r\n$3\r\nget\r\n$3\r\nfoo\r\n".to_vec(), &mut store);
    let third = handle_request(&b"*2\r\n$3\r\nget\r\n$3\r\nfoo\r\n".to_vec(), &mut store);
    assert_eq!(first, b"+bar\r\n".to_vec());
    assert_eq!(second, first);
    assert_eq!(third, first);
}

#[test]
fn set_overwrites_equal_key() {
    let mut store = Store::init();
    store.set_key_val(b"k".to_vec(), b"one".to_vec());
    store.set_key_val(b"k".to_vec(), b"two".to_vec());
    assert_eq!(store.get_from_key_val_store(b"k".to_vec()), Some(b"two".to_vec()));
}

#[test]
fn store_get_absent_is_none() {
    let store = Store::init();
    assert_eq!(store.get_from_key_val_store(b"nothing".to_vec()), None);
}

#[test]
fn store_set_get_many_keys() {
    let mut store = Store::init();
    store.set_key_val(b"a".to_vec(), b"1".to_vec());
    store.set_key_val(b"b".to_vec(), b"2".to_vec());
    store.set_key_val(b"".to_vec(), b"empty key".to_vec());
    assert_eq!(store.get_from_key_val_store(b"a".to_vec()), Some(b"1".to_vec()));
    assert_eq!(store.get_from_key_val_store(b"b".to_vec()), Some(b"2".to_vec()));
    assert_eq!(
        store.get_from_key_val_store(b"".to_vec()),
        Some(b"empty key".to_vec())
    );
}

#[test]
fn uppercase_verbs_match() {
    let mut store = Store::init();
    assert_eq!(
        handle_request(&b"*1\r\n$4\r\nPING\r\n".to_vec(), &mut store),
        b"+pong\r\n".to_vec()
    );
    assert_eq!(
        handle_request(
            &b"*3\r\n$3\r\nSET\r\n$1\r\nx\r\n$1\r\ny\r\n".to_vec(),
            &mut store
        ),
        b"+OK\r\n".to_vec()
    );
    assert_eq!(
        handle_request(&b"*2\r\n$3\r\nGET\r\n$1\r\nx\r\n".to_vec(), &mut store),
        b"+y\r\n".to_vec()
    );
}

#[test]
fn mixed_case_verb_is_unimplemented() {
    let mut store = Store::init();
    let reply = handle_request(&b"*1\r\n$4\r\nPing\r\n".to_vec(), &mut store);
    assert_eq!(reply, b"-Unimplemented command.\r\n".to_vec());
}

#[test]
fn config_reply_is_canned() {
    let mut store = Store::init();
    let reply = handle_request(&b"*1\r\n$6\r\nconfig\r\n".to_vec(), &mut store);
    assert_eq!(reply, b"*2\r\n$4\r\nsave\r\n$0\r\n\r\n".to_vec());
}

#[test]
fn missing_arguments_are_named() {
    let mut store = Store::init();
    assert_eq!(
        handle_request(&b"*1\r\n$4\r\necho\r\n".to_vec(), &mut store),
        b"-Missing 'message' argument.\r\n".to_vec()
    );
    assert_eq!(
        handle_request(&b"*1\r\n$3\r\nset\r\n".to_vec(), &mut store),
        b"-Missing 'key' argument.\r\n".to_vec()
    );
    assert_eq!(
        handle_request(&b"*2\r\n$3\r\nset\r\n$1\r\nk\r\n".to_vec(), &mut store),
        b"-Missing 'value' argument.\r\n".to_vec()
    );
    assert_eq!(
        handle_request(&b"*1\r\n$3\r\nget\r\n".to_vec(), &mut store),
        b"-Missing 'key' argument.\r\n".to_vec()
    );
}

#[test]
fn wrong_typed_arguments_are_errors() {
    let mut store = Store::init();
    assert_eq!(
        handle_request(&b"*2\r\n$4\r\necho\r\n:42\r\n".to_vec(), &mut store),
        b"-Echo should be followed by a string.\r\n".to_vec()
    );
    assert_eq!(
        handle_request(&b"*3\r\n$3\r\nset\r\n:1\r\n:2\r\n".to_vec(), &mut store),
        b"-Set should be followed by 2 bulk strings.\r\n".to_vec()
    );
    assert_eq!(
        handle_request(&b"*2\r\n$3\r\nget\r\n:42\r\n".to_vec(), &mut store),
        b"-Echo should be followed by a string.\r\n".to_vec()
    );
}

#[test]
fn first_element_must_be_bulk_string() {
    let mut store = Store::init();
    assert_eq!(
        handle_request(&b"*1\r\n:42\r\n".to_vec(), &mut store),
        b"-First element in command should be a bulk string.\r\n".to_vec()
    );
    let reply = handle_resp_command(RESPDataType::Array(Vec::new()), &mut store);
    assert_eq!(
        reply,
        b"-First element in command should be a bulk string.\r\n".to_vec()
    );
}

#[test]
fn unknown_verb_is_unimplemented() {
    let mut store = Store::init();
    let reply = handle_request(&b"*1\r\n$4\r\nkeys\r\n".to_vec(), &mut store);
    assert_eq!(reply, b"-Unimplemented command.\r\n".to_vec());
}

#[test]
fn empty_input_writes_nothing() {
    let mut store = Store::init();
    let reply = handle_request(&Vec::new(), &mut store);
    assert_eq!(reply, Vec::<u8>::new());
}

#[test]
fn malformed_input_writes_nothing() {
    let mut store = Store::init();
    let reply = handle_request(&b"@nonsense\r\n".to_vec(), &mut store);
    assert_eq!(reply, Vec::<u8>::new());
}

#[test]
fn int_parse_failure() {
    assert_eq!(
        RespDeserializer::default().deserialize(&b":abc\r\n".to_vec(), 0),
        Err(RESPError::IntParseFailure)
    );
    assert_eq!(
        RespDeserializer::default().deserialize(&b":\r\n".to_vec(), 0),
        Err(RESPError::IntParseFailure)
    );
    assert_eq!(
        RespDeserializer::default().deserialize(&b":12x\r\n".to_vec(), 0),
        Err(RESPError::IntParseFailure)
    );
}

#[test]
fn int_extremes_parse() {
    assert_eq!(
        RespDeserializer::default().deserialize(&b":9223372036854775807\r\n".to_vec(), 0),
        Ok(Some((22, RESPDataType::Integer(i64::MAX))))
    );
    assert_eq!(
        RespDeserializer::default().deserialize(&b":-9223372036854775808\r\n".to_vec(), 0),
        Ok(Some((23, RESPDataType::Integer(i64::MIN))))
    );
    assert_eq!(
        RespDeserializer::default().deserialize(&b":9223372036854775808\r\n".to_vec(), 0),
        Err(RESPError::IntParseFailure)
    );
    assert_eq!(
        RespDeserializer::default().deserialize(&b":-9223372036854775809\r\n".to_vec(), 0),
        Err(RESPError::IntParseFailure)
    );
    assert_eq!(
        RespDeserializer::default().deserialize(&b":+42\r\n".to_vec(), 0),
        Ok(Some((6, RESPDataType::Integer(42))))
    );
}

#[test]
fn invalid_bulk_string_size() {
    assert_eq!(
        RespDeserializer::default().deserialize(&b"$-2\r\n".to_vec(), 0),
        Err(RESPError::InvalidBulkStringSize)
    );
    assert_eq!(
        RespDeserializer::default().deserialize(&b"$2\r\nabcd\r\n".to_vec(), 0),
        Err(RESPError::InvalidBulkStringSize)
    );
}

#[test]
fn invalid_array_element_size() {
    assert_eq!(
        RespDeserializer::default().deserialize(&b"*0\r\n".to_vec(), 0),
        Err(RESPError::InvalidArrayElementSize)
    );
    assert_eq!(
        RespDeserializer::default().deserialize(&b"*-2\r\n".to_vec(), 0),
        Err(RESPError::InvalidArrayElementSize)
    );
}

#[test]
fn empty_buffer_is_incomplete() {
    assert_eq!(RespDeserializer::default().deserialize(&Vec::new(), 0), Ok(None));
}

#[test]
fn lone_carriage_return_never_ends_a_word() {
    assert_eq!(RespDeserializer::default().deserialize(&b"+ab\rx".to_vec(), 0), Ok(None));
}

#[test]
fn round_trip_replies_decode_back() {
    assert_eq!(
        RespDeserializer::default().deserialize(&encode_simple_string(b"pong"), 0),
        Ok(Some((7, RESPDataType::SimpleString(b"pong".to_vec()))))
    );
    assert_eq!(
        RespDeserializer::default().deserialize(&encode_error(b"bad"), 0),
        Ok(Some((6, RESPDataType::Error(b"bad".to_vec()))))
    );
    assert_eq!(
        RespDeserializer::default().deserialize(&encode_nil(), 0),
        Ok(Some((5, RESPDataType::NullBulkString)))
    );
}

#[test]
fn incomplete_then_complete_under_extension() {
    let prefixes: &[&[u8]] = &[
        b"*",
        b"*2",
        b"*2\r",
        b"*2\r\n",
        b"*2\r\n$4\r\nec",
        b"*2\r\n$4\r\necho\r\n$5\r\nhel",
    ];
    for p in prefixes {
            assert_eq!(RespDeserializer::default().deserialize(&p.to_vec(), 0), Ok(None));
    }
    let full = b"*2\r\n$4\r\necho\r\n$5\r\nhello\r\n".to_vec();
    let expected = RESPDataType::Array(vec![
        RESPDataType::BulkString(b"echo".to_vec()),
        RESPDataType::BulkString(b"hello".to_vec()),
    ]);
    assert_eq!(RespDeserializer::default().deserialize(&full, 0), Ok(Some((25, expected))));
}

#[test]
fn malformed_stays_malformed_under_extension() {
    assert_eq!(
        RespDeserializer::default().deserialize(&b":12x\r\n".to_vec(), 0),
        Err(RESPError::IntParseFailure)
    );
    assert_eq!(
        RespDeserializer::default().deserialize(&b":12x\r\nmore bytes".to_vec(), 0),
        Err(RESPError::IntParseFailure)
    );
}

#[test]
fn bulk_string_payload_is_read_byte_exactly() {
    // a line end inside the payload belongs to the payload: the declared
    // length decides where it stops
    assert_eq!(
        RespDeserializer::default().deserialize(&b"$6\r\nab\r\ncd\r\n".to_vec(), 0),
        Ok(Some((12, RESPDataType::BulkString(b"ab\r\ncd".to_vec()))))
    );
}

#[test]
fn nested_arrays_decode() {
    let expected = RESPDataType::Array(vec![RESPDataType::Array(vec![
        RESPDataType::BulkString(b"hi".to_vec()),
    ])]);
    assert_eq!(
        RespDeserializer::default().deserialize(&b"*1\r\n*1\r\n$2\r\nhi\r\n".to_vec(), 0),
        Ok(Some((16, expected)))
    );
}

#[test]
fn deserialize_from_middle_position() {
    assert_eq!(
        RespDeserializer::default().deserialize(&b"xx+OK\r\n".to_vec(), 2),
        Ok(Some((7, RESPDataType::SimpleString(b"OK".to_vec()))))
    );
}

#[test]
fn position_past_end_is_incomplete() {
    assert_eq!(
        RespDeserializer::default().deserialize(&b"+OK\r\n".to_vec(), 5),
        Ok(None)
    );
}

#[test]
fn echo_of_raw_bytes_survives() {
    let mut store = Store::init();
    let reply = handle_request(&b"*2\r\n$4\r\necho\r\n$4\r\n\x00\xff\x80A\r\n".to_vec(), &mut store);
    assert_eq!(reply, b"+\x00\xff\x80A\r\n".to_vec());
}
