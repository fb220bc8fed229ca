use redis_server::serializer::{encode_error, encode_nil, encode_simple_string, RespSerializer};

#[test]
fn test_serialize_ss() {
    let resp_serializer = RespSerializer::default();
    assert_eq!(resp_serializer.serialize_ss("result"), "+result\r\n")
}

#[test]
fn test_serialize_error() {
    let resp_serializer = RespSerializer::default();
    assert_eq!(resp_serializer.serialize_error("error"), "-error\r\n")
}

#[test]
fn test_serialize_nil() {
    let resp_serializer = RespSerializer::default();
    assert_eq!(resp_serializer.serialize_nil(), "$-1\r\n")
}

#[test]
fn test_encode_simple_string_exact() {
    assert_eq!(encode_simple_string(b"pong"), b"+pong\r\n".to_vec());
    assert_eq!(encode_simple_string(b""), b"+\r\n".to_vec());
}

#[test]
fn test_encode_error_exact() {
    assert_eq!(encode_error(b"oops"), b"-oops\r\n".to_vec());
}

#[test]
fn test_encode_nil_exact() {
    assert_eq!(encode_nil(), b"$-1\r\n".to_vec());
}
