//! The RESP encoders. Replies on the wire are byte sequences, so the
//! dispatcher uses the byte-level encoders; `RespSerializer` offers the same
//! framing over text.

use vstd::prelude::*;
use vstd::string::StringExecFns;

use crate::codec::{
    spec_encode_error, spec_encode_nil, spec_encode_simple_string, ERROR_BYTE, SIMPLE_STRING_BYTE,
};
use crate::data::{CR, NEW_LINE};

verus! {

/// The wire form of a simple-string reply: `+`, the payload, a line end.
pub fn encode_simple_string(payload: &[u8]) -> (r: Vec<u8>)
    ensures
        r@ == spec_encode_simple_string(payload@),
{
    let mut out: Vec<u8> = Vec::new();
    out.push(SIMPLE_STRING_BYTE);
    out.extend_from_slice(payload);
    out.push(CR);
    out.push(NEW_LINE);
    proof {
        assert(out@ =~= spec_encode_simple_string(payload@));
    }
    out
}

/// The wire form of an error reply: `-`, the message, a line end.
pub fn encode_error(payload: &[u8]) -> (r: Vec<u8>)
    ensures
        r@ == spec_encode_error(payload@),
{
    let mut out: Vec<u8> = Vec::new();
    out.push(ERROR_BYTE);
    out.extend_from_slice(payload);
    out.push(CR);
    out.push(NEW_LINE);
    proof {
        assert(out@ =~= spec_encode_error(payload@));
    }
    out
}

/// The wire form of the nil reply, the null bulk string `$-1`.
pub fn encode_nil() -> (r: Vec<u8>)
    ensures
        r@ == spec_encode_nil(),
{
    let mut out: Vec<u8> = Vec::new();
    out.push(crate::codec::BULK_STRING_BYTE);
    out.push(ERROR_BYTE);
    out.push(crate::codec::DIGIT_ONE);
    out.push(CR);
    out.push(NEW_LINE);
    proof {
        assert(out@ =~= spec_encode_nil());
    }
    out
}

/// The stateless RESP encoder over text.
pub struct RespSerializer;

impl Default for RespSerializer {
    fn default() -> (r: Self)
        ensures
            r == RespSerializer,
    {
        RespSerializer
    }
}

impl RespSerializer {
    /// Frame `result` as a simple-string reply: `+`, the text, a line end.
    pub fn serialize_ss(self, result: &str) -> (r: String)
        ensures
            r@ == seq!['+'] + result@ + seq!['\r', '\n'],
    {
        let mut out = String::from_str("+");
        out.append(result);
        out.append("\r\n");
        proof {
            reveal_strlit("+");
            reveal_strlit("\r\n");
            assert(out@ =~= seq!['+'] + result@ + seq!['\r', '\n']);
        }
        out
    }

    /// Frame `result` as an error reply: `-`, the text, a line end.
    pub fn serialize_error(self, result: &str) -> (r: String)
        ensures
            r@ == seq!['-'] + result@ + seq!['\r', '\n'],
    {
        let mut out = String::from_str("-");
        out.append(result);
        out.append("\r\n");
        proof {
            reveal_strlit("-");
            reveal_strlit("\r\n");
            assert(out@ =~= seq!['-'] + result@ + seq!['\r', '\n']);
        }
        out
    }

    /// The nil reply as text: the null bulk string `$-1`.
    pub fn serialize_nil(self) -> (r: String)
        ensures
            r@ == seq!['$', '-', '1', '\r', '\n'],
    {
        let out = String::from_str("$-1\r\n");
        proof {
            reveal_strlit("$-1\r\n");
            assert(out@ =~= seq!['$', '-', '1', '\r', '\n']);
        }
        out
    }
}

} // verus!
