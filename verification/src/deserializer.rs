//! The RESP decoder entry point: dispatch on the prefix byte and hand the
//! body to the matching parser.

use vstd::prelude::*;

use crate::codec::{
    result_models, spec_decode, ARRAY_BYTE, BULK_STRING_BYTE, ERROR_BYTE, INTEGER_BYTE,
    SIMPLE_STRING_BYTE,
};
use crate::data::{RESPError, RESPResult};
use crate::parser::{from_array, from_bulk_string, from_error, from_int, from_simple_string};

verus! {

/// The stateless RESP decoder; decoding always restarts from the position it
/// is handed, no partial state survives a call.
pub struct RespDeserializer;

impl Default for RespDeserializer {
    fn default() -> (r: Self)
        ensures
            r == RespDeserializer,
    {
        RespDeserializer
    }
}

impl RespDeserializer {
    /// Decode one value from `buffer` starting at `pos`: dispatch on the
    /// byte there. A position at or past the end of the buffer is a prefix
    /// of every encoding and asks for more bytes; a byte that no RESP type
    /// starts with can never decode.
    pub fn deserialize(self, buffer: &Vec<u8>, pos: usize) -> (r: RESPResult)
        ensures
            result_models(r, spec_decode(buffer@, pos as int)),
        decreases buffer@.len() - pos as int, 0int,
    {
        if pos >= buffer.len() {
            return Ok(None);
        }
        let b = buffer[pos];
        if b == SIMPLE_STRING_BYTE {
            from_simple_string(buffer, pos + 1)
        } else if b == ERROR_BYTE {
            from_error(buffer, pos + 1)
        } else if b == INTEGER_BYTE {
            from_int(buffer, pos + 1)
        } else if b == BULK_STRING_BYTE {
            from_bulk_string(buffer, pos + 1)
        } else if b == ARRAY_BYTE {
            from_array(buffer, pos + 1)
        } else {
            Err(RESPError::UnknownStartingByte)
        }
    }
}

} // verus!
