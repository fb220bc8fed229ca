//! The command dispatcher: a state-free interpreter that reads a decoded
//! value as a command, runs it against the store, and produces the encoded
//! reply. Every anticipated failure — wrong shape, wrong type, missing
//! argument, unknown verb — becomes an error reply, never an abort, because
//! the caller runs the dispatcher while holding the store's exclusive lock.

use vstd::prelude::*;
use vstd::string::StringSliceAdditionalSpecFns;

use crate::codec::{spec_decode, spec_encode_error, spec_encode_nil, spec_encode_simple_string,
    DecodeOutcome};
use crate::data::{elems_model, lemma_elems_model, value_model, RESPDataType, ValueModel};
use crate::deserializer::RespDeserializer;
use crate::parser::bytes_eq;
use crate::serializer::{encode_error, encode_nil, encode_simple_string};
use crate::store::Store;

verus! {

/// The wire bytes of the error reply that carries `msg`.
pub open spec fn error_reply(msg: &str) -> Seq<u8> {
    spec_encode_error(msg.spec_bytes())
}

/// The canned CONFIG reply: a two-element array holding an empty `save`
/// parameter.
pub open spec fn spec_config_reply() -> Seq<u8> {
    "*2\r\n$4\r\nsave\r\n$0\r\n\r\n".spec_bytes()
}

/// The reply to ECHO: the echoed argument as a simple string, or an error
/// naming what is missing or wrongly typed.
pub open spec fn spec_echo_reply(elems: Seq<ValueModel>) -> Seq<u8> {
    if elems.len() >= 2 {
        match elems[1] {
            ValueModel::BulkString(msg) => spec_encode_simple_string(msg),
            _ => error_reply("Echo should be followed by a string."),
        }
    } else {
        error_reply("Missing 'message' argument.")
    }
}

/// What SET yields: on a key and a value it records the pair and replies
/// `OK`; otherwise it replies an error and records nothing, so no command
/// partially applies its side effect.
pub open spec fn spec_set_outcome(elems: Seq<ValueModel>, store: Map<Seq<u8>, Seq<u8>>) -> (Seq<
    u8,
>, Map<Seq<u8>, Seq<u8>>) {
    if elems.len() < 2 {
        (error_reply("Missing 'key' argument."), store)
    } else if elems.len() < 3 {
        (error_reply("Missing 'value' argument."), store)
    } else {
        match (elems[1], elems[2]) {
            (ValueModel::BulkString(k), ValueModel::BulkString(v)) => (
                spec_encode_simple_string("OK".spec_bytes()),
                store.insert(k, v),
            ),
            _ => (error_reply("Set should be followed by 2 bulk strings."), store),
        }
    }
}

/// The reply to GET: the stored value as a simple string, the nil reply when
/// the key maps nothing, or an error naming what is missing or wrongly
/// typed. The store itself is never changed.
pub open spec fn spec_get_reply(elems: Seq<ValueModel>, store: Map<Seq<u8>, Seq<u8>>) -> Seq<u8> {
    if elems.len() >= 2 {
        match elems[1] {
            ValueModel::BulkString(k) => if store.contains_key(k) {
                spec_encode_simple_string(store[k])
            } else {
                spec_encode_nil()
            },
            _ => error_reply("Echo should be followed by a string."),
        }
    } else {
        error_reply("Missing 'key' argument.")
    }
}

/// Dispatch on the verb named by the command's first element. Only the
/// literal lowercase and uppercase forms of each verb match; any other verb
/// is unimplemented.
pub open spec fn dispatch_verb_spec(
    verb: Seq<u8>,
    elems: Seq<ValueModel>,
    store: Map<Seq<u8>, Seq<u8>>,
) -> (Seq<u8>, Map<Seq<u8>, Seq<u8>>) {
    if verb == "config".spec_bytes() || verb == "CONFIG".spec_bytes() {
        (spec_config_reply(), store)
    } else if verb == "ping".spec_bytes() || verb == "PING".spec_bytes() {
        (spec_encode_simple_string("pong".spec_bytes()), store)
    } else if verb == "echo".spec_bytes() || verb == "ECHO".spec_bytes() {
        (spec_echo_reply(elems), store)
    } else if verb == "set".spec_bytes() || verb == "SET".spec_bytes() {
        spec_set_outcome(elems, store)
    } else if verb == "get".spec_bytes() || verb == "GET".spec_bytes() {
        (spec_get_reply(elems, store), store)
    } else {
        (error_reply("Unimplemented command."), store)
    }
}

/// What dispatching a decoded value yields: the encoded reply and the store
/// that results. A value that is no array, and an array whose first element
/// is no bulk string, are protocol violations answered with an error reply.
pub open spec fn dispatch_spec(v: ValueModel, store: Map<Seq<u8>, Seq<u8>>) -> (Seq<u8>, Map<
    Seq<u8>,
    Seq<u8>,
>) {
    match v {
        ValueModel::Array(elems) => if elems.len() > 0 && elems[0] is BulkString {
            dispatch_verb_spec(elems[0]->BulkString_0, elems, store)
        } else {
            (error_reply("First element in command should be a bulk string."), store)
        },
        _ => (error_reply("Command should be an array."), store),
    }
}

/// Frame `error_str` as an error reply.
pub fn handle_error(error_str: &str) -> (r: Vec<u8>)
    ensures
        r@ == error_reply(error_str),
{
    encode_error(error_str.as_bytes())
}

/// The reply to an unimplemented command.
pub fn handle_default() -> (r: Vec<u8>)
    ensures
        r@ == error_reply("Unimplemented command."),
{
    handle_error("Unimplemented command.")
}

/// The canned CONFIG reply.
pub fn handle_config() -> (r: Vec<u8>)
    ensures
        r@ == spec_config_reply(),
{
    vstd::slice::slice_to_vec("*2\r\n$4\r\nsave\r\n$0\r\n\r\n".as_bytes())
}

/// The reply to PING: `pong` as a simple string.
pub fn handle_ping() -> (r: Vec<u8>)
    ensures
        r@ == spec_encode_simple_string("pong".spec_bytes()),
{
    encode_simple_string("pong".as_bytes())
}

/// The reply to ECHO: echo the second element back as a simple string.
pub fn handle_echo(resp_data_types: Vec<RESPDataType>) -> (r: Vec<u8>)
    ensures
        r@ == spec_echo_reply(elems_model(resp_data_types@)),
{
    proof {
        lemma_elems_model(resp_data_types@);
    }
    if resp_data_types.len() >= 2 {
        match &resp_data_types[1] {
            RESPDataType::BulkString(return_msg) => encode_simple_string(return_msg.as_slice()),
            _ => handle_error("Echo should be followed by a string."),
        }
    } else {
        handle_error("Missing 'message' argument.")
    }
}

/// Run SET: record the key and the value, reply `OK`; on a malformed
/// command, reply the error and record nothing.
pub fn handle_set(resp_data_types: Vec<RESPDataType>, store: &mut Store) -> (r: Vec<u8>)
    requires
        old(store).wf(),
    ensures
        final(store).wf(),
        (r@, final(store)@) == spec_set_outcome(
            elems_model(resp_data_types@),
            old(store)@,
        ),
{
    proof {
        lemma_elems_model(resp_data_types@);
    }
    if resp_data_types.len() < 2 {
        return handle_error("Missing 'key' argument.");
    }
    if resp_data_types.len() < 3 {
        return handle_error("Missing 'value' argument.");
    }
    let key_is_bulk = matches!(&resp_data_types[1], RESPDataType::BulkString(_));
    let val_is_bulk = matches!(&resp_data_types[2], RESPDataType::BulkString(_));
    if key_is_bulk && val_is_bulk {
        let key = match &resp_data_types[1] {
            RESPDataType::BulkString(k) => k.clone(),
            _ => Vec::new(),
        };
        let val = match &resp_data_types[2] {
            RESPDataType::BulkString(v) => v.clone(),
            _ => Vec::new(),
        };
        store.set_key_val(key, val);
        encode_simple_string("OK".as_bytes())
    } else {
        handle_error("Set should be followed by 2 bulk strings.")
    }
}

/// Run GET: reply the stored value as a simple string, or the nil reply when
/// the key maps nothing. The store is never changed, so repeated GET on an
/// unmodified key returns the same value every time.
pub fn handle_get(resp_data_types: Vec<RESPDataType>, store: &mut Store) -> (r: Vec<u8>)
    requires
        old(store).wf(),
    ensures
        final(store).wf(),
        final(store)@ == old(store)@,
        r@ == spec_get_reply(elems_model(resp_data_types@), old(store)@),
{
    proof {
        lemma_elems_model(resp_data_types@);
    }
    if resp_data_types.len() >= 2 {
        match &resp_data_types[1] {
            RESPDataType::BulkString(key) => {
                let value = store.get_from_key_val_store(key.clone());
                match value {
                    Some(result) => encode_simple_string(result.as_slice()),
                    None => encode_nil(),
                }
            },
            _ => handle_error("Echo should be followed by a string."),
        }
    } else {
        handle_error("Missing 'key' argument.")
    }
}

/// Interpret a decoded value as a command and run it against the store: the
/// reply and the new store are exactly what `dispatch_spec` says, for every
/// decoded value, so a protocol violation answers with an error reply rather
/// than aborting while the store's lock is held.
pub fn handle_resp_command(resp_command: RESPDataType, store: &mut Store) -> (response: Vec<u8>)
    requires
        old(store).wf(),
    ensures
        final(store).wf(),
        (response@, final(store)@) == dispatch_spec(value_model(resp_command), old(store)@),
{
    match resp_command {
        RESPDataType::Array(resp_data_types) => {
            proof {
                lemma_elems_model(resp_data_types@);
            }
            if resp_data_types.len() == 0 {
                return handle_error("First element in command should be a bulk string.");
            }
            let verb: Vec<u8> = match &resp_data_types[0] {
                RESPDataType::BulkString(first_command) => first_command.clone(),
                _ => {
                    return handle_error("First element in command should be a bulk string.");
                },
            };
            if bytes_eq(verb.as_slice(), "config".as_bytes()) || bytes_eq(
                verb.as_slice(),
                "CONFIG".as_bytes(),
            ) {
                handle_config()
            } else if bytes_eq(verb.as_slice(), "ping".as_bytes()) || bytes_eq(
                verb.as_slice(),
                "PING".as_bytes(),
            ) {
                handle_ping()
            } else if bytes_eq(verb.as_slice(), "echo".as_bytes()) || bytes_eq(
                verb.as_slice(),
                "ECHO".as_bytes(),
            ) {
                handle_echo(resp_data_types)
            } else if bytes_eq(verb.as_slice(), "set".as_bytes()) || bytes_eq(
                verb.as_slice(),
                "SET".as_bytes(),
            ) {
                handle_set(resp_data_types, store)
            } else if bytes_eq(verb.as_slice(), "get".as_bytes()) || bytes_eq(
                verb.as_slice(),
                "GET".as_bytes(),
            ) {
                handle_get(resp_data_types, store)
            } else {
                handle_default()
            }
        },
        _ => handle_error("Command should be an array."),
    }
}

/// One request against the store: decode the buffer from its start, dispatch
/// a complete value, and return the encoded reply; an incomplete or
/// malformed buffer yields the empty reply and leaves the store untouched.
pub fn handle_request(buffer: &Vec<u8>, store: &mut Store) -> (response: Vec<u8>)
    requires
        old(store).wf(),
    ensures
        final(store).wf(),
        match spec_decode(buffer@, 0) {
            DecodeOutcome::Complete(_, v) => (response@, final(store)@) == dispatch_spec(
                v,
                old(store)@,
            ),
            _ => response@ == Seq::<u8>::empty() && final(store)@ == old(store)@,
        },
{
    let deserializer = RespDeserializer::default();
    let resp_result = deserializer.deserialize(buffer, 0);
    match resp_result {
        Ok(Some((_, resp_data_type))) => handle_resp_command(resp_data_type, store),
        _ => Vec::new(),
    }
}

} // verus!
