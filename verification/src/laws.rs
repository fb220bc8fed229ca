//! The laws the codec and the dispatcher obey, stated over the
//! specification-level decoder and dispatcher and proved once and for all:
//! round-tripping the encoded replies, the stability of decode outcomes
//! under buffer extension, and the store-facing guarantees of GET and SET.

use vstd::prelude::*;
use vstd::string::StringSliceAdditionalSpecFns;

use crate::codec::{
    first_line_end, is_line_end, lemma_decode_advances, lemma_first_line_end_bounds,
    lemma_first_line_end_of, lemma_word_bounds, spec_decode, spec_decode_elems, spec_encode_error,
    spec_encode_nil, spec_encode_simple_string, spec_parsed_i64, spec_word, DecodeOutcome,
    ElemsOutcome, ARRAY_BYTE, BULK_STRING_BYTE,
};
use crate::data::ValueModel;
use crate::dispatch::dispatch_spec;

verus! {

/// The wire bytes of each verb the dispatcher matches, spelled out.
proof fn lemma_verb_bytes()
    ensures
        "config".spec_bytes() =~= seq![
            'c' as u8,
            'o' as u8,
            'n' as u8,
            'f' as u8,
            'i' as u8,
            'g' as u8,
        ],
        "CONFIG".spec_bytes() =~= seq![
            'C' as u8,
            'O' as u8,
            'N' as u8,
            'F' as u8,
            'I' as u8,
            'G' as u8,
        ],
        "ping".spec_bytes() =~= seq!['p' as u8, 'i' as u8, 'n' as u8, 'g' as u8],
        "PING".spec_bytes() =~= seq!['P' as u8, 'I' as u8, 'N' as u8, 'G' as u8],
        "echo".spec_bytes() =~= seq!['e' as u8, 'c' as u8, 'h' as u8, 'o' as u8],
        "ECHO".spec_bytes() =~= seq!['E' as u8, 'C' as u8, 'H' as u8, 'O' as u8],
        "set".spec_bytes() =~= seq!['s' as u8, 'e' as u8, 't' as u8],
        "SET".spec_bytes() =~= seq!['S' as u8, 'E' as u8, 'T' as u8],
        "get".spec_bytes() =~= seq!['g' as u8, 'e' as u8, 't' as u8],
        "GET".spec_bytes() =~= seq!['G' as u8, 'E' as u8, 'T' as u8],
{
    reveal_strlit("config");
    reveal_strlit("CONFIG");
    reveal_strlit("ping");
    reveal_strlit("PING");
    reveal_strlit("echo");
    reveal_strlit("ECHO");
    reveal_strlit("set");
    reveal_strlit("SET");
    reveal_strlit("get");
    reveal_strlit("GET");
    assert(vstd::utf8::is_ascii_chars("config"@));
    assert(vstd::utf8::is_ascii_chars("CONFIG"@));
    assert(vstd::utf8::is_ascii_chars("ping"@));
    assert(vstd::utf8::is_ascii_chars("PING"@));
    assert(vstd::utf8::is_ascii_chars("echo"@));
    assert(vstd::utf8::is_ascii_chars("ECHO"@));
    assert(vstd::utf8::is_ascii_chars("set"@));
    assert(vstd::utf8::is_ascii_chars("SET"@));
    assert(vstd::utf8::is_ascii_chars("get"@));
    assert(vstd::utf8::is_ascii_chars("GET"@));
    vstd::utf8::is_ascii_chars_encode_utf8("config"@);
    vstd::utf8::is_ascii_chars_encode_utf8("CONFIG"@);
    vstd::utf8::is_ascii_chars_encode_utf8("ping"@);
    vstd::utf8::is_ascii_chars_encode_utf8("PING"@);
    vstd::utf8::is_ascii_chars_encode_utf8("echo"@);
    vstd::utf8::is_ascii_chars_encode_utf8("ECHO"@);
    vstd::utf8::is_ascii_chars_encode_utf8("set"@);
    vstd::utf8::is_ascii_chars_encode_utf8("SET"@);
    vstd::utf8::is_ascii_chars_encode_utf8("get"@);
    vstd::utf8::is_ascii_chars_encode_utf8("GET"@);
}

/// Law (round trip): decoding an encoded simple-string reply reproduces the
/// value. The payload must carry no line end, since a simple string with one
/// inside cannot be represented on the wire at all.
pub proof fn lemma_round_trip_simple_string(payload: Seq<u8>)
    requires
        forall|i: int| 0 <= i < payload.len() ==> !is_line_end(payload[i]),
    ensures
        spec_decode(spec_encode_simple_string(payload), 0) == DecodeOutcome::Complete(
            payload.len() as int + 3,
            ValueModel::SimpleString(payload),
        ),
{
    let s = spec_encode_simple_string(payload);
    let e = payload.len() as int + 1;
    assert forall|j: int| 1 <= j < e implies !is_line_end(s[j]) by {
        assert(s[j] == payload[j - 1]);
    }
    lemma_first_line_end_of(s, 1, e);
    assert(s.subrange(1, e) =~= payload);
}

/// Law (round trip): decoding an encoded error reply reproduces the value,
/// for every message that carries no line end.
pub proof fn lemma_round_trip_error(payload: Seq<u8>)
    requires
        forall|i: int| 0 <= i < payload.len() ==> !is_line_end(payload[i]),
    ensures
        spec_decode(spec_encode_error(payload), 0) == DecodeOutcome::Complete(
            payload.len() as int + 3,
            ValueModel::Error(payload),
        ),
{
    let s = spec_encode_error(payload);
    let e = payload.len() as int + 1;
    assert forall|j: int| 1 <= j < e implies !is_line_end(s[j]) by {
        assert(s[j] == payload[j - 1]);
    }
    lemma_first_line_end_of(s, 1, e);
    assert(s.subrange(1, e) =~= payload);
}

/// Law (round trip): decoding the encoded nil reply yields the null bulk
/// string.
pub proof fn lemma_round_trip_nil()
    ensures
        spec_decode(spec_encode_nil(), 0) == DecodeOutcome::Complete(
            5,
            ValueModel::NullBulkString,
        ),
{
    let s = spec_encode_nil();
    lemma_first_line_end_of(s, 1, 3);
    let w = s.subrange(1, 3);
    assert(spec_word(s, 1) == Some((5int, w)));
    assert(w.len() == 2 && w[0] == crate::codec::ERROR_BYTE && w[1] == crate::codec::DIGIT_ONE);
    let digits = w.subrange(1, 2);
    assert(digits.len() == 1 && digits[0] == crate::codec::DIGIT_ONE);
    assert(digits.subrange(0, 0) =~= Seq::<u8>::empty());
    assert(crate::codec::digits_val(digits.subrange(0, 0)) == 0);
    assert(crate::codec::digits_val(digits) == 1);
    assert(crate::codec::int_literal_val(w) == -1);
    assert(spec_parsed_i64(w) == Some(-1int));
}

/// Whether `s` is what `w` holds in its first `s.len()` bytes, so that `w`
/// is `s` with more bytes read onto its end.
pub open spec fn is_prefix_of(s: Seq<u8>, w: Seq<u8>) -> bool {
    s.len() <= w.len() && forall|j: int| 0 <= j < s.len() ==> s[j] == w[j]
}

/// A word that ends within `s` ends identically in every extension of `s`.
proof fn lemma_word_stable(s: Seq<u8>, w: Seq<u8>, pos: int)
    requires
        is_prefix_of(s, w),
        0 <= pos,
    ensures
        spec_word(s, pos) matches Some(px) ==> spec_word(w, pos) == Some(px),
{
    lemma_first_line_end_bounds(s, pos);
    if spec_word(s, pos) is Some {
        match first_line_end(s, pos) {
            Some(e) => {
                assert forall|j: int| pos <= j < e implies !is_line_end(w[j]) by {
                    assert(w[j] == s[j]);
                }
                lemma_first_line_end_of(w, pos, e);
                assert(w.subrange(pos, e) =~= s.subrange(pos, e));
            },
            None => {},
        }
    }
}

/// Law: the decode outcomes that bind — a complete value, and a
/// malformation — are stable under reading more bytes onto the buffer's end;
/// only Incomplete can change. In particular, Malformed signals input that
/// no amount of further reading can make valid.
pub proof fn lemma_decode_stable(s: Seq<u8>, w: Seq<u8>, pos: int)
    requires
        is_prefix_of(s, w),
    ensures
        spec_decode(s, pos) matches DecodeOutcome::Complete(q, v) ==> spec_decode(w, pos)
            == DecodeOutcome::Complete(q, v),
        spec_decode(s, pos) matches DecodeOutcome::Malformed(e) ==> spec_decode(w, pos)
            == DecodeOutcome::Malformed(e),
    decreases s.len() - pos, 0int, 0int,
{
    if 0 <= pos < s.len() {
        assert(w[pos] == s[pos]);
        lemma_word_stable(s, w, pos + 1);
        if s[pos] == BULK_STRING_BYTE {
            if let Some((p, x)) = spec_word(s, pos + 1) {
                if let Some(size) = spec_parsed_i64(x) {
                    if size >= 0 && p + size + 2 <= s.len() {
                        lemma_word_bounds(s, pos + 1);
                        assert(w[p + size] == s[p + size]);
                        assert(w[p + size + 1] == s[p + size + 1]);
                        assert(w.subrange(p, p + size) =~= s.subrange(p, p + size));
                    }
                }
            }
        }
        if s[pos] == ARRAY_BYTE {
            if let Some((p, x)) = spec_word(s, pos + 1) {
                if let Some(n) = spec_parsed_i64(x) {
                    if n > 0 {
                        lemma_word_bounds(s, pos + 1);
                        lemma_elems_stable(s, w, p, n);
                    }
                }
            }
        }
    }
}

/// A complete or malformed run of `n` values is likewise stable under
/// extension.
pub proof fn lemma_elems_stable(s: Seq<u8>, w: Seq<u8>, pos: int, n: int)
    requires
        is_prefix_of(s, w),
        0 <= pos <= s.len(),
    ensures
        spec_decode_elems(s, pos, n) matches ElemsOutcome::Complete(q, vs) ==> spec_decode_elems(
            w,
            pos,
            n,
        ) == ElemsOutcome::Complete(q, vs),
        spec_decode_elems(s, pos, n) matches ElemsOutcome::Malformed(e) ==> spec_decode_elems(
            w,
            pos,
            n,
        ) == ElemsOutcome::Malformed(e),
    decreases s.len() - pos, 1int, n,
{
    if n > 0 {
        lemma_decode_stable(s, w, pos);
        if let DecodeOutcome::Complete(q, v) = spec_decode(s, pos) {
            lemma_decode_advances(s, pos);
            lemma_elems_stable(s, w, q, n - 1);
        }
    }
}

/// Law (incompleteness monotonicity): a prefix of a buffer that decodes
/// completely is itself complete or incomplete, never malformed — so a
/// decoder that reports Incomplete and is then handed the grown buffer never
/// reports the encoding that was in progress as malformed.
pub proof fn lemma_prefix_of_complete_not_malformed(s: Seq<u8>, w: Seq<u8>, pos: int)
    requires
        is_prefix_of(s, w),
        spec_decode(w, pos) is Complete,
    ensures
        !(spec_decode(s, pos) is Malformed),
{
    lemma_decode_stable(s, w, pos);
}

/// A GET command for `k`, as the decoder would deliver it.
pub open spec fn get_command(k: Seq<u8>) -> ValueModel {
    ValueModel::Array(
        seq![ValueModel::BulkString("get".spec_bytes()), ValueModel::BulkString(k)],
    )
}

/// A SET command for `k` and `v`, as the decoder would deliver it.
pub open spec fn set_command(k: Seq<u8>, v: Seq<u8>) -> ValueModel {
    ValueModel::Array(
        seq![
            ValueModel::BulkString("set".spec_bytes()),
            ValueModel::BulkString(k),
            ValueModel::BulkString(v),
        ],
    )
}

/// Law: dispatching GET replies the stored value (or the nil reply) and
/// never modifies the store, so repeated GET on an unmodified key returns
/// the same value every time.
pub proof fn lemma_get_idempotent(k: Seq<u8>, store: Map<Seq<u8>, Seq<u8>>)
    ensures
        ({
            let (r1, s1) = dispatch_spec(get_command(k), store);
            let (r2, s2) = dispatch_spec(get_command(k), s1);
            s1 == store && s2 == store && r2 == r1
        }),
{
    lemma_verb_bytes();
}

/// Law (SET/GET consistency): for all keys `k` and values `v`, SET `k v`
/// replies `OK` and a following GET `k` replies exactly `v`, again leaving
/// the store as SET left it.
pub proof fn lemma_set_get_consistency(k: Seq<u8>, v: Seq<u8>, store: Map<Seq<u8>, Seq<u8>>)
    ensures
        ({
            let (set_reply, store1) = dispatch_spec(set_command(k, v), store);
            let (get_reply, store2) = dispatch_spec(get_command(k), store1);
            set_reply == spec_encode_simple_string("OK".spec_bytes()) && store1 == store.insert(
                k,
                v,
            ) && get_reply == spec_encode_simple_string(v) && store2 == store1
        }),
{
    lemma_verb_bytes();
}

} // verus!
