//! The mathematical model of the RESP codec: what each byte buffer decodes
//! to, and what the supported replies encode to. The executable decoder in
//! `parser` and `deserializer` is specified against `spec_decode`, and the
//! executable encoders in `serializer` against the `spec_encode_*` functions.

use vstd::prelude::*;

use crate::data::{value_model, RESPError, RESPResult, ValueModel, CR, NEW_LINE};

verus! {

/// The prefix byte of a simple string, `+`.
pub const SIMPLE_STRING_BYTE: u8 = 43;

/// The prefix byte of an error, `-`; also the minus sign of an integer.
pub const ERROR_BYTE: u8 = 45;

/// The prefix byte of an integer, `:`.
pub const INTEGER_BYTE: u8 = 58;

/// The prefix byte of a bulk string, `$`.
pub const BULK_STRING_BYTE: u8 = 36;

/// The prefix byte of an array, `*`.
pub const ARRAY_BYTE: u8 = 42;

/// The plus sign, `+`, accepted in front of an integer.
pub const PLUS_BYTE: u8 = 43;

/// The digit byte `0`; digits run from here to `DIGIT_NINE`.
pub const DIGIT_ZERO: u8 = 48;

/// The digit byte `9`.
pub const DIGIT_NINE: u8 = 57;

/// The digit byte `1`, used by the null sentinels `$-1` and `*-1`.
pub const DIGIT_ONE: u8 = 49;

/// What decoding a buffer from a position yields: a complete value and the
/// position just past it, a request for more bytes, or a malformed buffer
/// that no extension can repair.
pub enum DecodeOutcome {
    Complete(int, ValueModel),
    Incomplete,
    Malformed(RESPError),
}

/// What decoding a run of consecutive values yields.
pub enum ElemsOutcome {
    Complete(int, Seq<ValueModel>),
    Incomplete,
    Malformed(RESPError),
}

/// Whether `b` is one of the two bytes that can end a RESP line.
pub open spec fn is_line_end(b: u8) -> bool {
    b == CR || b == NEW_LINE
}

/// The position of the first carriage return or line feed at or after `pos`.
pub open spec fn first_line_end(s: Seq<u8>, pos: int) -> Option<int>
    decreases s.len() - pos,
{
    if pos < 0 || pos >= s.len() {
        None
    } else if is_line_end(s[pos]) {
        Some(pos)
    } else {
        first_line_end(s, pos + 1)
    }
}

/// The word starting at `pos`: the bytes up to the first carriage return or
/// line feed, which must itself be followed by a line feed. Yields the
/// position just past the terminator and the word; `None` while no such
/// terminator is visible, so a lone carriage return never ends a word.
pub open spec fn spec_word(s: Seq<u8>, pos: int) -> Option<(int, Seq<u8>)> {
    match first_line_end(s, pos) {
        Some(e) => if pos <= e && e + 1 < s.len() && s[e + 1] == NEW_LINE {
            Some((e + 2, s.subrange(pos, e)))
        } else {
            None
        },
        None => None,
    }
}

/// Whether `b` is an ASCII decimal digit.
pub open spec fn is_digit(b: u8) -> bool {
    DIGIT_ZERO <= b <= DIGIT_NINE
}

/// The value of a digit string read in base ten; the empty string reads as 0.
pub open spec fn digits_val(s: Seq<u8>) -> int
    decreases s.len(),
{
    if s.len() == 0 {
        0
    } else {
        10 * digits_val(s.subrange(0, s.len() - 1)) + (s[s.len() - 1] - DIGIT_ZERO)
    }
}

/// Whether every byte of `s` is an ASCII decimal digit.
pub open spec fn all_digits(s: Seq<u8>) -> bool {
    forall|i: int| 0 <= i < s.len() ==> is_digit(s[i])
}

/// Whether `s` is a well-formed signed decimal literal: an optional sign
/// followed by at least one digit and nothing else.
pub open spec fn is_int_literal(s: Seq<u8>) -> bool {
    if s.len() == 0 {
        false
    } else if s[0] == PLUS_BYTE || s[0] == ERROR_BYTE {
        s.len() >= 2 && all_digits(s.subrange(1, s.len() as int))
    } else {
        all_digits(s)
    }
}

/// The signed value of a well-formed decimal literal.
pub open spec fn int_literal_val(s: Seq<u8>) -> int {
    if s.len() > 0 && s[0] == ERROR_BYTE {
        -digits_val(s.subrange(1, s.len() as int))
    } else if s.len() > 0 && s[0] == PLUS_BYTE {
        digits_val(s.subrange(1, s.len() as int))
    } else {
        digits_val(s)
    }
}

/// What parsing `s` as a signed 64-bit integer yields: its value when `s` is
/// a well-formed literal whose value fits, and `None` otherwise.
pub open spec fn spec_parsed_i64(s: Seq<u8>) -> Option<int> {
    if is_int_literal(s) && i64::MIN <= int_literal_val(s) <= i64::MAX {
        Some(int_literal_val(s))
    } else {
        None
    }
}

/// Whether an executable decoder result reports exactly the outcome `o`.
pub open spec fn result_models(r: RESPResult, o: DecodeOutcome) -> bool {
    match r {
        Ok(opt) => match opt {
            Some((n, v)) => o == DecodeOutcome::Complete(n as int, value_model(v)),
            None => o == DecodeOutcome::Incomplete,
        },
        Err(e) => o == DecodeOutcome::Malformed(e),
    }
}

/// Decoding a simple-string body (the bytes after `+`) starting at `pos`.
pub open spec fn spec_decode_simple_string(s: Seq<u8>, pos: int) -> DecodeOutcome {
    match spec_word(s, pos) {
        Some((p, w)) => DecodeOutcome::Complete(p, ValueModel::SimpleString(w)),
        None => DecodeOutcome::Incomplete,
    }
}

/// Decoding an error body (the bytes after `-`) starting at `pos`.
pub open spec fn spec_decode_error(s: Seq<u8>, pos: int) -> DecodeOutcome {
    match spec_word(s, pos) {
        Some((p, w)) => DecodeOutcome::Complete(p, ValueModel::Error(w)),
        None => DecodeOutcome::Incomplete,
    }
}

/// Decoding an integer body (the bytes after `:`) starting at `pos`.
pub open spec fn spec_decode_int(s: Seq<u8>, pos: int) -> DecodeOutcome {
    match spec_word(s, pos) {
        Some((p, w)) => match spec_parsed_i64(w) {
            Some(v) => DecodeOutcome::Complete(p, ValueModel::Integer(v)),
            None => DecodeOutcome::Malformed(RESPError::IntParseFailure),
        },
        None => DecodeOutcome::Incomplete,
    }
}

/// Decoding a bulk string body (the bytes after `$`) starting at `pos`: a
/// decimal length, then exactly that many payload bytes, then a line end.
/// Length -1 is the null bulk string; any other negative length, and a
/// payload not followed by the line end where the length says it must stand,
/// are malformed.
pub open spec fn spec_decode_bulk(s: Seq<u8>, pos: int) -> DecodeOutcome {
    match spec_word(s, pos) {
        None => DecodeOutcome::Incomplete,
        Some((p, w)) => match spec_parsed_i64(w) {
            None => DecodeOutcome::Malformed(RESPError::IntParseFailure),
            Some(size) => if size == -1 {
                DecodeOutcome::Complete(p, ValueModel::NullBulkString)
            } else if size < 0 {
                DecodeOutcome::Malformed(RESPError::InvalidBulkStringSize)
            } else if p + size + 2 > s.len() {
                DecodeOutcome::Incomplete
            } else if s[p + size] == CR && s[p + size + 1] == NEW_LINE {
                DecodeOutcome::Complete(
                    p + size + 2,
                    ValueModel::BulkString(s.subrange(p, p + size)),
                )
            } else {
                DecodeOutcome::Malformed(RESPError::InvalidBulkStringSize)
            },
        },
    }
}

/// Decoding a value starting at `pos`: dispatch on the prefix byte. A
/// position at or past the end of the buffer is a prefix of every encoding,
/// so it is incomplete; a byte that no RESP type starts with is malformed.
pub open spec fn spec_decode(s: Seq<u8>, pos: int) -> DecodeOutcome
    decreases s.len() - pos, 0int, 0int,
{
    if pos < 0 || pos >= s.len() {
        DecodeOutcome::Incomplete
    } else if s[pos] == SIMPLE_STRING_BYTE {
        spec_decode_simple_string(s, pos + 1)
    } else if s[pos] == ERROR_BYTE {
        spec_decode_error(s, pos + 1)
    } else if s[pos] == INTEGER_BYTE {
        spec_decode_int(s, pos + 1)
    } else if s[pos] == BULK_STRING_BYTE {
        spec_decode_bulk(s, pos + 1)
    } else if s[pos] == ARRAY_BYTE {
        spec_decode_array(s, pos + 1)
    } else {
        DecodeOutcome::Malformed(RESPError::UnknownStartingByte)
    }
}

/// Decoding an array body (the bytes after `*`) starting at `pos`: a decimal
/// element count, then that many values in a row. Count -1 is the null
/// array; a count of 0, and any other negative count, are malformed, so no
/// empty array can be encoded.
pub open spec fn spec_decode_array(s: Seq<u8>, pos: int) -> DecodeOutcome
    decreases s.len() - pos, 1int, 0int,
{
    match spec_word(s, pos) {
        None => DecodeOutcome::Incomplete,
        Some((p, w)) => match spec_parsed_i64(w) {
            None => DecodeOutcome::Malformed(RESPError::IntParseFailure),
            Some(n) => if n == -1 {
                DecodeOutcome::Complete(p, ValueModel::NullArray)
            } else if n <= 0 {
                DecodeOutcome::Malformed(RESPError::InvalidArrayElementSize)
            } else {
                match spec_decode_elems(s, p, n) {
                    ElemsOutcome::Complete(q, vs) => DecodeOutcome::Complete(
                        q,
                        ValueModel::Array(vs),
                    ),
                    ElemsOutcome::Incomplete => DecodeOutcome::Incomplete,
                    ElemsOutcome::Malformed(e) => DecodeOutcome::Malformed(e),
                }
            },
        },
    }
}

/// Decoding `n` consecutive values starting at `pos`, propagating the first
/// incompleteness or malformation. A complete value always reports a
/// position strictly past `pos` and within the buffer
/// (`lemma_decode_advances`), so the guard `pos < q <= s.len()` never fails.
pub open spec fn spec_decode_elems(s: Seq<u8>, pos: int, n: int) -> ElemsOutcome
    decreases s.len() - pos, 0int, n,
{
    if n <= 0 {
        ElemsOutcome::Complete(pos, Seq::empty())
    } else {
        match spec_decode(s, pos) {
            DecodeOutcome::Complete(q, v) => if pos < q <= s.len() {
                match spec_decode_elems(s, q, n - 1) {
                    ElemsOutcome::Complete(r, vs) => ElemsOutcome::Complete(r, seq![v] + vs),
                    o => o,
                }
            } else {
                ElemsOutcome::Incomplete
            },
            DecodeOutcome::Incomplete => ElemsOutcome::Incomplete,
            DecodeOutcome::Malformed(e) => ElemsOutcome::Malformed(e),
        }
    }
}

/// The first line end at or after `pos` lies in the buffer, is a line end,
/// and nothing before it is one; when there is none, no byte from `pos` on is
/// a line end.
pub proof fn lemma_first_line_end_bounds(s: Seq<u8>, pos: int)
    requires
        0 <= pos,
    ensures
        first_line_end(s, pos) matches Some(e) ==> pos <= e < s.len() && is_line_end(s[e])
            && (forall|j: int| pos <= j < e ==> !is_line_end(s[j])),
        first_line_end(s, pos) is None ==> forall|j: int|
            pos <= j < s.len() ==> !is_line_end(s[j]),
    decreases s.len() - pos,
{
    if pos < s.len() && !is_line_end(s[pos]) {
        lemma_first_line_end_bounds(s, pos + 1);
    }
}

/// A line end at `e` with none before it is the first one.
pub proof fn lemma_first_line_end_of(s: Seq<u8>, pos: int, e: int)
    requires
        0 <= pos <= e < s.len(),
        is_line_end(s[e]),
        forall|j: int| pos <= j < e ==> !is_line_end(s[j]),
    ensures
        first_line_end(s, pos) == Some(e),
    decreases e - pos,
{
    if pos < e {
        lemma_first_line_end_of(s, pos + 1, e);
    }
}

/// Without a line end from `pos` on there is no first one.
pub proof fn lemma_first_line_end_none(s: Seq<u8>, pos: int)
    requires
        0 <= pos,
        forall|j: int| pos <= j < s.len() ==> !is_line_end(s[j]),
    ensures
        first_line_end(s, pos) is None,
    decreases s.len() - pos,
{
    if pos < s.len() {
        lemma_first_line_end_none(s, pos + 1);
    }
}

/// A digit string never reads as a negative value.
pub proof fn lemma_digits_val_nonneg(s: Seq<u8>)
    requires
        all_digits(s),
    ensures
        digits_val(s) >= 0,
    decreases s.len(),
{
    if s.len() > 0 {
        lemma_digits_val_nonneg(s.subrange(0, s.len() - 1));
    }
}

/// Extending a digit string with further digits never shrinks its value.
pub proof fn lemma_digits_val_prefix(s: Seq<u8>, k: int)
    requires
        all_digits(s),
        0 <= k <= s.len(),
    ensures
        digits_val(s.subrange(0, k)) <= digits_val(s),
    decreases s.len() - k,
{
    if k == s.len() {
        assert(s.subrange(0, k) =~= s);
    } else {
        assert(s.subrange(0, k + 1).subrange(0, k) =~= s.subrange(0, k));
        lemma_digits_val_nonneg(s.subrange(0, k));
        lemma_digits_val_prefix(s, k + 1);
    }
}

/// A literal with its optional sign stripped reads as a plain digit string:
/// well-formedness is exactly that the body is all digits, and the value is
/// the body's value under the sign.
pub proof fn lemma_int_literal_shape(s: Seq<u8>, start: int, neg: bool)
    requires
        0 <= start < s.len(),
        start == 0 || start == 1,
        start == 1 ==> s[0] == PLUS_BYTE || s[0] == ERROR_BYTE,
        start == 0 ==> !(s[0] == PLUS_BYTE || s[0] == ERROR_BYTE),
        neg <==> (s[0] == ERROR_BYTE && start == 1),
    ensures
        is_int_literal(s) <==> all_digits(s.subrange(start, s.len() as int)),
        int_literal_val(s) == if neg {
            -digits_val(s.subrange(start, s.len() as int))
        } else {
            digits_val(s.subrange(start, s.len() as int))
        },
{
    if start == 0 {
        assert(s.subrange(0, s.len() as int) =~= s);
    }
}

/// A word that ends lies wholly in the buffer and past its starting point.
pub proof fn lemma_word_bounds(s: Seq<u8>, pos: int)
    requires
        0 <= pos,
    ensures
        spec_word(s, pos) matches Some((p, w)) ==> pos + 2 <= p <= s.len() && w == s.subrange(
            pos,
            p - 2,
        ),
{
    lemma_first_line_end_bounds(s, pos);
}

/// A complete value reports a position strictly past where it began and
/// within the buffer.
pub proof fn lemma_decode_advances(s: Seq<u8>, pos: int)
    ensures
        spec_decode(s, pos) matches DecodeOutcome::Complete(q, _) ==> pos < q <= s.len(),
    decreases s.len() - pos, 0int, 0int,
{
    if 0 <= pos < s.len() {
        lemma_word_bounds(s, pos + 1);
        if s[pos] == ARRAY_BYTE {
            if let Some((p, w)) = spec_word(s, pos + 1) {
                if let Some(n) = spec_parsed_i64(w) {
                    if n > 0 {
                        lemma_elems_advance(s, p, n);
                    }
                }
            }
        }
    }
}

/// A complete run of `n` values reports a position no earlier than where it
/// began and within the buffer, and yields exactly `n` values.
pub proof fn lemma_elems_advance(s: Seq<u8>, pos: int, n: int)
    requires
        0 <= pos <= s.len(),
    ensures
        spec_decode_elems(s, pos, n) matches ElemsOutcome::Complete(q, vs) ==> pos <= q <= s.len()
            && (n >= 0 ==> vs.len() == n) && (n > 0 ==> pos < q),
    decreases s.len() - pos, 1int, n,
{
    if n > 0 {
        lemma_decode_advances(s, pos);
        if let DecodeOutcome::Complete(q, v) = spec_decode(s, pos) {
            lemma_elems_advance(s, q, n - 1);
        }
    }
}

/// Prepending already-decoded values to the outcome of a remaining run.
pub open spec fn elems_compose(prefix: Seq<ValueModel>, o: ElemsOutcome) -> ElemsOutcome {
    match o {
        ElemsOutcome::Complete(q, vs) => ElemsOutcome::Complete(q, prefix + vs),
        other => other,
    }
}

/// Prepending nothing changes nothing.
pub proof fn lemma_elems_compose_empty(o: ElemsOutcome)
    ensures
        elems_compose(Seq::empty(), o) == o,
{
    match o {
        ElemsOutcome::Complete(q, vs) => {
            assert(Seq::empty() + vs =~= vs);
        },
        _ => {},
    }
}

/// Prepending twice is prepending the concatenation.
pub proof fn lemma_elems_compose_assoc(a: Seq<ValueModel>, b: Seq<ValueModel>, o: ElemsOutcome)
    ensures
        elems_compose(a, elems_compose(b, o)) == elems_compose(a + b, o),
{
    match o {
        ElemsOutcome::Complete(q, vs) => {
            assert(a + (b + vs) =~= (a + b) + vs);
        },
        _ => {},
    }
}

/// The wire bytes of a simple-string reply: `+`, the text, a line end.
pub open spec fn spec_encode_simple_string(payload: Seq<u8>) -> Seq<u8> {
    seq![SIMPLE_STRING_BYTE] + payload + seq![CR, NEW_LINE]
}

/// The wire bytes of an error reply: `-`, the text, a line end.
pub open spec fn spec_encode_error(payload: Seq<u8>) -> Seq<u8> {
    seq![ERROR_BYTE] + payload + seq![CR, NEW_LINE]
}

/// The wire bytes of the nil reply, the null bulk string `$-1`.
pub open spec fn spec_encode_nil() -> Seq<u8> {
    seq![BULK_STRING_BYTE, ERROR_BYTE, DIGIT_ONE, CR, NEW_LINE]
}

} // verus!
