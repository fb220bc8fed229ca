//! The executable RESP decoder primitives: word extraction up to a line end,
//! decimal integer parsing, and one body parser per RESP type. Every parser
//! is specified against the corresponding `codec` spec function.

use vstd::prelude::*;

use crate::codec::{
    all_digits, digits_val, elems_compose, first_line_end, int_literal_val, is_digit,
    is_int_literal, is_line_end, lemma_decode_advances, lemma_digits_val_prefix,
    lemma_elems_compose_assoc, lemma_elems_compose_empty, lemma_first_line_end_bounds,
    lemma_first_line_end_none, lemma_first_line_end_of, lemma_int_literal_shape,
    lemma_word_bounds, result_models, spec_decode_array, spec_decode_bulk, spec_decode_elems,
    spec_decode_error, spec_decode_int, spec_decode_simple_string, spec_parsed_i64, spec_word,
    ElemsOutcome, DIGIT_NINE, DIGIT_ZERO, ERROR_BYTE, PLUS_BYTE,
};
use crate::data::{
    elems_model, lemma_elems_model_push, value_model, RESPDataType, RESPError, RESPResult,
    ValueModel, CR, NEW_LINE,
};
use crate::deserializer::RespDeserializer;

verus! {

/// Relies on memchr::memchr2: the index of the first byte equal to either
/// needle, or `None` when neither occurs in the haystack.
#[verifier::external_body]
fn memchr2_first(needle1: u8, needle2: u8, haystack: &[u8]) -> (r: Option<usize>)
    ensures
        match r {
            Some(i) => i < haystack@.len() && (haystack@[i as int] == needle1 || haystack@[
                i as int
            ] == needle2) && forall|j: int|
                0 <= j < i ==> haystack@[j] != needle1 && haystack@[j] != needle2,
            None => forall|j: int|
                0 <= j < haystack@.len() ==> haystack@[j] != needle1 && haystack@[j] != needle2,
        },
{
    memchr::memchr2(needle1, needle2, haystack)
}

/// Find the index of the line end that terminates the first word of the
/// buffer: the first carriage return or line feed, which must be followed by
/// a line feed to count.
pub fn find_carraige_return(buffer: &[u8]) -> (r: Option<usize>)
    ensures
        match r {
            Some(e) => first_line_end(buffer@, 0) == Some(e as int) && e + 1 < buffer@.len()
                && buffer@[e as int + 1] == NEW_LINE,
            None => match first_line_end(buffer@, 0) {
                Some(e2) => !(e2 + 1 < buffer@.len() && buffer@[e2 + 1] == NEW_LINE),
                None => true,
            },
        },
{
    let n = buffer.len();
    match memchr2_first(CR, NEW_LINE, buffer) {
        Some(end) => {
            proof {
                lemma_first_line_end_of(buffer@, 0, end as int);
            }
            if n - end >= 2 && buffer[end + 1] == NEW_LINE {
                Some(end)
            } else {
                None
            }
        },
        None => {
            proof {
                lemma_first_line_end_none(buffer@, 0);
            }
            None
        },
    }
}

/// Copy the word starting at `pos` out of the buffer: the bytes up to the
/// first line end, and the position just past that line end.
pub fn parse_word(buffer: &Vec<u8>, pos: usize) -> (r: Option<(usize, Vec<u8>)>)
    ensures
        match r {
            Some((p, w)) => spec_word(buffer@, pos as int) == Some((p as int, w@)),
            None => spec_word(buffer@, pos as int) is None,
        },
{
    if pos > buffer.len() {
        return None;
    }
    let tail: &[u8] = &buffer.as_slice()[pos..buffer.len()];
    let ghost s = buffer@;
    let ghost t = tail@;
    match find_carraige_return(tail) {
        Some(e) => {
            proof {
                lemma_first_line_end_bounds(t, 0);
                assert forall|j: int| pos <= j < pos + e implies !is_line_end(s[j]) by {
                    assert(t[j - pos] == s[j]);
                }
                lemma_first_line_end_of(s, pos as int, pos + e);
                assert(t.subrange(0, e as int) =~= s.subrange(pos as int, pos + e));
            }
            let word = vstd::slice::slice_to_vec(&tail[0..e]);
            Some((pos + e + 2, word))
        },
        None => {
            proof {
                match first_line_end(t, 0) {
                    Some(e2) => {
                        lemma_first_line_end_bounds(t, 0);
                        assert forall|j: int| pos <= j < pos + e2 implies !is_line_end(s[j]) by {
                            assert(t[j - pos] == s[j]);
                        }
                        lemma_first_line_end_of(s, pos as int, pos + e2);
                        if e2 + 1 < t.len() {
                            assert(s[pos + e2 + 1] == t[e2 + 1]);
                        }
                    },
                    None => {
                        lemma_first_line_end_bounds(t, 0);
                        assert forall|j: int| pos <= j < s.len() implies !is_line_end(s[j]) by {
                            assert(t[j - pos] == s[j]);
                        }
                        lemma_first_line_end_none(s, pos as int);
                    },
                }
            }
            None
        },
    }
}

/// Parse a byte string as a signed 64-bit decimal integer, exactly as the
/// wire format demands: an optional sign, then one or more digits, and a
/// value that fits; anything else is rejected.
pub fn parse_i64(s: &[u8]) -> (r: Option<i64>)
    ensures
        match r {
            Some(v) => spec_parsed_i64(s@) == Some(v as int),
            None => spec_parsed_i64(s@) is None,
        },
{
    if s.len() == 0 {
        return None;
    }
    let neg: bool = s[0] == ERROR_BYTE;
    let start: usize = if s[0] == PLUS_BYTE || s[0] == ERROR_BYTE {
        1
    } else {
        0
    };
    if start >= s.len() {
        return None;
    }
    let limit: u64 = if neg {
        9223372036854775808
    } else {
        9223372036854775807
    };
    let ghost body = s@.subrange(start as int, s@.len() as int);
    proof {
        lemma_int_literal_shape(s@, start as int, neg);
    }
    let mut acc: u64 = 0;
    let mut i: usize = start;
    while i < s.len()
        invariant
            start <= i <= s.len(),
            start < s.len(),
            limit == if neg {
                9223372036854775808u64
            } else {
                9223372036854775807u64
            },
            body == s@.subrange(start as int, s@.len() as int),
            is_int_literal(s@) <==> all_digits(body),
            int_literal_val(s@) == if neg {
                -digits_val(body)
            } else {
                digits_val(body)
            },
            forall|j: int| start <= j < i ==> is_digit(s@[j]),
            acc == digits_val(s@.subrange(start as int, i as int)),
            acc <= limit,
        decreases s@.len() - i,
    {
        let b = s[i];
        if b < DIGIT_ZERO || b > DIGIT_NINE {
            proof {
                assert(!is_digit(body[i - start]));
                assert(!all_digits(body));
            }
            return None;
        }
        let d: u64 = (b - DIGIT_ZERO) as u64;
        let ghost prefix1 = s@.subrange(start as int, i + 1 as int);
        proof {
            assert(prefix1.subrange(0, prefix1.len() - 1) =~= s@.subrange(
                start as int,
                i as int,
            ));
            assert(digits_val(prefix1) == 10 * acc + d);
        }
        if acc > (limit - d) / 10 {
            proof {
                assert(10 * acc + d > limit) by (nonlinear_arith)
                    requires
                        acc > (limit - d) / 10,
                        d <= 9,
                        d <= limit,
                ;
                if all_digits(body) {
                    assert(prefix1 =~= body.subrange(0, i + 1 - start as int));
                    lemma_digits_val_prefix(body, i + 1 - start as int);
                }
            }
            return None;
        }
        acc = acc * 10 + d;
        i = i + 1;
    }
    proof {
        assert(s@.subrange(start as int, i as int) =~= body);
    }
    if neg {
        if acc == 9223372036854775808 {
            Some(i64::MIN)
        } else {
            Some(-(acc as i64))
        }
    } else {
        Some(acc as i64)
    }
}

/// Compare two byte strings for equality.
pub fn bytes_eq(a: &[u8], b: &[u8]) -> (r: bool)
    ensures
        r == (a@ == b@),
{
    if a.len() != b.len() {
        return false;
    }
    let mut i: usize = 0;
    while i < a.len()
        invariant
            0 <= i <= a@.len(),
            a@.len() == b@.len(),
            forall|j: int| 0 <= j < i ==> a@[j] == b@[j],
        decreases a@.len() - i,
    {
        if a[i] != b[i] {
            return false;
        }
        i = i + 1;
    }
    proof {
        assert(a@ =~= b@);
    }
    true
}

/// Decode the body of a simple string, the bytes after `+`: the word up to
/// the line end becomes the payload.
pub fn from_simple_string(buffer: &Vec<u8>, pos: usize) -> (r: RESPResult)
    ensures
        result_models(r, spec_decode_simple_string(buffer@, pos as int)),
{
    match parse_word(buffer, pos) {
        Some((p, word)) => Ok(Some((p, RESPDataType::SimpleString(word)))),
        None => Ok(None),
    }
}

/// Decode the body of an error, the bytes after `-`: the word up to the line
/// end becomes the message.
pub fn from_error(buffer: &Vec<u8>, pos: usize) -> (r: RESPResult)
    ensures
        result_models(r, spec_decode_error(buffer@, pos as int)),
{
    match parse_word(buffer, pos) {
        Some((p, word)) => Ok(Some((p, RESPDataType::Error(word)))),
        None => Ok(None),
    }
}

/// Decode the body of an integer, the bytes after `:`: the word up to the
/// line end read as a signed 64-bit decimal.
pub fn from_int(buffer: &Vec<u8>, pos: usize) -> (r: RESPResult)
    ensures
        result_models(r, spec_decode_int(buffer@, pos as int)),
{
    match parse_word(buffer, pos) {
        Some((p, word)) => match parse_i64(word.as_slice()) {
            Some(v) => Ok(Some((p, RESPDataType::Integer(v)))),
            None => Err(RESPError::IntParseFailure),
        },
        None => Ok(None),
    }
}

/// Decode the body of a bulk string, the bytes after `$`: a decimal length,
/// then exactly that many payload bytes, then the line end. Length -1 is the
/// null bulk string; any other negative length is malformed, as is a payload
/// whose following two bytes are not the line end.
pub fn from_bulk_string(buffer: &Vec<u8>, pos: usize) -> (r: RESPResult)
    ensures
        result_models(r, spec_decode_bulk(buffer@, pos as int)),
{
    match parse_word(buffer, pos) {
        None => Ok(None),
        Some((p, word)) => match parse_i64(word.as_slice()) {
            None => Err(RESPError::IntParseFailure),
            Some(size) => {
                if size == -1 {
                    Ok(Some((p, RESPDataType::NullBulkString)))
                } else if size < 0 {
                    Err(RESPError::InvalidBulkStringSize)
                } else {
                    proof {
                        lemma_word_bounds(buffer@, pos as int);
                    }
                    let remaining: u64 = (buffer.len() - p) as u64;
                    if (size as u64) + 2 > remaining {
                        Ok(None)
                    } else {
                        let l = size as usize;
                        if buffer[p + l] == CR && buffer[p + l + 1] == NEW_LINE {
                            let payload = vstd::slice::slice_to_vec(
                                &buffer.as_slice()[p..p + l],
                            );
                            Ok(Some((p + l + 2, RESPDataType::BulkString(payload))))
                        } else {
                            Err(RESPError::InvalidBulkStringSize)
                        }
                    }
                }
            },
        },
    }
}

/// Decode the body of an array, the bytes after `*`: a decimal element
/// count, then that many values decoded in a row, each starting where the
/// one before it ended. Count -1 is the null array; a count of 0 or any
/// other negative count is malformed. Incompleteness and malformation of any
/// element propagate.
pub fn from_array(buffer: &Vec<u8>, pos: usize) -> (r: RESPResult)
    ensures
        result_models(r, spec_decode_array(buffer@, pos as int)),
    decreases buffer@.len() - pos as int, 1int,
{
    let ghost s = buffer@;
    match parse_word(buffer, pos) {
        None => Ok(None),
        Some((p, word)) => match parse_i64(word.as_slice()) {
            None => Err(RESPError::IntParseFailure),
            Some(num_elements) => {
                if num_elements == -1 {
                    Ok(Some((p, RESPDataType::NullArray)))
                } else if num_elements <= 0 {
                    Err(RESPError::InvalidArrayElementSize)
                } else {
                    proof {
                        lemma_word_bounds(s, pos as int);
                        lemma_elems_compose_empty(
                            spec_decode_elems(s, p as int, num_elements as int),
                        );
                    }
                    let n = num_elements;
                    let mut elems: Vec<RESPDataType> = Vec::new();
                    let mut curr: usize = p;
                    let mut i: i64 = 0;
                    while i < n
                        invariant
                            0 <= i <= n,
                            0 < n,
                            s == buffer@,
                            pos < p <= curr,
                            curr <= s.len(),
                            spec_word(s, pos as int) == Some((p as int, word@)),
                            spec_parsed_i64(word@) == Some(n as int),
                            elems@.len() == i as int,
                            spec_decode_elems(s, p as int, n as int) == elems_compose(
                                elems_model(elems@),
                                spec_decode_elems(s, curr as int, n as int - i as int),
                            ),
                        decreases n - i,
                    {
                        let deserializer = RespDeserializer::default();
                        let res = deserializer.deserialize(buffer, curr);
                        match res {
                            Err(e) => {
                                proof {
                                    assert(spec_decode_elems(s, curr as int, n as int - i as int)
                                        == ElemsOutcome::Malformed(e));
                                }
                                return Err(e);
                            },
                            Ok(None) => {
                                proof {
                                    assert(spec_decode_elems(s, curr as int, n as int - i as int)
                                        == ElemsOutcome::Incomplete);
                                }
                                return Ok(None);
                            },
                            Ok(Some((q, v))) => {
                                proof {
                                    lemma_decode_advances(s, curr as int);
                                    assert(spec_decode_elems(s, curr as int, n as int - i as int)
                                        == elems_compose(
                                        seq![value_model(v)],
                                        spec_decode_elems(s, q as int, n as int - i as int - 1),
                                    ));
                                    lemma_elems_compose_assoc(
                                        elems_model(elems@),
                                        seq![value_model(v)],
                                        spec_decode_elems(s, q as int, n as int - i as int - 1),
                                    );
                                    lemma_elems_model_push(elems@, v);
                                    assert(elems_model(elems@) + seq![value_model(v)]
                                        =~= elems_model(elems@).push(value_model(v)));
                                }
                                elems.push(v);
                                curr = q;
                                i = i + 1;
                            },
                        }
                    }
                    proof {
                        assert(elems_model(elems@) + Seq::<ValueModel>::empty() =~= elems_model(
                            elems@,
                        ));
                    }
                    Ok(Some((curr, RESPDataType::Array(elems))))
                }
            },
        },
    }
}

} // verus!
