//! The RESP value model: the tagged union of decodable values, the decode
//! error taxonomy, and the mathematical model that contracts are stated over.

use vstd::prelude::*;

verus! {

/// The carriage-return byte; a RESP line ends `CR`, `NEW_LINE`.
pub const CR: u8 = 13;

/// The line-feed byte.
pub const NEW_LINE: u8 = 10;

/// A fully decoded RESP value. `Array` elements are themselves fully decoded
/// values; the two null sentinels are distinct variants of their own.
#[derive(Debug, PartialEq, Eq)]
pub enum RESPDataType {
    SimpleString(Vec<u8>),
    Error(Vec<u8>),
    Integer(i64),
    BulkString(Vec<u8>),
    NullBulkString,
    Array(Vec<RESPDataType>),
    NullArray,
}

/// Why a buffer can never decode, no matter how many bytes are appended.
#[derive(Debug, PartialEq, Eq, Clone, Copy, Structural)]
pub enum RESPError {
    UnknownStartingByte,
    IntParseFailure,
    InvalidBulkStringSize,
    InvalidArrayElementSize,
}

/// What a decoder call reports: `Ok(Some((next_position, value)))` on a
/// complete value, `Ok(None)` when the buffer holds only a prefix of a valid
/// encoding, and `Err` when no extension of the buffer can decode.
pub type RESPResult = Result<Option<(usize, RESPDataType)>, RESPError>;

/// The mathematical counterpart of `RESPDataType`: payloads are byte
/// sequences and array elements are sequences of models.
pub enum ValueModel {
    SimpleString(Seq<u8>),
    Error(Seq<u8>),
    Integer(int),
    BulkString(Seq<u8>),
    NullBulkString,
    Array(Seq<ValueModel>),
    NullArray,
}

/// The model of a value: payload bytes become sequences, recursively.
pub open spec fn value_model(v: RESPDataType) -> ValueModel
    decreases v, 0int,
{
    match v {
        RESPDataType::SimpleString(s) => ValueModel::SimpleString(s@),
        RESPDataType::Error(s) => ValueModel::Error(s@),
        RESPDataType::Integer(i) => ValueModel::Integer(i as int),
        RESPDataType::BulkString(s) => ValueModel::BulkString(s@),
        RESPDataType::NullBulkString => ValueModel::NullBulkString,
        RESPDataType::Array(elems) => ValueModel::Array(elems_model(elems@)),
        RESPDataType::NullArray => ValueModel::NullArray,
    }
}

/// The models of a sequence of values, element by element.
pub open spec fn elems_model(s: Seq<RESPDataType>) -> Seq<ValueModel>
    decreases s, 1int,
{
    if s.len() == 0 {
        Seq::empty()
    } else {
        seq![value_model(s[0])] + elems_model(s.subrange(1, s.len() as int))
    }
}

/// The models of a sequence of values line up with the values one for one.
pub proof fn lemma_elems_model(s: Seq<RESPDataType>)
    ensures
        elems_model(s).len() == s.len(),
        forall|i: int| 0 <= i < s.len() ==> elems_model(s)[i] == value_model(s[i]),
    decreases s.len(),
{
    if s.len() > 0 {
        lemma_elems_model(s.subrange(1, s.len() as int));
    }
}

/// Appending a value appends its model.
pub proof fn lemma_elems_model_push(s: Seq<RESPDataType>, x: RESPDataType)
    ensures
        elems_model(s.push(x)) == elems_model(s).push(value_model(x)),
{
    lemma_elems_model(s);
    lemma_elems_model(s.push(x));
    assert(elems_model(s.push(x)) =~= elems_model(s).push(value_model(x)));
}

impl View for RESPDataType {
    type V = ValueModel;

    open spec fn view(&self) -> ValueModel {
        value_model(*self)
    }
}

} // verus!
