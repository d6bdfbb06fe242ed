//! What a column's bytes mean: the parsing rule of each data type, and the
//! effect of decoding one row or all rows on a decoder's state.
//!
//! Everything here is spec code. The decoders are proved to follow it.

use crate::error::{needed_bytes, ErrorKind, Needed, TracklibError};
use crate::read::leb128::{signed_value, unsigned_value, varint_error, varint_len};
use crate::schema::DataType;
use vstd::prelude::*;
use vstd::utf8::{decode_utf8, valid_utf8};
use vstd::wrapping::i64_specs;

verus! {

/// A decoded value of any data type.
pub enum Value {
    I64(i64),
    /// Stands for `unscaled / 10^scale`.
    F64 { unscaled: i64, scale: u8 },
    U64(u64),
    Bool(bool),
    String(Seq<char>),
    BoolArray(Seq<bool>),
    U64Array(Seq<u64>),
    ByteArray(Seq<u8>),
}

/// The state of a decoder.
pub struct State {
    /// The presence bits of the rows not yet decoded.
    pub presence: Seq<bool>,
    /// The column bytes not yet consumed.
    pub payload: Seq<u8>,
    /// The running total of a delta-coded column; zero for other columns.
    pub total: i64,
}

/// The outcome of parsing one value.
pub struct Parsed {
    pub value: Value,
    /// Number of bytes that the value took.
    pub consumed: int,
    /// The running total after the value.
    pub total: i64,
}

/// The error of a decoder that is asked for a row beyond the last one its
/// presence bits cover.
pub open spec fn rows_ran_out() -> TracklibError {
    TracklibError::ParseIncompleteError { needed: Needed::Unknown }
}

/// A length-prefixed block: an unsigned variable-length count, then that many
/// bytes. Yields the bytes and the total number of bytes taken.
pub open spec fn parse_block(payload: Seq<u8>) -> Result<(Seq<u8>, int), TracklibError> {
    match varint_error(payload) {
        Some(e) => Err(e),
        None => {
            let rest = payload.skip(varint_len(payload));
            let count = unsigned_value(payload) as int;
            if count > rest.len() {
                Err(
                    TracklibError::ParseIncompleteError {
                        needed: needed_bytes(count - rest.len()),
                    },
                )
            } else {
                Ok((rest.take(count), varint_len(payload) + count))
            }
        },
    }
}

/// `count` unsigned variable-length integers in a row. Yields the integers
/// and the total number of bytes taken.
pub open spec fn parse_u64s(payload: Seq<u8>, count: nat) -> Result<(Seq<u64>, int), TracklibError>
    decreases count,
{
    if count == 0 {
        Ok((Seq::empty(), 0))
    } else {
        match varint_error(payload) {
            Some(e) => Err(e),
            None => match parse_u64s(payload.skip(varint_len(payload)), (count - 1) as nat) {
                Err(e) => Err(e),
                Ok((values, consumed)) => Ok(
                    (seq![unsigned_value(payload)] + values, varint_len(payload) + consumed),
                ),
            },
        }
    }
}

/// The truth value that a stored byte stands for: any nonzero byte is true.
pub open spec fn byte_to_bool(byte: u8) -> bool {
    byte != 0
}

/// A signed variable-length delta, added to the running total with
/// wrap-around. Yields the new total and the number of bytes taken.
pub open spec fn parse_delta(total: i64, payload: Seq<u8>) -> Result<(i64, int), TracklibError> {
    match varint_error(payload) {
        Some(e) => Err(e),
        None => Ok((i64_specs::wrapping_add(total, signed_value(payload)), varint_len(payload))),
    }
}

/// The parsing rule of each data type, applied to the front of `payload`
/// when the running total is `total`.
pub open spec fn parse_value(data_type: DataType, total: i64, payload: Seq<u8>) -> Result<
    Parsed,
    TracklibError,
> {
    match data_type {
        DataType::I64 => match parse_delta(total, payload) {
            Err(e) => Err(e),
            Ok((new, consumed)) => Ok(Parsed { value: Value::I64(new), consumed, total: new }),
        },
        DataType::F64 { scale } => match parse_delta(total, payload) {
            Err(e) => Err(e),
            Ok((new, consumed)) => Ok(
                Parsed { value: Value::F64 { unscaled: new, scale }, consumed, total: new },
            ),
        },
        DataType::U64 => match varint_error(payload) {
            Some(e) => Err(e),
            None => Ok(
                Parsed {
                    value: Value::U64(unsigned_value(payload)),
                    consumed: varint_len(payload),
                    total,
                },
            ),
        },
        DataType::Bool => if payload.len() == 0 {
            Err(TracklibError::ParseError { error_kind: ErrorKind::Eof })
        } else {
            Ok(Parsed { value: Value::Bool(byte_to_bool(payload[0])), consumed: 1, total })
        },
        DataType::String => match parse_block(payload) {
            Err(e) => Err(e),
            Ok((bytes, consumed)) => if valid_utf8(bytes) {
                Ok(Parsed { value: Value::String(decode_utf8(bytes)), consumed, total })
            } else {
                Err(TracklibError::Utf8Error)
            },
        },
        DataType::BoolArray => match parse_block(payload) {
            Err(e) => Err(e),
            Ok((bytes, consumed)) => Ok(
                Parsed {
                    value: Value::BoolArray(bytes.map_values(|b: u8| byte_to_bool(b))),
                    consumed,
                    total,
                },
            ),
        },
        DataType::U64Array => match varint_error(payload) {
            Some(e) => Err(e),
            None => match parse_u64s(
                payload.skip(varint_len(payload)),
                unsigned_value(payload) as nat,
            ) {
                Err(e) => Err(e),
                Ok((values, consumed)) => Ok(
                    Parsed {
                        value: Value::U64Array(values),
                        consumed: varint_len(payload) + consumed,
                        total,
                    },
                ),
            },
        },
        DataType::ByteArray => match parse_block(payload) {
            Err(e) => Err(e),
            Ok((bytes, consumed)) => Ok(Parsed { value: Value::ByteArray(bytes), consumed, total }),
        },
    }
}

/// Decoding one row: the outcome and the state afterwards.
///
/// With no row left the outcome is the "rows ran out" error and the state
/// stays as it is. Otherwise the row's presence bit is consumed. An absent
/// value yields `None` and leaves payload and total untouched. A present
/// value is parsed by the rule of the data type; if that fails, the error is
/// the outcome and payload and total stay as they are.
pub open spec fn decode_step(data_type: DataType, s: State) -> (
    Result<Option<Value>, TracklibError>,
    State,
) {
    if s.presence.len() == 0 {
        (Err(rows_ran_out()), s)
    } else if !s.presence[0] {
        (Ok(None), State { presence: s.presence.skip(1), ..s })
    } else {
        match parse_value(data_type, s.total, s.payload) {
            Ok(parsed) => (
                Ok(Some(parsed.value)),
                State {
                    presence: s.presence.skip(1),
                    payload: s.payload.skip(parsed.consumed),
                    total: parsed.total,
                },
            ),
            Err(e) => (Err(e), State { presence: s.presence.skip(1), ..s }),
        }
    }
}

/// Decoding every remaining row in turn: the values row by row, or the first
/// error.
pub open spec fn decode_rows(data_type: DataType, s: State) -> Result<
    Seq<Option<Value>>,
    TracklibError,
>
    decreases s.presence.len(),
{
    if s.presence.len() == 0 {
        Ok(Seq::empty())
    } else {
        let (outcome, next) = decode_step(data_type, s);
        match outcome {
            Err(e) => Err(e),
            Ok(value) => match decode_rows(data_type, next) {
                Err(e) => Err(e),
                Ok(values) => Ok(seq![value] + values),
            },
        }
    }
}

/// The state after `n` rows have been asked for, whatever came of them.
pub open spec fn state_after(data_type: DataType, s: State, n: nat) -> State
    decreases n,
{
    if n == 0 {
        s
    } else {
        state_after(data_type, decode_step(data_type, s).1, (n - 1) as nat)
    }
}

/// Absence: a row without a value yields `None`, and costs its presence bit
/// and nothing else, whatever the data type.
pub proof fn lemma_absent_row_takes_no_bytes(data_type: DataType, s: State)
    requires
        s.presence.len() > 0,
        !s.presence[0],
    ensures
        decode_step(data_type, s).0 == Ok::<Option<Value>, TracklibError>(None),
        decode_step(data_type, s).1 == (State { presence: s.presence.skip(1), ..s }),
{
}

/// Exhaustion: once as many rows have been asked for as there are presence
/// bits, every further request fails with the "rows ran out" error and
/// changes nothing. It never yields `None` or a value.
pub proof fn lemma_rows_run_out(data_type: DataType, s: State, extra: nat)
    ensures
        ({
            let end = state_after(data_type, s, s.presence.len() + extra);
            &&& end.presence.len() == 0
            &&& decode_step(data_type, end) == (
                Err::<Option<Value>, TracklibError>(rows_ran_out()),
                end,
            )
        }),
    decreases s.presence.len() + extra,
{
    if s.presence.len() > 0 {
        let next = decode_step(data_type, s).1;
        assert(next.presence == s.presence.skip(1));
        lemma_rows_run_out(data_type, next, extra);
    } else if extra > 0 {
        lemma_rows_run_out(data_type, s, (extra - 1) as nat);
    }
}

} // verus!
