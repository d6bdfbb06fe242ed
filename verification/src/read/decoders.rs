//! The decoders: one per data type, each bound to one column's bytes and to
//! the presence bits of its field, yielding one optional value per row.

use crate::error::{ErrorKind, Needed, TracklibError};
use crate::read::crc::{section_payload, stored_checksum, validated, CRC, CRC_BYTES};
use crate::read::leb128::{leb128_i64, leb128_u64, unsigned_value, varint_error, varint_len};
use crate::read::model::{
    byte_to_bool, decode_rows, decode_step, parse_block, parse_u64s, rows_ran_out, State, Value,
};
use crate::read::presence_column::{field_bits, presence_bit, PresenceColumnView};
use crate::schema::DataType;
use vstd::prelude::*;
use vstd::slice::slice_to_vec;
use vstd::utf8::{decode_utf8, valid_utf8};

verus! {

/// Checks the checksum at the end of `data` and returns the bytes before it.
///
/// Nothing of the payload is handed out unless its checksum matches.
pub fn validate_column(data: &[u8]) -> (r: Result<&[u8], TracklibError>)
    ensures
        match validated(data@) {
            Ok(payload) => r matches Ok(column) && column@ == payload,
            Err(e) => r == Err::<&[u8], TracklibError>(e),
        },
{
    if data.len() < CRC_BYTES {
        return Err(TracklibError::ParseError { error_kind: ErrorKind::Eof });
    }
    let (column_data, crc_bytes) = data.split_at(data.len() - CRC_BYTES);
    proof {
        assert(column_data@ =~= section_payload(data@));
        assert(stored_checksum(crc_bytes@) == stored_checksum(data@));
    }
    match CRC::check(column_data, crc_bytes) {
        CRC::Valid(_) => Ok(column_data),
        CRC::Invalid { expected, computed } => Err(TracklibError::CRC32Error { expected, computed }),
    }
}

/// The capability that all decoders share: produce the next row's optional
/// value for one field.
pub trait Decoder: Sized {
    /// The type of the values that the decoder yields.
    type T;

    /// The data type whose parsing rule the decoder applies.
    spec fn data_type(&self) -> DataType;

    /// The decoder's state: presence bits and column bytes still to come,
    /// and the running total.
    spec fn state(&self) -> State;

    /// What a yielded value stands for.
    spec fn value_of(value: Self::T) -> Value;

    /// Decodes the next row.
    ///
    /// The outcome and the state afterwards are those of `decode_step`. In
    /// particular, a call beyond the last row fails with the "rows ran out"
    /// error and changes nothing, and an absent value yields `None` and
    /// consumes no column bytes.
    fn decode(&mut self) -> (r: Result<Option<Self::T>, TracklibError>)
        ensures
            final(self).data_type() == old(self).data_type(),
            decode_step(old(self).data_type(), old(self).state()).0 == (match r {
                Ok(Some(value)) => Ok::<Option<Value>, TracklibError>(Some(Self::value_of(value))),
                Ok(None) => Ok(None),
                Err(e) => Err(e),
            }),
            final(self).state() == decode_step(old(self).data_type(), old(self).state()).1,
            old(self).state().presence.len() == 0 ==> {
                &&& r == Err::<Option<Self::T>, TracklibError>(rows_ran_out())
                &&& final(self).state() == old(self).state()
            },
            old(self).state().presence.len() > 0 && !old(self).state().presence[0] ==> {
                &&& r == Ok::<Option<Self::T>, TracklibError>(None)
                &&& final(self).state().payload == old(self).state().payload
                &&& final(self).state().total == old(self).state().total
            },
    ;
}

/// The state of a decoder that was just made from `section` and `presence`,
/// or the reason why none can be made.
pub open spec fn initial_state(section: Seq<u8>, presence: Seq<bool>) -> Result<
    State,
    TracklibError,
> {
    match validated(section) {
        Ok(payload) => Ok(State { presence, payload, total: 0 }),
        Err(e) => Err(e),
    }
}

/// Fields are independent. What decoding a field's column yields depends on
/// the presence section only through that field's own bits: with two
/// presence payloads that agree on them in every row, whatever they hold for
/// other fields, a decoder made from the same column section starts in the
/// same state and yields the same outcomes.
pub proof fn lemma_decoding_needs_own_bits_only(
    data_type: DataType,
    section: Seq<u8>,
    p: Seq<u8>,
    q: Seq<u8>,
    fields: nat,
    rows: nat,
    field: int,
)
    requires
        forall|row: int|
            0 <= row < rows ==> presence_bit(p, fields, row, field) == presence_bit(
                q,
                fields,
                row,
                field,
            ),
    ensures
        field_bits(p, fields, rows, field) == field_bits(q, fields, rows, field),
        initial_state(section, field_bits(p, fields, rows, field)) == initial_state(
            section,
            field_bits(q, fields, rows, field),
        ),
        match (
            initial_state(section, field_bits(p, fields, rows, field)),
            initial_state(section, field_bits(q, fields, rows, field)),
        ) {
            (Ok(s), Ok(t)) => decode_step(data_type, s) == decode_step(data_type, t)
                && decode_rows(data_type, s) == decode_rows(data_type, t),
            (Err(e), Err(f)) => e == f,
            _ => false,
        },
{
    assert(field_bits(p, fields, rows, field) =~= field_bits(q, fields, rows, field));
}

/// Reads one byte from the front of `data` with
/// `nom::number::complete::le_u8` and returns it with the bytes that follow.
///
/// Trusted: on empty input the parser reports `Eof`; otherwise it yields the
/// first byte and the remainder.
#[verifier::external_body]
fn le_u8<'a>(data: &'a [u8]) -> (r: Result<(&'a [u8], u8), TracklibError>)
    ensures
        match r {
            Ok((rest, byte)) => data@.len() > 0 && rest@ == data@.skip(1) && byte == data@[0],
            Err(e) => data@.len() == 0 && e == (TracklibError::ParseError {
                error_kind: ErrorKind::Eof,
            }),
        },
{
    match nom::number::complete::le_u8::<&[u8], nom::error::Error<&[u8]>>(data) {
        Ok(parsed) => Ok(parsed),
        Err(nom::Err::Incomplete(nom::Needed::Size(n))) => Err(TracklibError::ParseIncompleteError { needed: Needed::Size(n.get()) }),
        Err(nom::Err::Incomplete(nom::Needed::Unknown)) => Err(TracklibError::ParseIncompleteError { needed: Needed::Unknown }),
        Err(nom::Err::Error(e)) | Err(nom::Err::Failure(e)) => Err(TracklibError::ParseError {
            error_kind: match e.code {
                nom::error::ErrorKind::Eof => ErrorKind::Eof,
                nom::error::ErrorKind::TooLarge => ErrorKind::TooLarge,
                _ => ErrorKind::Other,
            },
        }),
    }
}

/// Turns bytes into text with `String::from_utf8`.
///
/// Trusted: the conversion succeeds exactly on valid UTF-8, and the text is
/// then the one that the bytes encode.
#[verifier::external_body]
fn string_from_utf8(bytes: Vec<u8>) -> (text: Option<String>)
    ensures
        text is Some <==> valid_utf8(bytes@),
        text matches Some(s) ==> s@ == decode_utf8(bytes@),
{
    match String::from_utf8(bytes) {
        Ok(s) => Some(s),
        Err(_) => None,
    }
}

/// Reads a length-prefixed block from the front of `data`: the bytes after
/// it and the block's bytes.
fn read_block<'a>(data: &'a [u8]) -> (r: Result<(&'a [u8], &'a [u8]), TracklibError>)
    ensures
        match parse_block(data@) {
            Ok((bytes, consumed)) => r matches Ok((rest, block)) && block@ == bytes && rest@
                == data@.skip(consumed),
            Err(e) => r == Err::<(&[u8], &[u8]), TracklibError>(e),
        },
{
    let (rest, count) = match leb128_u64(data) {
        Ok(parsed) => parsed,
        Err(e) => { return Err(e); },
    };
    let have: u64 = rest.len() as u64;
    if count > have {
        let missing: u64 = count - have;
        return Err(TracklibError::ParseIncompleteError { needed: Needed::bytes(missing as u128) });
    }
    let (block, after) = rest.split_at(count as usize);
    proof {
        let n = varint_len(data@);
        assert(block@ =~= data@.skip(n).take(count as int));
        assert(after@ =~= data@.skip(n + count));
    }
    Ok((after, block))
}

/// Decoder of an `I64` column: signed variable-length deltas from a running
/// total that starts at zero.
pub struct I64Decoder<'a> {
    data: &'a [u8],
    presence_column_view: PresenceColumnView<'a>,
    prev: i64,
}

impl<'a> I64Decoder<'a> {
    /// Validates the column's checksum and binds the decoder to the payload
    /// and to the presence bits of its field.
    pub fn new(data: &'a [u8], presence_column_view: PresenceColumnView<'a>) -> (r: Result<
        Self,
        TracklibError,
    >)
        ensures
            match initial_state(data@, presence_column_view@) {
                Ok(s) => r matches Ok(decoder) && decoder.state() == s,
                Err(e) => r matches Err(err) && err == e,
            },
    {
        match validate_column(data) {
            Ok(column_data) => Ok(Self { data: column_data, presence_column_view, prev: 0 }),
            Err(e) => Err(e),
        }
    }
}

impl<'a> Decoder for I64Decoder<'a> {
    type T = i64;

    open spec fn data_type(&self) -> DataType {
        DataType::I64
    }

    closed spec fn state(&self) -> State {
        State { presence: self.presence_column_view@, payload: self.data@, total: self.prev }
    }

    open spec fn value_of(value: i64) -> Value {
        Value::I64(value)
    }

    fn decode(&mut self) -> (r: Result<Option<i64>, TracklibError>) {
        match self.presence_column_view.next() {
            Some(true) => match leb128_i64(self.data) {
                Ok((rest, delta)) => {
                    let new = self.prev.wrapping_add(delta);
                    self.prev = new;
                    self.data = rest;
                    Ok(Some(new))
                },
                Err(e) => Err(e),
            },
            Some(false) => Ok(None),
            // ran out of rows, this is an error
            None => Err(TracklibError::ParseIncompleteError { needed: Needed::Unknown }),
        }
    }
}

/// A decimal number in fixed-point form: it stands for
/// `unscaled / 10^scale`.
#[derive(Clone, Copy, Debug, PartialEq, Eq, Structural)]
pub struct Decimal {
    pub unscaled: i64,
    pub scale: u8,
}

/// Decoder of an `F64` column: delta-coded like an `I64` column, each total
/// being the unscaled digits of a decimal number whose scale the schema
/// fixes.
pub struct F64Decoder<'a> {
    data: &'a [u8],
    presence_column_view: PresenceColumnView<'a>,
    prev: i64,
    scale: u8,
}

impl<'a> F64Decoder<'a> {
    /// Validates the column's checksum and binds the decoder to the payload
    /// and to the presence bits of its field.
    pub fn new(data: &'a [u8], presence_column_view: PresenceColumnView<'a>, scale: u8) -> (r: Result<
        Self,
        TracklibError,
    >)
        ensures
            match initial_state(data@, presence_column_view@) {
                Ok(s) => r matches Ok(decoder) && decoder.state() == s && decoder.data_type() == (DataType::F64 { scale }),
                Err(e) => r matches Err(err) && err == e,
            },
    {
        match validate_column(data) {
            Ok(column_data) => Ok(Self { data: column_data, presence_column_view, prev: 0, scale }),
            Err(e) => Err(e),
        }
    }
}

impl<'a> Decoder for F64Decoder<'a> {
    type T = Decimal;

    closed spec fn data_type(&self) -> DataType {
        DataType::F64 { scale: self.scale }
    }

    closed spec fn state(&self) -> State {
        State { presence: self.presence_column_view@, payload: self.data@, total: self.prev }
    }

    open spec fn value_of(value: Decimal) -> Value {
        Value::F64 { unscaled: value.unscaled, scale: value.scale }
    }

    fn decode(&mut self) -> (r: Result<Option<Decimal>, TracklibError>) {
        match self.presence_column_view.next() {
            Some(true) => {
                match leb128_i64(self.data) {
                    Ok((rest, delta)) => {
                        let new = self.prev.wrapping_add(delta);
                        self.prev = new;
                        self.data = rest;
                        Ok(Some(Decimal { unscaled: new, scale: self.scale }))
                    },
                    Err(e) => Err(e),
                }
            },
            Some(false) => Ok(None),
            // ran out of rows, this is an error
            None => Err(TracklibError::ParseIncompleteError { needed: Needed::Unknown }),
        }
    }
}

/// Decoder of a `U64` column: one unsigned variable-length integer per
/// value, without delta coding.
pub struct U64Decoder<'a> {
    data: &'a [u8],
    presence_column_view: PresenceColumnView<'a>,
}

impl<'a> U64Decoder<'a> {
    /// Validates the column's checksum and binds the decoder to the payload
    /// and to the presence bits of its field.
    pub fn new(data: &'a [u8], presence_column_view: PresenceColumnView<'a>) -> (r: Result<
        Self,
        TracklibError,
    >)
        ensures
            match initial_state(data@, presence_column_view@) {
                Ok(s) => r matches Ok(decoder) && decoder.state() == s,
                Err(e) => r matches Err(err) && err == e,
            },
    {
        match validate_column(data) {
            Ok(column_data) => Ok(Self { data: column_data, presence_column_view }),
            Err(e) => Err(e),
        }
    }
}

impl<'a> Decoder for U64Decoder<'a> {
    type T = u64;

    open spec fn data_type(&self) -> DataType {
        DataType::U64
    }

    closed spec fn state(&self) -> State {
        State { presence: self.presence_column_view@, payload: self.data@, total: 0 }
    }

    open spec fn value_of(value: u64) -> Value {
        Value::U64(value)
    }

    fn decode(&mut self) -> (r: Result<Option<u64>, TracklibError>) {
        match self.presence_column_view.next() {
            Some(true) => {
                match leb128_u64(self.data) {
                    Ok((rest, value)) => {
                        self.data = rest;
                        Ok(Some(value))
                    },
                    Err(e) => Err(e),
                }
            },
            Some(false) => Ok(None),
            // ran out of rows, this is an error
            None => Err(TracklibError::ParseIncompleteError { needed: Needed::Unknown }),
        }
    }
}

/// Decoder of a `Bool` column: one byte per value, nonzero for true.
pub struct BoolDecoder<'a> {
    data: &'a [u8],
    presence_column_view: PresenceColumnView<'a>,
}

impl<'a> BoolDecoder<'a> {
    /// Validates the column's checksum and binds the decoder to the payload
    /// and to the presence bits of its field.
    pub fn new(data: &'a [u8], presence_column_view: PresenceColumnView<'a>) -> (r: Result<
        Self,
        TracklibError,
    >)
        ensures
            match initial_state(data@, presence_column_view@) {
                Ok(s) => r matches Ok(decoder) && decoder.state() == s,
                Err(e) => r matches Err(err) && err == e,
            },
    {
        match validate_column(data) {
            Ok(column_data) => Ok(Self { data: column_data, presence_column_view }),
            Err(e) => Err(e),
        }
    }
}

impl<'a> Decoder for BoolDecoder<'a> {
    type T = bool;

    open spec fn data_type(&self) -> DataType {
        DataType::Bool
    }

    closed spec fn state(&self) -> State {
        State { presence: self.presence_column_view@, payload: self.data@, total: 0 }
    }

    open spec fn value_of(value: bool) -> Value {
        Value::Bool(value)
    }

    fn decode(&mut self) -> (r: Result<Option<bool>, TracklibError>) {
        match self.presence_column_view.next() {
            Some(true) => {
                match le_u8(self.data) {
                    Ok((rest, value)) => {
                        self.data = rest;
                        Ok(Some(value != 0))
                    },
                    Err(e) => Err(e),
                }
            },
            Some(false) => Ok(None),
            // ran out of rows, this is an error
            None => Err(TracklibError::ParseIncompleteError { needed: Needed::Unknown }),
        }
    }
}

/// Decoder of a `String` column: per value an unsigned variable-length
/// length, then that many bytes of UTF-8 text.
pub struct StringDecoder<'a> {
    data: &'a [u8],
    presence_column_view: PresenceColumnView<'a>,
}

impl<'a> StringDecoder<'a> {
    /// Validates the column's checksum and binds the decoder to the payload
    /// and to the presence bits of its field.
    pub fn new(data: &'a [u8], presence_column_view: PresenceColumnView<'a>) -> (r: Result<
        Self,
        TracklibError,
    >)
        ensures
            match initial_state(data@, presence_column_view@) {
                Ok(s) => r matches Ok(decoder) && decoder.state() == s,
                Err(e) => r matches Err(err) && err == e,
            },
    {
        match validate_column(data) {
            Ok(column_data) => Ok(Self { data: column_data, presence_column_view }),
            Err(e) => Err(e),
        }
    }
}

impl<'a> Decoder for StringDecoder<'a> {
    type T = String;

    open spec fn data_type(&self) -> DataType {
        DataType::String
    }

    closed spec fn state(&self) -> State {
        State { presence: self.presence_column_view@, payload: self.data@, total: 0 }
    }

    open spec fn value_of(value: String) -> Value {
        Value::String(value@)
    }

    fn decode(&mut self) -> (r: Result<Option<String>, TracklibError>) {
        match self.presence_column_view.next() {
            Some(true) => {
                match read_block(self.data) {
                    Ok((rest, string_bytes)) => match string_from_utf8(slice_to_vec(string_bytes)) {
                        Some(text) => {
                            self.data = rest;
                            Ok(Some(text))
                        },
                        None => Err(TracklibError::Utf8Error),
                    },
                    Err(e) => Err(e),
                }
            },
            Some(false) => Ok(None),
            // ran out of rows, this is an error
            None => Err(TracklibError::ParseIncompleteError { needed: Needed::Unknown }),
        }
    }
}

/// Turns stored bytes into truth values, one for one.
fn bools_of(bytes: &[u8]) -> (bools: Vec<bool>)
    ensures
        bools@ == bytes@.map_values(|b: u8| byte_to_bool(b)),
{
    let mut bools: Vec<bool> = Vec::new();
    let mut i: usize = 0;
    while i < bytes.len()
        invariant
            i <= bytes@.len(),
            bools@ == bytes@.take(i as int).map_values(|b: u8| byte_to_bool(b)),
        decreases bytes@.len() - i,
    {
        bools.push(bytes[i] != 0);
        proof {
            assert(bools@ =~= bytes@.take(i + 1).map_values(|b: u8| byte_to_bool(b)));
        }
        i += 1;
    }
    proof {
        assert(bytes@.take(bytes@.len() as int) =~= bytes@);
    }
    bools
}

/// Decoder of a `BoolArray` column: per value an unsigned variable-length
/// element count, then one byte per element.
pub struct BoolArrayDecoder<'a> {
    data: &'a [u8],
    presence_column_view: PresenceColumnView<'a>,
}

impl<'a> BoolArrayDecoder<'a> {
    /// Validates the column's checksum and binds the decoder to the payload
    /// and to the presence bits of its field.
    pub fn new(data: &'a [u8], presence_column_view: PresenceColumnView<'a>) -> (r: Result<
        Self,
        TracklibError,
    >)
        ensures
            match initial_state(data@, presence_column_view@) {
                Ok(s) => r matches Ok(decoder) && decoder.state() == s,
                Err(e) => r matches Err(err) && err == e,
            },
    {
        match validate_column(data) {
            Ok(column_data) => Ok(Self { data: column_data, presence_column_view }),
            Err(e) => Err(e),
        }
    }
}

impl<'a> Decoder for BoolArrayDecoder<'a> {
    type T = Vec<bool>;

    open spec fn data_type(&self) -> DataType {
        DataType::BoolArray
    }

    closed spec fn state(&self) -> State {
        State { presence: self.presence_column_view@, payload: self.data@, total: 0 }
    }

    open spec fn value_of(value: Vec<bool>) -> Value {
        Value::BoolArray(value@)
    }

    fn decode(&mut self) -> (r: Result<Option<Vec<bool>>, TracklibError>) {
        match self.presence_column_view.next() {
            Some(true) => {
                match read_block(self.data) {
                    Ok((rest, bytes)) => {
                        self.data = rest;
                        Ok(Some(bools_of(bytes)))
                    },
                    Err(e) => Err(e),
                }
            },
            Some(false) => Ok(None),
            // ran out of rows, this is an error
            None => Err(TracklibError::ParseIncompleteError { needed: Needed::Unknown }),
        }
    }
}

/// Decoder of a `ByteArray` column: per value an unsigned variable-length
/// length, then that many bytes.
pub struct ByteArrayDecoder<'a> {
    data: &'a [u8],
    presence_column_view: PresenceColumnView<'a>,
}

impl<'a> ByteArrayDecoder<'a> {
    /// Validates the column's checksum and binds the decoder to the payload
    /// and to the presence bits of its field.
    pub fn new(data: &'a [u8], presence_column_view: PresenceColumnView<'a>) -> (r: Result<
        Self,
        TracklibError,
    >)
        ensures
            match initial_state(data@, presence_column_view@) {
                Ok(s) => r matches Ok(decoder) && decoder.state() == s,
                Err(e) => r matches Err(err) && err == e,
            },
    {
        match validate_column(data) {
            Ok(column_data) => Ok(Self { data: column_data, presence_column_view }),
            Err(e) => Err(e),
        }
    }
}

impl<'a> Decoder for ByteArrayDecoder<'a> {
    type T = Vec<u8>;

    open spec fn data_type(&self) -> DataType {
        DataType::ByteArray
    }

    closed spec fn state(&self) -> State {
        State { presence: self.presence_column_view@, payload: self.data@, total: 0 }
    }

    open spec fn value_of(value: Vec<u8>) -> Value {
        Value::ByteArray(value@)
    }

    fn decode(&mut self) -> (r: Result<Option<Vec<u8>>, TracklibError>) {
        match self.presence_column_view.next() {
            Some(true) => {
                match read_block(self.data) {
                    Ok((rest, bytes)) => {
                        self.data = rest;
                        Ok(Some(slice_to_vec(bytes)))
                    },
                    Err(e) => Err(e),
                }
            },
            Some(false) => Ok(None),
            // ran out of rows, this is an error
            None => Err(TracklibError::ParseIncompleteError { needed: Needed::Unknown }),
        }
    }
}

/// The outcome of parsing a run of integers of which `done` have already
/// been read from `used` bytes, and `more` is what the remainder yields.
spec fn chain(done: Seq<u64>, used: int, more: Result<(Seq<u64>, int), TracklibError>) -> Result<
    (Seq<u64>, int),
    TracklibError,
> {
    match more {
        Err(e) => Err(e),
        Ok((values, consumed)) => Ok((done + values, used + consumed)),
    }
}

/// Reading one more integer moves it from the remainder to the part done.
proof fn lemma_chain_step(done: Seq<u64>, used: int, bytes: Seq<u8>, left: nat)
    requires
        left > 0,
        varint_error(bytes) is None,
    ensures
        chain(done, used, parse_u64s(bytes, left)) == chain(
            done.push(unsigned_value(bytes)),
            used + varint_len(bytes),
            parse_u64s(bytes.skip(varint_len(bytes)), (left - 1) as nat),
        ),
{
    match parse_u64s(bytes.skip(varint_len(bytes)), (left - 1) as nat) {
        Err(_) => {},
        Ok((values, _)) => {
            assert(done + (seq![unsigned_value(bytes)] + values) =~= done.push(
                unsigned_value(bytes),
            ) + values);
        },
    }
}

/// Reads `count` unsigned variable-length integers from the front of
/// `data`: the bytes after them and the integers.
fn read_u64s<'a>(data: &'a [u8], count: u64) -> (r: Result<(&'a [u8], Vec<u64>), TracklibError>)
    ensures
        match parse_u64s(data@, count as nat) {
            Ok((values, consumed)) => r matches Ok((rest, read)) && read@ == values && rest@
                == data@.skip(consumed),
            Err(e) => r matches Err(err) && err == e,
        },
{
    let mut values: Vec<u64> = Vec::new();
    let mut rest = data;
    let mut i: u64 = 0;
    let ghost mut used: int = 0;
    proof {
        assert(data@.skip(0) =~= data@);
        assert(Seq::<u64>::empty() + Seq::<u64>::empty() =~= Seq::<u64>::empty());
        match parse_u64s(data@, count as nat) {
            Err(_) => {},
            Ok((found, _)) => {
                assert(Seq::<u64>::empty() + found =~= found);
            },
        }
    }
    while i < count
        invariant
            i <= count,
            0 <= used <= data@.len(),
            rest@ == data@.skip(used),
            parse_u64s(data@, count as nat) == chain(
                values@,
                used,
                parse_u64s(rest@, (count - i) as nat),
            ),
        decreases count - i,
    {
        match leb128_u64(rest) {
            Ok((after, value)) => {
                proof {
                    lemma_chain_step(values@, used, rest@, (count - i) as nat);
                    assert(after@ =~= data@.skip(used + varint_len(rest@)));
                    used = used + varint_len(rest@);
                }
                values.push(value);
                rest = after;
                i += 1;
            },
            Err(e) => {
                return Err(e);
            },
        }
    }
    proof {
        assert(values@ + Seq::<u64>::empty() =~= values@);
    }
    Ok((rest, values))
}

/// Decoder of a `U64Array` column: per value an unsigned variable-length
/// element count, then that many unsigned variable-length integers.
pub struct U64ArrayDecoder<'a> {
    data: &'a [u8],
    presence_column_view: PresenceColumnView<'a>,
}

impl<'a> U64ArrayDecoder<'a> {
    /// Validates the column's checksum and binds the decoder to the payload
    /// and to the presence bits of its field.
    pub fn new(data: &'a [u8], presence_column_view: PresenceColumnView<'a>) -> (r: Result<
        Self,
        TracklibError,
    >)
        ensures
            match initial_state(data@, presence_column_view@) {
                Ok(s) => r matches Ok(decoder) && decoder.state() == s,
                Err(e) => r matches Err(err) && err == e,
            },
    {
        match validate_column(data) {
            Ok(column_data) => Ok(Self { data: column_data, presence_column_view }),
            Err(e) => Err(e),
        }
    }
}

impl<'a> Decoder for U64ArrayDecoder<'a> {
    type T = Vec<u64>;

    open spec fn data_type(&self) -> DataType {
        DataType::U64Array
    }

    closed spec fn state(&self) -> State {
        State { presence: self.presence_column_view@, payload: self.data@, total: 0 }
    }

    open spec fn value_of(value: Vec<u64>) -> Value {
        Value::U64Array(value@)
    }

    fn decode(&mut self) -> (r: Result<Option<Vec<u64>>, TracklibError>) {
        match self.presence_column_view.next() {
            Some(true) => {
                let ghost start = self.data@;
                match leb128_u64(self.data) {
                    Ok((elements, count)) => match read_u64s(elements, count) {
                        Ok((rest, values)) => {
                            proof {
                                let consumed = parse_u64s(elements@, count as nat)->Ok_0.1;
                                lemma_parse_u64s_within(elements@, count as nat);
                                assert(rest@ =~= start.skip(varint_len(start) + consumed));
                            }
                            self.data = rest;
                            Ok(Some(values))
                        },
                        Err(e) => Err(e),
                    },
                    Err(e) => Err(e),
                }
            },
            Some(false) => Ok(None),
            // ran out of rows, this is an error
            None => Err(TracklibError::ParseIncompleteError { needed: Needed::Unknown }),
        }
    }
}

/// A run of integers takes no more bytes than there are.
proof fn lemma_parse_u64s_within(bytes: Seq<u8>, count: nat)
    ensures
        parse_u64s(bytes, count) matches Ok((values, consumed)) ==> 0 <= consumed <= bytes.len()
            && values.len() == count,
    decreases count,
{
    if count > 0 && varint_error(bytes) is None {
        lemma_parse_u64s_within(bytes.skip(varint_len(bytes)), (count - 1) as nat);
    }
}

} // verus!
