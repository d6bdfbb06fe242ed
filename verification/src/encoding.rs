//! The bytes that a conformant writer produces, stated as spec functions, and the
//! proofs that reading inverts writing.
//!
//! Nothing here is executable: writing is not this crate's business. The
//! functions say what it means for a column to be well formed, so that the
//! read side can be held to it.

use crate::error::TracklibError;
use crate::read::crc::{lemma_sealed_section_validates, sealed};
use crate::read::decoders::initial_state;
use crate::read::leb128::{
    encode_signed, encode_unsigned, lemma_signed_round_trip, lemma_unsigned_round_trip, varint_len,
};
use crate::read::model::{
    byte_to_bool, decode_rows, parse_block, parse_u64s, parse_value, Parsed, State, Value,
};
use crate::read::presence_column::{bytes_per_row, field_bits, parsed_presence, presence_bit};
use crate::schema::DataType;
use vstd::arithmetic::div_mod::lemma_fundamental_div_mod_converse;
use vstd::prelude::*;
use vstd::utf8::{encode_utf8, encode_utf8_decode_utf8, encode_utf8_valid_utf8};
use vstd::wrapping::i64_specs;

verus! {

/// The byte that stores a truth value.
pub open spec fn bool_to_byte(b: bool) -> u8 {
    if b {
        1
    } else {
        0
    }
}

/// A length-prefixed block: the number of bytes, then the bytes.
pub open spec fn encode_block(bytes: Seq<u8>) -> Seq<u8> {
    encode_unsigned(bytes.len()) + bytes
}

/// Unsigned integers one after another.
pub open spec fn encode_u64s(values: Seq<u64>) -> Seq<u8>
    decreases values.len(),
{
    if values.len() == 0 {
        Seq::empty()
    } else {
        encode_unsigned(values[0] as nat) + encode_u64s(values.skip(1))
    }
}

/// Whether `value` is a value of `data_type` that can be written: it is of
/// the right kind, carries the scale of its column, and its length fits the
/// 64 bits of a length prefix.
pub open spec fn value_fits(data_type: DataType, value: Value) -> bool {
    match (data_type, value) {
        (DataType::I64, Value::I64(_)) => true,
        (DataType::F64 { scale }, Value::F64 { scale: s, .. }) => s == scale,
        (DataType::U64, Value::U64(_)) => true,
        (DataType::Bool, Value::Bool(_)) => true,
        (DataType::String, Value::String(chars)) => encode_utf8(chars).len() <= u64::MAX,
        (DataType::BoolArray, Value::BoolArray(bools)) => bools.len() <= u64::MAX,
        (DataType::U64Array, Value::U64Array(values)) => values.len() <= u64::MAX,
        (DataType::ByteArray, Value::ByteArray(bytes)) => bytes.len() <= u64::MAX,
        _ => false,
    }
}

/// The running total after `value` has been written.
pub open spec fn total_after(total: i64, value: Value) -> i64 {
    match value {
        Value::I64(v) => v,
        Value::F64 { unscaled, .. } => unscaled,
        _ => total,
    }
}

/// The bytes of one value, written when the running total is `total`.
pub open spec fn encode_value(total: i64, value: Value) -> Seq<u8> {
    match value {
        Value::I64(v) => encode_signed(i64_specs::wrapping_sub(v, total) as int),
        Value::F64 { unscaled, .. } => encode_signed(
            i64_specs::wrapping_sub(unscaled, total) as int,
        ),
        Value::U64(v) => encode_unsigned(v as nat),
        Value::Bool(b) => seq![bool_to_byte(b)],
        Value::String(chars) => encode_block(encode_utf8(chars)),
        Value::BoolArray(bools) => encode_block(bools.map_values(|b: bool| bool_to_byte(b))),
        Value::U64Array(values) => encode_unsigned(values.len()) + encode_u64s(values),
        Value::ByteArray(bytes) => encode_block(bytes),
    }
}

/// The payload of a column: the bytes of its present values in row order.
/// Absent values take no bytes.
pub open spec fn encode_rows(total: i64, values: Seq<Option<Value>>) -> Seq<u8>
    decreases values.len(),
{
    if values.len() == 0 {
        Seq::empty()
    } else {
        match values[0] {
            None => encode_rows(total, values.skip(1)),
            Some(value) => encode_value(total, value) + encode_rows(
                total_after(total, value),
                values.skip(1),
            ),
        }
    }
}

/// The presence bits of a column: one per row, set where there is a value.
pub open spec fn presence_of(values: Seq<Option<Value>>) -> Seq<bool> {
    values.map_values(|v: Option<Value>| v is Some)
}

/// Whether every present value can be written to a column of `data_type`.
pub open spec fn rows_fit(data_type: DataType, values: Seq<Option<Value>>) -> bool {
    forall|i: int|
        0 <= i < values.len() ==> (#[trigger] values[i] matches Some(value) ==> value_fits(
            data_type,
            value,
        ))
}

/// A written block is read back as its bytes, whatever follows it.
pub proof fn lemma_block_round_trip(bytes: Seq<u8>, tail: Seq<u8>)
    requires
        bytes.len() <= u64::MAX,
    ensures
        parse_block(encode_block(bytes) + tail) == Ok::<(Seq<u8>, int), TracklibError>(
            (bytes, encode_block(bytes).len() as int),
        ),
{
    let prefix = encode_unsigned(bytes.len());
    let s = encode_block(bytes) + tail;
    assert(s =~= prefix + (bytes + tail));
    lemma_unsigned_round_trip(bytes.len() as u64, bytes + tail);
    let rest = s.skip(varint_len(s));
    assert(rest =~= bytes + tail);
    assert(rest.take(bytes.len() as int) =~= bytes);
}

/// Written integers are read back one for one, whatever follows them.
pub proof fn lemma_u64s_round_trip(values: Seq<u64>, tail: Seq<u8>)
    ensures
        parse_u64s(encode_u64s(values) + tail, values.len()) == Ok::<
            (Seq<u64>, int),
            TracklibError,
        >((values, encode_u64s(values).len() as int)),
    decreases values.len(),
{
    if values.len() > 0 {
        let head = encode_unsigned(values[0] as nat);
        let rest = values.skip(1);
        let s = encode_u64s(values) + tail;
        assert(s =~= head + (encode_u64s(rest) + tail));
        lemma_unsigned_round_trip(values[0], encode_u64s(rest) + tail);
        assert(s.skip(varint_len(s)) =~= encode_u64s(rest) + tail);
        lemma_u64s_round_trip(rest, tail);
        assert(seq![values[0]] + rest =~= values);
    } else {
        assert(values =~= Seq::<u64>::empty());
    }
}

/// A written value is read back as itself by the rule of its data type,
/// whatever follows it: the same value, exactly its own bytes consumed, and
/// the running total that the writer had after it.
pub proof fn lemma_value_round_trip(data_type: DataType, total: i64, value: Value, tail: Seq<u8>)
    requires
        value_fits(data_type, value),
    ensures
        parse_value(data_type, total, encode_value(total, value) + tail) == Ok::<
            Parsed,
            TracklibError,
        >(
            Parsed {
                value,
                consumed: encode_value(total, value).len() as int,
                total: total_after(total, value),
            },
        ),
{
    let code = encode_value(total, value);
    let s = code + tail;
    match value {
        Value::I64(v) => {
            lemma_signed_round_trip(i64_specs::wrapping_sub(v, total), tail);
        },
        Value::F64 { unscaled, .. } => {
            lemma_signed_round_trip(i64_specs::wrapping_sub(unscaled, total), tail);
        },
        Value::U64(v) => {
            lemma_unsigned_round_trip(v, tail);
        },
        Value::Bool(b) => {
            assert(s[0] == bool_to_byte(b));
        },
        Value::String(chars) => {
            lemma_block_round_trip(encode_utf8(chars), tail);
            encode_utf8_valid_utf8(chars);
            encode_utf8_decode_utf8(chars);
        },
        Value::BoolArray(bools) => {
            let bytes = bools.map_values(|b: bool| bool_to_byte(b));
            lemma_block_round_trip(bytes, tail);
            assert(bytes.map_values(|b: u8| byte_to_bool(b)) =~= bools);
        },
        Value::U64Array(values) => {
            let prefix = encode_unsigned(values.len());
            assert(s =~= prefix + (encode_u64s(values) + tail));
            lemma_unsigned_round_trip(values.len() as u64, encode_u64s(values) + tail);
            assert(s.skip(varint_len(s)) =~= encode_u64s(values) + tail);
            lemma_u64s_round_trip(values, tail);
        },
        Value::ByteArray(bytes) => {
            lemma_block_round_trip(bytes, tail);
        },
    }
}

/// Decoding the rows of a written column, whatever follows its bytes, yields
/// the written values row by row.
pub proof fn lemma_rows_round_trip(
    data_type: DataType,
    total: i64,
    values: Seq<Option<Value>>,
    tail: Seq<u8>,
)
    requires
        rows_fit(data_type, values),
    ensures
        decode_rows(
            data_type,
            State { presence: presence_of(values), payload: encode_rows(total, values) + tail, total },
        ) == Ok::<Seq<Option<Value>>, TracklibError>(values),
    decreases values.len(),
{
    let s = State {
        presence: presence_of(values),
        payload: encode_rows(total, values) + tail,
        total,
    };
    if values.len() == 0 {
        assert(values =~= Seq::<Option<Value>>::empty());
    } else {
        let rest = values.skip(1);
        assert(presence_of(values).skip(1) =~= presence_of(rest));
        assert(rows_fit(data_type, rest)) by {
            assert forall|i: int| 0 <= i < rest.len() implies (#[trigger] rest[i] matches Some(
                value,
            ) ==> value_fits(data_type, value)) by {
                assert(rest[i] == values[i + 1]);
            }
        }
        assert(seq![values[0]] + rest =~= values);
        match values[0] {
            None => {
                lemma_rows_round_trip(data_type, total, rest, tail);
            },
            Some(value) => {
                let code = encode_value(total, value);
                let after = encode_rows(total_after(total, value), rest) + tail;
                assert(s.payload =~= code + after);
                lemma_value_round_trip(data_type, total, value, after);
                assert((code + after).skip(code.len() as int) =~= after);
                lemma_rows_round_trip(data_type, total_after(total, value), rest, tail);
            },
        }
    }
}

/// Round trip of a column: a decoder made from the sealed payload of written
/// rows and from their presence bits starts in a state from which decoding
/// every row yields the written values, absent ones included.
pub proof fn lemma_column_round_trip(data_type: DataType, values: Seq<Option<Value>>)
    requires
        rows_fit(data_type, values),
    ensures
        initial_state(sealed(encode_rows(0, values)), presence_of(values)) matches Ok(s)
            && decode_rows(data_type, s) == Ok::<Seq<Option<Value>>, TracklibError>(values),
{
    let payload = encode_rows(0, values);
    lemma_sealed_section_validates(payload);
    lemma_rows_round_trip(data_type, 0, values, Seq::empty());
    assert(payload + Seq::<u8>::empty() =~= payload);
}

/// The mask of `field` within its byte if the row has a value for it, and
/// zero if not.
pub open spec fn flag(row: Seq<bool>, field: int) -> u8 {
    if 0 <= field < row.len() && row[field] {
        1u8 << ((field % 8) as u8)
    } else {
        0
    }
}

/// Byte `group` of a row of presence bits: the flags of its eight fields.
pub open spec fn pack_group(row: Seq<bool>, group: int) -> u8 {
    flag(row, 8 * group) | flag(row, 8 * group + 1) | flag(row, 8 * group + 2) | flag(
        row,
        8 * group + 3,
    ) | flag(row, 8 * group + 4) | flag(row, 8 * group + 5) | flag(row, 8 * group + 6) | flag(
        row,
        8 * group + 7,
    )
}

/// Whether `matrix` has `rows` rows of `fields` bits each.
pub open spec fn shaped<T>(matrix: Seq<Seq<T>>, fields: nat, rows: nat) -> bool {
    &&& matrix.len() == rows
    &&& forall|row: int| 0 <= row < rows ==> (#[trigger] matrix[row]).len() == fields
}

/// The payload of a presence section: the rows one after another, each
/// packed into `ceil(fields / 8)` bytes.
pub open spec fn encode_presence(matrix: Seq<Seq<bool>>, fields: nat) -> Seq<u8> {
    Seq::new(
        matrix.len() * bytes_per_row(fields),
        |i: int| pack_group(matrix[i / (bytes_per_row(fields) as int)], i % (bytes_per_row(fields) as int)),
    )
}

/// Column `field` of a matrix.
pub open spec fn column_of<T>(matrix: Seq<Seq<T>>, field: int) -> Seq<T> {
    Seq::new(matrix.len(), |row: int| matrix[row][field])
}

/// Of eight flags, each zero or the mask of its bit, the union has bit `k`
/// set exactly if flag `k` is not zero.
proof fn lemma_union_of_flags(
    x0: u8,
    x1: u8,
    x2: u8,
    x3: u8,
    x4: u8,
    x5: u8,
    x6: u8,
    x7: u8,
    k: u8,
)
    by (bit_vector)
    requires
        x0 == 0 || x0 == 1u8 << 0u8,
        x1 == 0 || x1 == 1u8 << 1u8,
        x2 == 0 || x2 == 1u8 << 2u8,
        x3 == 0 || x3 == 1u8 << 3u8,
        x4 == 0 || x4 == 1u8 << 4u8,
        x5 == 0 || x5 == 1u8 << 5u8,
        x6 == 0 || x6 == 1u8 << 6u8,
        x7 == 0 || x7 == 1u8 << 7u8,
        k < 8,
    ensures
        ((x0 | x1 | x2 | x3 | x4 | x5 | x6 | x7) & (1u8 << k) != 0) == (if k == 0 {
            x0 != 0
        } else if k == 1 {
            x1 != 0
        } else if k == 2 {
            x2 != 0
        } else if k == 3 {
            x3 != 0
        } else if k == 4 {
            x4 != 0
        } else if k == 5 {
            x5 != 0
        } else if k == 6 {
            x6 != 0
        } else {
            x7 != 0
        }),
        1u8 << k != 0,
{
}

/// A packed byte has the bit of a field set exactly if the row has a value
/// for that field.
proof fn lemma_packed_bit(row: Seq<bool>, field: int)
    requires
        0 <= field < row.len(),
    ensures
        (pack_group(row, field / 8) & (1u8 << ((field % 8) as u8)) != 0) == row[field],
{
    let g = field / 8;
    let k = (field % 8) as u8;
    lemma_union_of_flags(
        flag(row, 8 * g),
        flag(row, 8 * g + 1),
        flag(row, 8 * g + 2),
        flag(row, 8 * g + 3),
        flag(row, 8 * g + 4),
        flag(row, 8 * g + 5),
        flag(row, 8 * g + 6),
        flag(row, 8 * g + 7),
        k,
    );
    assert(flag(row, field) != 0 <==> row[field]);
}

/// A written presence section is read back as the written bits: the section
/// parses, and every field's bits are that field's column of the matrix.
pub proof fn lemma_presence_round_trip(matrix: Seq<Seq<bool>>, fields: nat, rows: nat)
    requires
        shaped(matrix, fields, rows),
    ensures
        parsed_presence(fields, rows, sealed(encode_presence(matrix, fields))) == Ok::<
            Seq<u8>,
            TracklibError,
        >(encode_presence(matrix, fields)),
        forall|row: int, field: int|
            0 <= row < rows && 0 <= field < fields ==> #[trigger] presence_bit(
                encode_presence(matrix, fields),
                fields,
                row,
                field,
            ) == matrix[row][field],
        forall|field: int|
            0 <= field < fields ==> #[trigger] field_bits(
                encode_presence(matrix, fields),
                fields,
                rows,
                field,
            ) == column_of(matrix, field),
{
    let payload = encode_presence(matrix, fields);
    let width = bytes_per_row(fields) as int;
    lemma_sealed_section_validates(payload);
    assert forall|row: int, field: int| 0 <= row < rows && 0 <= field < fields implies #[trigger] presence_bit(
        payload,
        fields,
        row,
        field,
    ) == matrix[row][field] by {
        let at = row * width + field / 8;
        assert(0 <= field / 8 < width);
        assert(row * width + width <= rows * width) by (nonlinear_arith)
            requires
                0 <= row < rows,
                0 <= width,
        ;
        assert(0 <= row * width) by (nonlinear_arith)
            requires
                0 <= row,
                0 <= width,
        ;
        lemma_fundamental_div_mod_converse(at, width, row, field / 8);
        assert(payload[at] == pack_group(matrix[row], field / 8));
        lemma_packed_bit(matrix[row], field);
    }
    assert forall|field: int| 0 <= field < fields implies #[trigger] field_bits(
        payload,
        fields,
        rows,
        field,
    ) == column_of(matrix, field) by {
        assert(field_bits(payload, fields, rows, field) =~= column_of(matrix, field));
    }
}

/// Which values of a table exist.
pub open spec fn presence_matrix(table: Seq<Seq<Option<Value>>>) -> Seq<Seq<bool>> {
    table.map_values(|row: Seq<Option<Value>>| presence_of(row))
}

/// Round trip of a batch, field by field. For a table of optional values
/// with `rows` rows and `fields` columns, written as one presence section and
/// one sealed column per field: the presence section parses; the bits that it
/// gives for a field say which of the field's values exist; and a decoder made
/// from the field's section and those bits yields the field's values row by
/// row.
pub proof fn lemma_batch_round_trip(
    table: Seq<Seq<Option<Value>>>,
    fields: nat,
    rows: nat,
    field: int,
    data_type: DataType,
)
    requires
        shaped(table, fields, rows),
        0 <= field < fields,
        rows_fit(data_type, column_of(table, field)),
    ensures
        ({
            let bitmap = encode_presence(presence_matrix(table), fields);
            let values = column_of(table, field);
            let bits = field_bits(bitmap, fields, rows, field);
            &&& parsed_presence(fields, rows, sealed(bitmap)) == Ok::<Seq<u8>, TracklibError>(bitmap)
            &&& bits == presence_of(values)
            &&& initial_state(sealed(encode_rows(0, values)), bits) matches Ok(s) && decode_rows(
                data_type,
                s,
            ) == Ok::<Seq<Option<Value>>, TracklibError>(values)
        }),
{
    let matrix = presence_matrix(table);
    let values = column_of(table, field);
    assert(shaped(matrix, fields, rows)) by {
        assert forall|row: int| 0 <= row < rows implies (#[trigger] matrix[row]).len()
            == fields by {
            assert(table[row].len() == fields);
        }
    }
    lemma_presence_round_trip(matrix, fields, rows);
    assert(column_of(matrix, field) =~= presence_of(values)) by {
        assert forall|row: int| 0 <= row < rows implies column_of(matrix, field)[row]
            == presence_of(values)[row] by {
            assert(table[row].len() == fields);
        }
    }
    lemma_column_round_trip(data_type, values);
}

} // verus!
