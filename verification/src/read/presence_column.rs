//! The presence column: for each row and each field, one bit that says
//! whether the row has a value for the field.
//!
//! The bits are stored row by row. A row takes `ceil(fields / 8)` bytes, and
//! field `f` is bit `f % 8` of the row's byte `f / 8`.

use crate::error::{needed_bytes, ErrorKind, Needed, TracklibError};
use crate::read::crc::validated;
use crate::read::decoders::validate_column;
use vstd::prelude::*;

verus! {

/// Number of bytes that one row of presence bits takes.
pub open spec fn bytes_per_row(fields: nat) -> nat {
    (fields + 7) / 8
}

/// Whether `field` has a value in `row`, read from the payload of a presence
/// section for `fields` fields.
pub open spec fn presence_bit(payload: Seq<u8>, fields: nat, row: int, field: int) -> bool {
    payload[row * bytes_per_row(fields) + field / 8] & (1u8 << ((field % 8) as u8)) != 0
}

/// The presence bits of one field, one per row in row order.
pub open spec fn field_bits(payload: Seq<u8>, fields: nat, rows: nat, field: int) -> Seq<bool> {
    Seq::new(rows, |row: int| presence_bit(payload, fields, row, field))
}

/// What parsing a presence section for `fields` fields and `rows` rows
/// yields: the validated payload, provided that it holds exactly
/// `rows * ceil(fields / 8)` bytes. A shorter payload is incomplete, a longer
/// one malformed.
pub open spec fn parsed_presence(fields: nat, rows: nat, section: Seq<u8>) -> Result<
    Seq<u8>,
    TracklibError,
> {
    match validated(section) {
        Err(e) => Err(e),
        Ok(payload) => {
            let required = rows * bytes_per_row(fields);
            if payload.len() < required {
                Err(
                    TracklibError::ParseIncompleteError {
                        needed: needed_bytes(required - payload.len()),
                    },
                )
            } else if payload.len() > required {
                Err(TracklibError::ParseError { error_kind: ErrorKind::LengthValue })
            } else {
                Ok(payload)
            }
        },
    }
}

/// Computes the number of bytes that one row of presence bits takes.
fn row_width(fields: usize) -> (width: usize)
    ensures
        width == bytes_per_row(fields as nat),
{
    if fields % 8 == 0 {
        fields / 8
    } else {
        fields / 8 + 1
    }
}

/// A validated presence section, read as a matrix of bits with one row per
/// row of the batch and one column per field.
pub struct PresenceColumn<'a> {
    data: &'a [u8],
    fields: usize,
    rows: usize,
}

/// A forward-only cursor over the presence bits of one field.
pub struct PresenceColumnView<'a> {
    data: &'a [u8],
    bytes_per_row: usize,
    byte_index: usize,
    mask: u8,
    row: usize,
    rows: usize,
}

impl<'a> PresenceColumn<'a> {
    #[verifier::type_invariant]
    spec fn inv(&self) -> bool {
        self.data@.len() == self.rows * bytes_per_row(self.fields as nat)
    }

    /// The validated payload.
    pub closed spec fn payload(&self) -> Seq<u8> {
        self.data@
    }

    /// The number of fields in each row.
    pub closed spec fn fields(&self) -> nat {
        self.fields as nat
    }

    /// The number of rows.
    pub closed spec fn rows(&self) -> nat {
        self.rows as nat
    }

    /// A cursor over the presence bits of the field at position `index`,
    /// starting at the first row. Cursors do not affect one another.
    pub fn view(&self, index: usize) -> (view: PresenceColumnView<'a>)
        requires
            index < self.fields(),
        ensures
            view@ == field_bits(self.payload(), self.fields(), self.rows(), index as int),
    {
        proof {
            use_type_invariant(self);
        }
        let bytes_per_row = row_width(self.fields);
        let shift: u8 = (index % 8) as u8;
        let view = PresenceColumnView {
            data: self.data,
            bytes_per_row,
            byte_index: index / 8,
            mask: 1u8 << shift,
            row: 0,
            rows: self.rows,
        };
        proof {
            assert(view@ =~= field_bits(self.payload(), self.fields(), self.rows(), index as int));
        }
        view
    }
}

impl<'a> View for PresenceColumnView<'a> {
    type V = Seq<bool>;

    /// The bits of the rows that have not been read yet.
    closed spec fn view(&self) -> Seq<bool> {
        Seq::new(
            (self.rows - self.row) as nat,
            |k: int|
                self.data@[(self.row + k) * self.bytes_per_row + self.byte_index] & self.mask
                    != 0,
        )
    }
}

impl<'a> PresenceColumnView<'a> {
    #[verifier::type_invariant]
    spec fn inv(&self) -> bool {
        &&& self.data@.len() == self.rows * self.bytes_per_row
        &&& self.byte_index < self.bytes_per_row
        &&& self.row <= self.rows
    }

    /// Reads the bit of the next row. Once every row has been read the
    /// result is `None`, on this call and on every later one.
    pub fn next(&mut self) -> (bit: Option<bool>)
        ensures
            old(self)@.len() == 0 ==> bit is None && final(self)@ == old(self)@,
            old(self)@.len() > 0 ==> bit == Some(old(self)@[0]) && final(self)@ == old(self)@.skip(
                1,
            ),
    {
        proof {
            use_type_invariant(&*self);
        }
        if self.row < self.rows {
            proof {
                lemma_cell_in_bounds(
                    self.row as int,
                    self.rows as int,
                    self.byte_index as int,
                    self.bytes_per_row as int,
                );
            }
            assert(self.data@.len() == self.data.len());
            let at: usize = self.row * self.bytes_per_row + self.byte_index;
            let bit = self.data[at] & self.mask != 0;
            self.row = self.row + 1;
            proof {
                assert(final(self)@ =~= old(self)@.skip(1));
            }
            Some(bit)
        } else {
            None
        }
    }
}

/// The byte of row `row` at offset `offset` lies inside a matrix of `rows`
/// rows of `width` bytes.
proof fn lemma_cell_in_bounds(row: int, rows: int, offset: int, width: int)
    requires
        0 <= row < rows,
        0 <= offset < width,
    ensures
        0 <= row * width,
        row * width + offset < rows * width,
{
    assert(0 <= row * width) by (nonlinear_arith)
        requires
            0 <= row,
            0 <= width,
    ;
    assert((row + 1) * width <= rows * width) by (nonlinear_arith)
        requires
            row + 1 <= rows,
            0 <= width,
    ;
    assert((row + 1) * width == row * width + width) by (nonlinear_arith);
}

/// Parses a presence section: validates its checksum and checks that the
/// payload holds exactly the bits of `rows` rows of `fields` fields.
pub fn parse_presence_column<'a>(fields: usize, rows: usize, input: &'a [u8]) -> (r: Result<
    PresenceColumn<'a>,
    TracklibError,
>)
    ensures
        match parsed_presence(fields as nat, rows as nat, input@) {
            Ok(payload) => r matches Ok(column) && column.payload() == payload && column.fields()
                == fields && column.rows() == rows,
            Err(e) => r matches Err(err) && err == e,
        },
{
    let data = match validate_column(input) {
        Ok(data) => data,
        Err(e) => { return Err(e); },
    };
    let width = row_width(fields);
    assert((rows as int) * (width as int) <= 0xFFFF_FFFF_FFFF_FFFF * 0xFFFF_FFFF_FFFF_FFFF)
        by (nonlinear_arith)
        requires
            0 <= rows <= 0xFFFF_FFFF_FFFF_FFFF,
            0 <= width <= 0xFFFF_FFFF_FFFF_FFFF,
    ;
    let required: u128 = (rows as u128) * (width as u128);
    let have: u128 = data.len() as u128;
    if have < required {
        Err(TracklibError::ParseIncompleteError { needed: Needed::bytes(required - have) })
    } else if have > required {
        Err(TracklibError::ParseError { error_kind: ErrorKind::LengthValue })
    } else {
        Ok(PresenceColumn { data, fields, rows })
    }
}

} // verus!
