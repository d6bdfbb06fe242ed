use tracklib2::error::{ErrorKind, Needed, TracklibError};
use tracklib2::read::crc::checksum;
use tracklib2::read::presence_column::parse_presence_column;

fn sealed(payload: &[u8]) -> Vec<u8> {
    let mut section = payload.to_vec();
    section.extend_from_slice(&checksum(payload).to_le_bytes());
    section
}

#[test]
fn crc32_known_vectors() {
    assert_eq!(checksum(&[]), 0x0000_0000);
    assert_eq!(checksum(b"123456789"), 0xFC89_1918);
    assert_eq!(checksum(&[0x00, 0x01, 0x02]), 0x9300_784D);
    assert_eq!(checksum(&[1, 1, 0, 1, 1]), 0xFB57_6532);
    assert_eq!(checksum(&[0x20, 0x42, 0x00, 0x01]), 0xA349_010C);
    assert_eq!(checksum(&[0x01, 0x00]), 0x2D51_5A5E);
}

#[test]
fn presence_view_reads_one_bit_per_row() {
    let section = sealed(&[0b101, 0b010, 0b111, 0b000]);
    let column = parse_presence_column(3, 4, &section).ok().unwrap();
    let mut first = column.view(0);
    let mut second = column.view(1);
    let mut third = column.view(2);
    assert_eq!(
        [first.next(), first.next(), first.next(), first.next()],
        [Some(true), Some(false), Some(true), Some(false)]
    );
    assert_eq!(
        [second.next(), second.next(), second.next(), second.next()],
        [Some(false), Some(true), Some(true), Some(false)]
    );
    assert_eq!(
        [third.next(), third.next(), third.next(), third.next()],
        [Some(true), Some(false), Some(true), Some(false)]
    );
}

#[test]
fn presence_view_is_exhausted_after_last_row_and_stays_so() {
    let section = sealed(&[1, 0]);
    let column = parse_presence_column(1, 2, &section).ok().unwrap();
    let mut view = column.view(0);
    assert_eq!(view.next(), Some(true));
    assert_eq!(view.next(), Some(false));
    assert_eq!(view.next(), None);
    assert_eq!(view.next(), None);
    assert_eq!(view.next(), None);
}

#[test]
fn presence_views_of_one_field_are_independent_cursors() {
    let section = sealed(&[1, 0, 1]);
    let column = parse_presence_column(1, 3, &section).ok().unwrap();
    let mut a = column.view(0);
    assert_eq!(a.next(), Some(true));
    assert_eq!(a.next(), Some(false));
    let mut b = column.view(0);
    assert_eq!(b.next(), Some(true));
    assert_eq!(a.next(), Some(true));
    assert_eq!(b.next(), Some(false));
}

#[test]
fn presence_fields_beyond_eight_use_further_bytes() {
    // Ten fields: two bytes per row. Field 8 is bit 0 of the second byte,
    // field 9 is bit 1 of it.
    let section = sealed(&[0b1000_0000, 0b01, 0b0000_0001, 0b10]);
    let column = parse_presence_column(10, 2, &section).ok().unwrap();
    let mut f0 = column.view(0);
    let mut f7 = column.view(7);
    let mut f8 = column.view(8);
    let mut f9 = column.view(9);
    assert_eq!([f0.next(), f0.next(), f0.next()], [Some(false), Some(true), None]);
    assert_eq!([f7.next(), f7.next(), f7.next()], [Some(true), Some(false), None]);
    assert_eq!([f8.next(), f8.next(), f8.next()], [Some(true), Some(false), None]);
    assert_eq!([f9.next(), f9.next(), f9.next()], [Some(false), Some(true), None]);
}

#[test]
fn presence_of_eight_fields_takes_one_byte_per_row() {
    let section = sealed(&[0x80, 0x7F]);
    let column = parse_presence_column(8, 2, &section).ok().unwrap();
    let mut last = column.view(7);
    assert_eq!([last.next(), last.next(), last.next()], [Some(true), Some(false), None]);
    // Nine fields need two bytes per row, so the same payload is one row.
    let column = parse_presence_column(9, 1, &section).ok().unwrap();
    let mut ninth = column.view(8);
    assert_eq!([ninth.next(), ninth.next()], [Some(true), None]);
}

#[test]
fn presence_with_no_rows_or_no_fields_has_empty_payload() {
    let section = sealed(&[]);
    let column = parse_presence_column(3, 0, &section).ok().unwrap();
    let mut view = column.view(1);
    assert_eq!(view.next(), None);
    assert!(parse_presence_column(0, 5, &section).is_ok());
}

#[test]
fn presence_with_bad_checksum_is_rejected() {
    let outcome = parse_presence_column(1, 3, &[0x00, 0x01, 0x02, 0x00, 0x00, 0x00, 0x00]);
    assert_eq!(
        outcome.err(),
        Some(TracklibError::CRC32Error { expected: 0x0000_0000, computed: 0x9300_784D })
    );
}

#[test]
fn presence_shorter_than_a_checksum_is_rejected() {
    let outcome = parse_presence_column(1, 3, &[0x00, 0x01]);
    assert_eq!(outcome.err(), Some(TracklibError::ParseError { error_kind: ErrorKind::Eof }));
}

#[test]
fn presence_with_too_few_bytes_is_incomplete() {
    let section = sealed(&[1, 0, 1]);
    let outcome = parse_presence_column(1, 5, &section);
    assert_eq!(
        outcome.err(),
        Some(TracklibError::ParseIncompleteError { needed: Needed::Size(2) })
    );
    let outcome = parse_presence_column(9, 3, &section);
    assert_eq!(
        outcome.err(),
        Some(TracklibError::ParseIncompleteError { needed: Needed::Size(3) })
    );
}

#[test]
fn presence_with_too_many_bytes_is_malformed() {
    let section = sealed(&[1, 0, 1]);
    let outcome = parse_presence_column(1, 2, &section);
    assert_eq!(
        outcome.err(),
        Some(TracklibError::ParseError { error_kind: ErrorKind::LengthValue })
    );
    let outcome = parse_presence_column(0, 2, &section);
    assert_eq!(
        outcome.err(),
        Some(TracklibError::ParseError { error_kind: ErrorKind::LengthValue })
    );
}

#[test]
fn presence_for_more_rows_than_memory_holds_is_incomplete() {
    let section = sealed(&[1]);
    let outcome = parse_presence_column(usize::MAX, usize::MAX, &section);
    assert_eq!(
        outcome.err(),
        Some(TracklibError::ParseIncompleteError { needed: Needed::Unknown })
    );
}
