use lmdb_viewer::error::DatabaseError;
use lmdb_viewer::text::{display_text, label_text, replace_zero_bytes, table_name};

#[test]
fn plain_text_is_shown_as_it_is() {
    assert_eq!(display_text(b"hello"), "hello");
    assert_eq!(display_text(b""), "");
    assert_eq!(display_text("gr\u{fc}n".as_bytes()), "gr\u{fc}n");
}

#[test]
fn zero_bytes_are_shown_as_the_digit_zero() {
    assert_eq!(display_text(b"a\x00b"), "a0b");
    assert_eq!(display_text(&[0, 0, 0]), "000");
    assert_eq!(display_text(&[0, 0, 0, 42]), "000*");
}

#[test]
fn ill_formed_bytes_are_shown_as_the_replacement_character() {
    assert_eq!(display_text(&[0x61, 0xff, 0x62]), "a\u{fffd}b");
    assert_eq!(display_text(&[0xc3]), "\u{fffd}");
    assert_eq!(display_text(&[0xc3, 0x00]), "\u{fffd}0");
}

#[test]
fn zero_bytes_are_replaced_and_nothing_else() {
    assert_eq!(replace_zero_bytes(&[0, 1, 0x30, 0, 255]), vec![0x30, 1, 0x30, 0x30, 255]);
    assert_eq!(replace_zero_bytes(b""), Vec::<u8>::new());
}

#[test]
fn a_label_is_the_key_decoded_lossily() {
    assert_eq!(label_text(b"alpha"), "alpha");
    assert_eq!(label_text(&[0x61, 0xff]), "a\u{fffd}");
    assert_eq!(label_text(b"a\x00b"), "a\u{0}b");
}

#[test]
fn a_key_in_utf8_names_a_table() {
    assert_eq!(table_name(b"alpha"), Ok("alpha"));
    assert_eq!(table_name("gr\u{fc}n".as_bytes()), Ok("gr\u{fc}n"));
    assert_eq!(table_name(b""), Ok(""));
}

#[test]
fn a_key_that_is_not_utf8_names_no_table() {
    assert_eq!(table_name(&[0xff, 0xfe]), Err(DatabaseError::NotFound));
    assert_eq!(table_name(&[0x61, 0xc3]), Err(DatabaseError::NotFound));
}

#[test]
fn a_key_with_a_zero_byte_names_no_table() {
    assert_eq!(table_name(b"a\x00b"), Err(DatabaseError::NotFound));
    assert_eq!(table_name(&[0]), Err(DatabaseError::NotFound));
}

#[test]
fn each_failure_has_its_words() {
    assert_eq!(DatabaseError::NotFound.to_string(), "database not found");
    assert_eq!(
        DatabaseError::Open("no such directory".to_string()).to_string(),
        "Failed to open env: no such directory"
    );
    assert_eq!(
        DatabaseError::Transaction("reader table full".to_string()).to_string(),
        "Failed to read db: reader table full"
    );
}
