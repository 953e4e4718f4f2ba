//! Bytes as text: the names of tables, and what a viewer shows for a key or
//! for data. The bytes themselves never change.

use crate::bytes::has_zero_byte;
use crate::error::DatabaseError;
use vstd::prelude::*;
use vstd::string::StringSliceAdditionalSpecFns;
use vstd::utf8::{decode_utf8, valid_utf8};

verus! {

/// The text that lossy UTF-8 decoding makes of a byte string: every
/// ill-formed part gives way to the replacement character.
pub uninterp spec fn lossy_text(bytes: Seq<u8>) -> Seq<char>;

/// `String::from_utf8_lossy`: the result is a function of the bytes, named
/// `lossy_text`; well-formed UTF-8 is decoded as it stands.
#[verifier::external_body]
fn decode_lossy(bytes: &[u8]) -> (text: String)
    ensures
        text@ == lossy_text(bytes@),
        valid_utf8(bytes@) ==> text@ == decode_utf8(bytes@),
{
    String::from_utf8_lossy(bytes).into_owned()
}

/// `std::str::from_utf8`: text exactly where the bytes are well-formed
/// UTF-8, and then the text that those bytes encode.
#[verifier::external_body]
fn decode_strict(bytes: &[u8]) -> (text: Option<&str>)
    ensures
        text is Some <==> valid_utf8(bytes@),
        text matches Some(decoded) ==> decoded.spec_bytes() == bytes@,
{
    match std::str::from_utf8(bytes) {
        Ok(decoded) => Some(decoded),
        Err(_) => None,
    }
}

/// The byte that shows in place of a zero byte: the digit `0`.
pub const ZERO_STAND_IN: u8 = 0x30;

/// A byte string with each zero byte exchanged for the digit `0`.
pub open spec fn zero_bytes_replaced(bytes: Seq<u8>) -> Seq<u8> {
    bytes.map_values(
        |byte: u8|
            if byte == 0 {
                ZERO_STAND_IN
            } else {
                byte
            },
    )
}

/// Whether a key of the root table can be the name of a table: well-formed
/// UTF-8 without a zero byte.
pub open spec fn names_a_table(key: Seq<u8>) -> bool {
    valid_utf8(key) && !key.contains(0u8)
}

/// Copies a byte string, with the digit `0` in place of each zero byte.
pub fn replace_zero_bytes(bytes: &[u8]) -> (shown: Vec<u8>)
    ensures
        shown@ == zero_bytes_replaced(bytes@),
{
    let mut shown: Vec<u8> = Vec::new();
    let mut i: usize = 0;
    while i < bytes.len()
        invariant
            i <= bytes@.len(),
            shown@.len() == i,
            forall|j: int| 0 <= j < i ==> shown@[j] == zero_bytes_replaced(bytes@)[j],
        decreases bytes@.len() - i,
    {
        let byte = bytes[i];
        if byte == 0 {
            shown.push(ZERO_STAND_IN);
        } else {
            shown.push(byte);
        }
        i += 1;
    }
    assert(shown@ =~= zero_bytes_replaced(bytes@));
    shown
}

/// The text shown for a key or for data in a table view: zero bytes show as
/// the digit `0`, and the rest is decoded as UTF-8, lossily.
pub fn display_text(bytes: &[u8]) -> (text: String)
    ensures
        text@ == lossy_text(zero_bytes_replaced(bytes@)),
{
    let shown = replace_zero_bytes(bytes);
    decode_lossy(shown.as_slice())
}

/// The text shown for a key of the root table where a table is chosen: the
/// key decoded as UTF-8, lossily.
pub fn label_text(key: &[u8]) -> (text: String)
    ensures
        text@ == lossy_text(key@),
        valid_utf8(key@) ==> text@ == decode_utf8(key@),
{
    decode_lossy(key)
}

/// The table name that a key of the root table stands for. A key that is not
/// well-formed UTF-8, or that holds a zero byte, names no table.
pub fn table_name(key: &[u8]) -> (name: Result<&str, DatabaseError>)
    ensures
        name is Ok <==> names_a_table(key@),
        name matches Ok(text) ==> text.spec_bytes() == key@,
        name matches Err(error) ==> error is NotFound,
{
    if has_zero_byte(key) {
        return Err(DatabaseError::NotFound);
    }
    match decode_strict(key) {
        Some(text) => Ok(text),
        None => Err(DatabaseError::NotFound),
    }
}

} // verus!
