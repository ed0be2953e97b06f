//! The calls into the `gvas` crate: reading GVAS strings and the GVAS header
//! out of a byte buffer. Each is a trusted item: its
//! contract is believed, not proved, and says what the crate's source shows.

use vstd::prelude::*;
use vstd::utf8::{decode_utf8, valid_utf8};
use crate::bytes::{available, sint_at, uint_at};
use gvas::cursor_ext::ReadExt;
use gvas::GvasHeader;
use std::io::Cursor;

verus! {

/// What `gvas::cursor_ext::ReadExt::read_fstring` reads from `data` when the
/// cursor stands at `pos`: the optional string (absent for a zero length
/// field) and the cursor position after it, or nothing when it fails.
pub uninterp spec fn gvas_fstring(data: Seq<u8>, pos: int) -> Option<(Option<Seq<char>>, int)>;

/// The file tag a GVAS header starts with: the bytes "GVAS" read as a
/// little-endian `u32` (`gvas::FILE_TYPE_GVAS`).
pub const GVAS_FILE_TAG: u32 = 0x5341_5647;

/// What `gvas::GvasHeader::read` does on a cursor at the start of `data`: the
/// cursor position after the header, or the `Debug` text of its error.
pub uninterp spec fn gvas_header(data: Seq<u8>) -> Result<int, Seq<char>>;

/// What the source plainly gives of the GVAS string at `pos`, read as
/// `read_fstring` reads it. The length field is a little-endian `i32`; a
/// missing one, or one beyond 131072 either way, is refused. Zero means no
/// string, four bytes long. A length from 1 to 131072 is followed by that
/// many bytes, the last a zero terminator; the bytes before it must be valid
/// UTF-8 (`String::from_utf8`) and make the string. Anything else is refused.
/// A negative length (a UTF-16 payload) is not stated here: nothing is given.
pub open spec fn utf8_fstring(data: Seq<u8>, pos: int) -> Option<Option<(Option<Seq<char>>, int)>> {
    match sint_at(data, pos, 4) {
        None => Some(None),
        Some(len) => if len < -131072 || len > 131072 {
            Some(None)
        } else if len == 0 {
            Some(Some((None, pos + 4)))
        } else if len < 0 {
            None
        } else if available(data, pos + 4, len) && data[pos + 4 + len - 1] == 0
            && valid_utf8(data.subrange(pos + 4, pos + 4 + len - 1)) {
            Some(Some((Some(decode_utf8(data.subrange(pos + 4, pos + 4 + len - 1))), pos + 4 + len)))
        } else {
            Some(None)
        },
    }
}

/// The GVAS string at `pos` and the position after it, as `read_fstring`
/// reads it: what `utf8_fstring` states where it states it, and otherwise
/// (a UTF-16 payload) what the name `gvas_fstring` stands for.
pub open spec fn fstring_at(data: Seq<u8>, pos: int) -> Option<(Option<Seq<char>>, int)> {
    match utf8_fstring(data, pos) {
        Some(k) => k,
        None => gvas_fstring(data, pos),
    }
}

/// What `read_string` gives of a `read_fstring` outcome: the string, when
/// there is one.
pub open spec fn present_string(k: Option<(Option<Seq<char>>, int)>) -> Option<(Seq<char>, int)> {
    match k {
        Some((Some(s), e)) => Some((s, e)),
        _ => None,
    }
}

/// The view of an optional string.
pub open spec fn opt_string_view(s: Option<String>) -> Option<Seq<char>> {
    match s {
        Some(t) => Some(t@),
        None => None,
    }
}

/// The view of what `read_fstring_at` gives.
pub open spec fn fstring_read_view(r: Option<(Option<String>, u64)>) -> Option<(Option<Seq<char>>, int)> {
    match r {
        Some((s, end)) => Some((opt_string_view(s), end as int)),
        None => None,
    }
}

/// The view of what `read_string_at` gives.
pub open spec fn string_read_view(r: Option<(String, u64)>) -> Option<(Seq<char>, int)> {
    match r {
        Some((s, end)) => Some((s@, end as int)),
        None => None,
    }
}

/// `gvas::cursor_ext::ReadExt::read_fstring` on a `std::io::Cursor` over
/// `data` placed at `pos`.
///
/// Trusted. The result and the cursor position after it are named by
/// `gvas_fstring`. The source reads a little-endian `i32` length first, then
/// only bytes that lie inside `data`; what it gives for every length but a
/// negative one (zero, a UTF-8 payload, a refused length) is stated by
/// `utf8_fstring`. The decoding of UTF-16 payloads is left to the name.
#[verifier::external_body]
pub(crate) fn read_fstring_at(data: &[u8], pos: u64) -> (r: Option<(Option<String>, u64)>)
    ensures
        match r {
            Some((s, end)) => gvas_fstring(data@, pos as int) == Some((opt_string_view(s), end as int)),
            None => gvas_fstring(data@, pos as int) is None,
        },
        r matches Some((_, end)) ==> pos + 4 <= end <= data@.len(),
        r matches Some((None, end)) ==> end == pos + 4,
        utf8_fstring(data@, pos as int) matches Some(k) ==> fstring_read_view(r) == k,
{
    let mut cursor = Cursor::new(data);
    cursor.set_position(pos);
    match ReadExt::read_fstring(&mut cursor) {
        Ok(s) => Some((s, cursor.position())),
        Err(_) => None,
    }
}

/// `gvas::cursor_ext::ReadExt::read_string` on a `std::io::Cursor` over
/// `data` placed at `pos`.
///
/// Trusted. The source of `read_string` calls `read_fstring` and turns its
/// absent string into an error; the contract says so over `gvas_fstring`, with
/// the same facts as `read_fstring_at`.
#[verifier::external_body]
pub(crate) fn read_string_at(data: &[u8], pos: u64) -> (r: Option<(String, u64)>)
    ensures
        match r {
            Some((s, end)) => gvas_fstring(data@, pos as int) == Some((Some(s@), end as int)),
            None => !(gvas_fstring(data@, pos as int) matches Some((Some(_), _))),
        },
        r matches Some((_, end)) ==> pos + 4 <= end <= data@.len(),
        utf8_fstring(data@, pos as int) matches Some(k) ==> string_read_view(r) == present_string(k),
{
    let mut cursor = Cursor::new(data);
    cursor.set_position(pos);
    match ReadExt::read_string(&mut cursor) {
        Ok(s) => Some((s, cursor.position())),
        Err(_) => None,
    }
}

/// `gvas::GvasHeader::read` on a `std::io::Cursor` at the start of `data`.
///
/// Trusted. Gives the cursor position after the header or the `Debug` text
/// of the error, both named by `gvas_header`; the source reads only bytes that
/// lie inside `data`, so the position does not pass its end. It first reads a
/// little-endian `u32` file tag and fails when there is none or when it is not
/// `GVAS_FILE_TAG`. Not stated: the
/// source reserves room for as many custom-version entries as a count field
/// in the data says, so a huge count can exhaust memory.
#[verifier::external_body]
pub(crate) fn read_gvas_header(data: &[u8]) -> (r: Result<u64, String>)
    ensures
        match r {
            Ok(end) => gvas_header(data@) == Ok::<int, Seq<char>>(end as int),
            Err(e) => gvas_header(data@) == Err::<int, Seq<char>>(e@),
        },
        r matches Ok(end) ==> end <= data@.len(),
        !available(data@, 0, 4) ==> r.is_err(),
        uint_at(data@, 0, 4) != Some(GVAS_FILE_TAG as nat) ==> r.is_err(),
{
    let mut cursor = Cursor::new(data);
    match GvasHeader::read(&mut cursor) {
        Ok(_) => Ok(cursor.position()),
        Err(e) => Err(format!("{e:?}")),
    }
}

} // verus!
