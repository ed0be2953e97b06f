//! A permissive reader for the Unreal "tagged property" lists inside decoded
//! save data. Each property list is walked by the byte length that every
//! property declares: simple scalar values are shown directly, structs and
//! struct arrays are walked recursively, and whatever cannot be walked cleanly
//! is reported by name, type and size instead of being guessed at.
//!
//! The listing is a sequence of fragments: text, and the floating-point values
//! (kept as their bit patterns) that the program around the library renders.

use vstd::prelude::*;
use vstd::string::*;
use vstd::slice::slice_subrange;
use crate::bytes::{le2, le4, le8, lemma_numbers_are_little_endian, available, sint_at, uint_at, read_i64, read_u32, read_u64, read_u8, read_i32, read_i16, read_i8};
use crate::gvas_read::{GVAS_FILE_TAG, fstring_at, gvas_header, present_string, read_fstring_at, read_gvas_header, read_string_at};
use crate::text::{byte_hex, decimal, push_byte_hex, push_char, push_decimal, push_signed_decimal, signed_decimal, str_eq};

verus! {

/// How deep struct nesting is followed.
pub const MAX_DEPTH: usize = 12;

/// How many properties one list may hold before the walk gives up on it.
pub const MAX_PROPERTIES: usize = 200000;

/// The end of the note after a walk that stopped early.
pub const STOP_NOTE_TAIL: &'static str = " top-level properties \u{2014} either the end of the readable list was reached, or a property type this tool doesn't know how to skip over yet was hit. Everything above this line is reliable.]\n";

/// A piece of the listing.
#[derive(Debug, PartialEq, Eq)]
pub enum Fragment {
    /// Plain text.
    Text(String),
    /// A `FloatProperty` value, by its bit pattern (shown as Rust displays an `f32`).
    Float32(u32),
    /// A `DoubleProperty` value, by its bit pattern (shown as Rust displays an `f64`).
    Float64(u64),
    /// A `Timespan` in 100 ns ticks (shown as hours with two decimals and whole seconds).
    Timespan(i64),
}

/// What a fragment stands for.
pub enum Piece {
    /// Plain text, as characters.
    Text(Seq<char>),
    /// The bit pattern of a 32-bit float value.
    Float32(u32),
    /// The bit pattern of a 64-bit float value.
    Float64(u64),
    /// A time span in 100 ns ticks.
    Timespan(i64),
}

impl Fragment {
    /// What this fragment stands for.
    pub open spec fn piece(self) -> Piece {
        match self {
            Fragment::Text(s) => Piece::Text(s@),
            Fragment::Float32(b) => Piece::Float32(b),
            Fragment::Float64(b) => Piece::Float64(b),
            Fragment::Timespan(t) => Piece::Timespan(t),
        }
    }
}

/// What a sequence of fragments stands for.
pub open spec fn pieces(v: Seq<Fragment>) -> Seq<Piece> {
    v.map_values(|f: Fragment| f.piece())
}

/// The result of walking a whole save.
pub struct InterpretResult {
    /// The readable listing.
    pub text: Vec<Fragment>,
    /// How many top-level properties were walked.
    pub properties_found: usize,
    /// Whether the walk ended before the list's closing "None" name.
    pub stopped_early: bool,
}

// ---------------------------------------------------------------------------
// What the listing is.

/// `depth` levels of indentation, two spaces each.
pub open spec fn indent_text(depth: nat) -> Seq<char> {
    Seq::new(2 * depth, |i: int| ' ')
}

/// Two spaces for each level of `depth`.
pub fn indent(depth: usize) -> (s: String)
    requires
        depth <= isize::MAX / 2,
    ensures
        s@ == indent_text(depth as nat),
{
    let mut s = String::new();
    let mut k: usize = 0;
    while k < depth
        invariant
            k <= depth <= isize::MAX / 2,
            s@ == indent_text(k as nat),
        decreases depth - k,
    {
        push_char(&mut s, ' ');
        push_char(&mut s, ' ');
        k = k + 1;
        assert(s@ =~= indent_text(k as nat));
    }
    s
}

/// The GVAS string at `pos`, and the position after it.
pub open spec fn string_at(data: Seq<u8>, pos: int) -> Option<(Seq<char>, int)> {
    present_string(fstring_at(data, pos))
}

/// The label that follows a property's length and array index: the struct
/// type (after which a 16-byte GUID is skipped), the inner type of an array or
/// set, the key and value types of a map, or the enum type; nothing for the
/// other types. With the position after it.
pub open spec fn type_header(data: Seq<u8>, pos: int, ptype: Seq<char>) -> Option<(Seq<char>, int)> {
    if ptype == "StructProperty"@ {
        match string_at(data, pos) {
            Some((s, p)) => if available(data, p, 16) { Some((s, p + 16)) } else { None },
            None => None,
        }
    } else if ptype == "ArrayProperty"@ || ptype == "SetProperty"@ {
        string_at(data, pos)
    } else if ptype == "MapProperty"@ {
        match string_at(data, pos) {
            Some((k, p)) => match string_at(data, p) {
                Some((v, q)) => Some((k + " -> "@ + v, q)),
                None => None,
            },
            None => None,
        }
    } else if ptype == "EnumProperty"@ || ptype == "ByteProperty"@ {
        string_at(data, pos)
    } else {
        Some((Seq::empty(), pos))
    }
}

/// A decimal number as a text piece.
pub open spec fn number_text(n: Option<nat>) -> Option<Piece> {
    match n {
        Some(v) => Some(Piece::Text(decimal(v))),
        None => None,
    }
}

/// A signed decimal number as a text piece.
pub open spec fn signed_text(n: Option<int>) -> Option<Piece> {
    match n {
        Some(v) => Some(Piece::Text(signed_decimal(v))),
        None => None,
    }
}

/// The value of a scalar property of type `ptype` at `pos`, when it is one of
/// the scalar types and can be read.
pub open spec fn scalar_piece(data: Seq<u8>, pos: int, ptype: Seq<char>, extra: Seq<char>) -> Option<Piece> {
    if ptype == "IntProperty"@ {
        signed_text(sint_at(data, pos, 4))
    } else if ptype == "UInt32Property"@ {
        number_text(uint_at(data, pos, 4))
    } else if ptype == "Int64Property"@ {
        signed_text(sint_at(data, pos, 8))
    } else if ptype == "UInt64Property"@ {
        number_text(uint_at(data, pos, 8))
    } else if ptype == "Int16Property"@ {
        signed_text(sint_at(data, pos, 2))
    } else if ptype == "Int8Property"@ {
        signed_text(sint_at(data, pos, 1))
    } else if ptype == "FloatProperty"@ {
        match uint_at(data, pos, 4) {
            Some(v) => Some(Piece::Float32(v as u32)),
            None => None,
        }
    } else if ptype == "DoubleProperty"@ {
        match uint_at(data, pos, 8) {
            Some(v) => Some(Piece::Float64(v as u64)),
            None => None,
        }
    } else if ptype == "StrProperty"@ {
        match fstring_at(data, pos) {
            Some((Some(s), _)) => Some(Piece::Text(s)),
            Some((None, _)) => Some(Piece::Text(Seq::empty())),
            None => None,
        }
    } else if ptype == "NameProperty"@ {
        match string_at(data, pos) {
            Some((s, _)) => Some(Piece::Text(s)),
            None => None,
        }
    } else if ptype == "ByteProperty"@ && extra == "None"@ {
        number_text(uint_at(data, pos, 1))
    } else if ptype == "ByteProperty"@ {
        match string_at(data, pos) {
            Some((s, _)) => Some(Piece::Text(s)),
            None => None,
        }
    } else {
        None
    }
}

/// A scalar line: the head, `" = "`, the value (or the declared size when the
/// value cannot be shown), and a line break.
pub open spec fn scalar_line(data: Seq<u8>, pos: int, head: Seq<char>, ptype: Seq<char>, extra: Seq<char>, length: nat) -> Seq<Piece> {
    let value = match scalar_piece(data, pos, ptype, extra) {
        Some(p) => p,
        None => Piece::Text("<"@ + decimal(length) + " bytes>"@),
    };
    seq![Piece::Text(head + " = "@), value, Piece::Text("\n"@)]
}

/// The ticks of a `Timespan` or `DateTime` value, zero when they cannot be read.
pub open spec fn ticks_at(data: Seq<u8>, pos: int) -> int {
    match sint_at(data, pos, 8) {
        Some(t) => t,
        None => 0,
    }
}

/// Seconds since the Unix epoch of a `DateTime` in 100 ns ticks since
/// 0001-01-01: the difference is taken in 64 bits with wrap-around, and divided
/// rounding toward zero.
pub open spec fn unix_seconds(ticks: int) -> int {
    let d = ticks - 621355968000000000;
    let w = if d < -0x8000_0000_0000_0000 { d + 0x1_0000_0000_0000_0000 } else { d };
    if w >= 0 { w / 10000000 } else { -((-w) / 10000000) }
}

/// The upper-case hexadecimal digits of a run of bytes.
pub open spec fn bytes_hex(b: Seq<u8>) -> Seq<char>
    decreases b.len(),
{
    if b.len() == 0 { Seq::empty() } else { bytes_hex(b.drop_last()) + byte_hex(b.last()) }
}

/// How much nesting is left below `depth`.
pub open spec fn depth_budget(depth: nat) -> nat {
    if depth < MAX_DEPTH { (MAX_DEPTH - depth) as nat } else { 0 }
}

/// `true` or `false`.
pub open spec fn bool_text(b: bool) -> Seq<char> {
    if b { "true"@ } else { "false"@ }
}

/// One property whose name (already read) is `name` and whose type name
/// starts at `pos`, listed at `depth`: its lines and the position after it.
pub open spec fn walk_property(data: Seq<u8>, pos: int, name: Seq<char>, depth: nat) -> Option<(Seq<Piece>, int)>
    decreases depth_budget(depth), 1int, 0int,
{
    match string_at(data, pos) {
        None => None,
        Some((ptype, p1)) => {
            if ptype == "BoolProperty"@ {
                match (uint_at(data, p1, 8), uint_at(data, p1 + 8, 1), uint_at(data, p1 + 9, 1)) {
                    (Some(size), Some(v), Some(_)) => if size != 0 {
                        None
                    } else {
                        Some((seq![Piece::Text(indent_text(depth) + name + ": BoolProperty = "@ + bool_text(v != 0) + "\n"@)], p1 + 10))
                    },
                    _ => None,
                }
            } else {
                match (uint_at(data, p1, 4), uint_at(data, p1 + 4, 4)) {
                    (Some(length), Some(array_index)) => match type_header(data, p1 + 8, ptype) {
                        Some((extra, p2)) => if uint_at(data, p2, 1) == Some(0nat) {
                            value_listing(data, p2 + 1, name, depth, ptype, extra, length, array_index)
                        } else {
                            None
                        },
                        None => None,
                    },
                    _ => None,
                }
            }
        },
    }
}

/// The head of a property's line: indentation, name, array index note when
/// the index is not zero, and the type label (with the extra label in angle
/// brackets when there is one).
pub open spec fn property_head(depth: nat, name: Seq<char>, ptype: Seq<char>, extra: Seq<char>, array_index: nat) -> Seq<char> {
    let idx_note = if array_index != 0 { " ["@ + decimal(array_index) + "]"@ } else { Seq::empty() };
    let label = if extra.len() == 0 { ptype } else { ptype + "<"@ + extra + ">"@ };
    indent_text(depth) + name + idx_note + ": "@ + label
}

/// The value of a property whose header has been read; `vs` is where the
/// value starts, `length` its declared size. The walk always resumes right
/// after the declared size.
pub open spec fn value_listing(
    data: Seq<u8>,
    vs: int,
    name: Seq<char>,
    depth: nat,
    ptype: Seq<char>,
    extra: Seq<char>,
    length: nat,
    array_index: nat,
) -> Option<(Seq<Piece>, int)>
    decreases depth_budget(depth), 0int, 0int,
{
    let ind = indent_text(depth);
    let head = property_head(depth, name, ptype, extra, array_index);
    let end = vs + length;
    if ptype == "StructProperty"@ && extra == "Timespan"@ {
        Some((seq![Piece::Text(head + " = "@), Piece::Timespan(ticks_at(data, vs) as i64), Piece::Text("\n"@)], end))
    } else if ptype == "StructProperty"@ && extra == "DateTime"@ {
        Some((seq![Piece::Text(head + " = unix "@ + signed_decimal(unix_seconds(ticks_at(data, vs))) + "\n"@)], end))
    } else if ptype == "StructProperty"@ && extra == "Guid"@ {
        if available(data, vs, 16) {
            Some((seq![Piece::Text(head + " = "@ + bytes_hex(data.subrange(vs, vs + 16)) + "\n"@)], end))
        } else {
            Some((scalar_line(data, end, head, ptype, extra, length), end))
        }
    } else if ptype == "StructProperty"@ {
        let inner = if depth + 1 < MAX_DEPTH { property_list(data, vs, length, depth + 1) } else { None };
        match inner {
            Some(t) => Some((seq![Piece::Text(head + " {\n"@)] + t + seq![Piece::Text(ind + "}\n"@)], end)),
            None => Some((scalar_line(data, end, head, ptype, extra, length), end)),
        }
    } else if ptype == "ArrayProperty"@ && extra == "StructProperty"@ {
        let inner = if depth + 1 < MAX_DEPTH { struct_array(data, vs, length, depth + 1) } else { None };
        match inner {
            Some(t) => Some((seq![Piece::Text(head + " [\n"@)] + t + seq![Piece::Text(ind + "]\n"@)], end)),
            None => Some((scalar_line(data, end, head, ptype, extra, length), end)),
        }
    } else {
        Some((scalar_line(data, vs, head, ptype, extra, length), end))
    }
}

/// The note after a property list about the bytes between its closing "None"
/// and its declared end.
pub open spec fn trailer(end: int, p: int, depth: nat) -> Seq<Piece> {
    if end > p {
        seq![Piece::Text(indent_text(depth) + "[+ "@ + decimal((end - p) as nat) + " more bytes of non-property data]\n"@)]
    } else {
        Seq::empty()
    }
}

/// A nested property list of `length` bytes starting at `start`, listed at
/// `depth`: it must end on a "None" name that lies within its declared end.
pub open spec fn property_list(data: Seq<u8>, start: int, length: nat, depth: nat) -> Option<Seq<Piece>>
    decreases depth_budget(depth), 3int, 0int,
{
    if depth >= MAX_DEPTH {
        None
    } else {
        list_items(data, start, start + length, depth, 0)
    }
}

/// The rest of a nested property list from `pos`, after `count` properties.
pub open spec fn list_items(data: Seq<u8>, pos: int, end: int, depth: nat, count: nat) -> Option<Seq<Piece>>
    decreases depth_budget(depth), 2int, MAX_PROPERTIES + 1 - count,
{
    if pos >= end {
        None
    } else {
        match string_at(data, pos) {
            None => None,
            Some((name, p)) => if name == "None"@ {
                if p <= end { Some(trailer(end, p, depth)) } else { None }
            } else if count + 1 > MAX_PROPERTIES {
                None
            } else {
                match walk_property(data, p, name, depth) {
                    None => None,
                    Some((t, p2)) => match list_items(data, p2, end, depth, count + 1) {
                        Some(rest) => Some(t + rest),
                        None => None,
                    },
                }
            },
        }
    }
}

/// A struct array of `length` bytes at `start`: a 4-byte field, then exactly
/// one self-tagged property that must end on the array's declared end.
pub open spec fn struct_array(data: Seq<u8>, start: int, length: nat, depth: nat) -> Option<Seq<Piece>>
    decreases depth_budget(depth), 3int, 0int,
{
    if depth >= MAX_DEPTH || length < 4 {
        None
    } else {
        match string_at(data, start + 4) {
            None => None,
            Some((name, p)) => if name == "None"@ {
                None
            } else {
                match walk_property(data, p, name, depth) {
                    Some((t, p2)) => if p2 == start + length { Some(t) } else { None },
                    None => None,
                }
            },
        }
    }
}

/// The top-level property list from `pos`, after `count` properties: the
/// listing, the number of properties walked, and whether the walk stopped
/// before the closing "None" name (a name that cannot be read, or a property
/// that cannot be walked).
pub open spec fn top_items(data: Seq<u8>, pos: int, count: nat) -> (Seq<Piece>, nat, bool)
    decreases MAX_PROPERTIES + 1 - count,
{
    match string_at(data, pos) {
        None => (Seq::empty(), count, true),
        Some((name, p)) => if name == "None"@ {
            (Seq::empty(), count, false)
        } else {
            match walk_property(data, p, name, 0) {
                None => (Seq::empty(), count, true),
                Some((t, p2)) => if count + 1 > MAX_PROPERTIES {
                    (t + seq![Piece::Text("\n[stopped after 200000 properties as a safety limit]\n"@)], count + 1, false)
                } else {
                    let rest = top_items(data, p2, count + 1);
                    (t + rest.0, rest.1, rest.2)
                },
            }
        },
    }
}

/// The note at the end of a walk that stopped early.
pub open spec fn stop_note(count: nat) -> Seq<char> {
    "\n[stopped after "@ + decimal(count) + STOP_NOTE_TAIL@
}

/// The data that the walk reads: what follows the first four bytes when the
/// `GVAS` magic stands right after them, else all of it.
pub open spec fn gvas_body(data: Seq<u8>) -> Seq<u8> {
    if data.len() > 8 && data[4] == 71 && data[5] == 86 && data[6] == 65 && data[7] == 83 {
        data.subrange(4, data.len() as int)
    } else {
        data
    }
}

/// The listing of the top-level property list that starts at `pos` (right
/// after the header), the number of properties walked, and whether the walk
/// stopped early (then with a closing note).
pub open spec fn top_level_listing(body: Seq<u8>, pos: int) -> (Seq<Piece>, nat, bool) {
    let r = top_items(body, pos, 0);
    if r.2 {
        (r.0 + seq![Piece::Text(stop_note(r.1))], r.1, true)
    } else {
        r
    }
}

/// The line that says why the header could not be read.
pub open spec fn header_error_piece(e: Seq<char>) -> Piece {
    Piece::Text("Could not read the inner save header: "@ + e + "\n"@)
}

/// The body does not start with the GVAS file tag (or is shorter than it), so
/// its header cannot be read.
pub open spec fn header_tag_missing(body: Seq<u8>) -> bool {
    uint_at(body, 0, 4) != Some(GVAS_FILE_TAG as nat)
}

/// The listing of a whole save, the number of top-level properties walked, and
/// whether the walk stopped early.
pub open spec fn interpretation(data: Seq<u8>) -> (Seq<Piece>, nat, bool) {
    let body = gvas_body(data);
    match gvas_header(body) {
        Err(e) => (seq![header_error_piece(e)], 0, true),
        Ok(p) => top_level_listing(body, p),
    }
}

// ---------------------------------------------------------------------------
// Walking.

/// Reads the GVAS string at `pos`.
fn read_gvas_string(data: &[u8], pos: u64) -> (r: Option<(String, u64)>)
    ensures
        match r {
            Some((s, e)) => string_at(data@, pos as int) == Some((s@, e as int)),
            None => string_at(data@, pos as int) is None,
        },
        r matches Some((_, e)) ==> pos + 4 <= e <= data@.len(),
{
    read_string_at(data, pos)
}

/// Reads a property's type-specific header fields at `pos` (after its length
/// and array index, before its terminator byte), for a property of type
/// `ptype`. Gives the label to show (struct type, inner type, key and value
/// types, enum type; empty for the other types) and the position after the
/// fields.
pub fn read_type_specific_header(data: &[u8], pos: u64, ptype: &str) -> (r: Option<(String, u64)>)
    ensures
        match r {
            Some((s, e)) => type_header(data@, pos as int, ptype@) == Some((s@, e as int)),
            None => type_header(data@, pos as int, ptype@) is None,
        },
        r matches Some((_, e)) ==> e == pos || e <= data@.len(),
{
    if str_eq(ptype, "StructProperty") {
        let (struct_type, p) = match read_gvas_string(data, pos) {
            Some(x) => x,
            None => return None,
        };
        let len = data.len() as u64;
        if p > len || len - p < 16 {
            return None;
        }
        Some((struct_type, p + 16))
    } else if str_eq(ptype, "ArrayProperty") || str_eq(ptype, "SetProperty") {
        read_gvas_string(data, pos)
    } else if str_eq(ptype, "MapProperty") {
        let (key_type, p) = match read_gvas_string(data, pos) {
            Some(x) => x,
            None => return None,
        };
        let (value_type, q) = match read_gvas_string(data, p) {
            Some(x) => x,
            None => return None,
        };
        let mut label = key_type;
        label.append(" -> ");
        label.append(value_type.as_str());
        Some((label, q))
    } else if str_eq(ptype, "EnumProperty") || str_eq(ptype, "ByteProperty") {
        read_gvas_string(data, pos)
    } else {
        Some((String::new(), pos))
    }
}

/// A number as a text fragment.
fn number_fragment(v: u64) -> (f: Fragment)
    ensures
        f.piece() == Piece::Text(decimal(v as nat)),
{
    let mut s = String::new();
    push_decimal(&mut s, v);
    Fragment::Text(s)
}

/// A signed number as a text fragment.
fn signed_fragment(v: i64) -> (f: Fragment)
    ensures
        f.piece() == Piece::Text(signed_decimal(v as int)),
{
    let mut s = String::new();
    push_signed_decimal(&mut s, v);
    Fragment::Text(s)
}

/// The value of a scalar property of type `ptype` at `pos`, when `ptype` is a
/// scalar type and the value can be read.
fn describe_scalar(data: &[u8], pos: u64, ptype: &str, extra: &str) -> (r: Option<Fragment>)
    ensures
        match r {
            Some(f) => scalar_piece(data@, pos as int, ptype@, extra@) == Some(f.piece()),
            None => scalar_piece(data@, pos as int, ptype@, extra@) is None,
        },
{
    if str_eq(ptype, "IntProperty") {
        match read_i32(data, pos) { Some(v) => Some(signed_fragment(v as i64)), None => None }
    } else if str_eq(ptype, "UInt32Property") {
        match read_u32(data, pos) { Some(v) => Some(number_fragment(v as u64)), None => None }
    } else if str_eq(ptype, "Int64Property") {
        match read_i64(data, pos) { Some(v) => Some(signed_fragment(v)), None => None }
    } else if str_eq(ptype, "UInt64Property") {
        match read_u64(data, pos) { Some(v) => Some(number_fragment(v)), None => None }
    } else if str_eq(ptype, "Int16Property") {
        match read_i16(data, pos) { Some(v) => Some(signed_fragment(v as i64)), None => None }
    } else if str_eq(ptype, "Int8Property") {
        match read_i8(data, pos) { Some(v) => Some(signed_fragment(v as i64)), None => None }
    } else if str_eq(ptype, "FloatProperty") {
        match read_u32(data, pos) { Some(v) => Some(Fragment::Float32(v)), None => None }
    } else if str_eq(ptype, "DoubleProperty") {
        match read_u64(data, pos) { Some(v) => Some(Fragment::Float64(v)), None => None }
    } else if str_eq(ptype, "StrProperty") {
        match read_fstring_at(data, pos) {
            Some((Some(s), _)) => Some(Fragment::Text(s)),
            Some((None, _)) => Some(Fragment::Text(String::new())),
            None => None,
        }
    } else if str_eq(ptype, "NameProperty") {
        match read_gvas_string(data, pos) { Some((s, _)) => Some(Fragment::Text(s)), None => None }
    } else if str_eq(ptype, "ByteProperty") && str_eq(extra, "None") {
        match read_u8(data, pos) { Some(v) => Some(number_fragment(v as u64)), None => None }
    } else if str_eq(ptype, "ByteProperty") {
        match read_gvas_string(data, pos) { Some((s, _)) => Some(Fragment::Text(s)), None => None }
    } else {
        None
    }
}

/// A text fragment holding `s`.
fn text_fragment(s: &str) -> (f: Fragment)
    ensures
        f.piece() == Piece::Text(s@),
{
    let mut t = String::new();
    t.append(s);
    Fragment::Text(t)
}

proof fn lemma_pieces_push(v: Seq<Fragment>, f: Fragment)
    ensures
        pieces(v.push(f)) == pieces(v).push(f.piece()),
{
    assert(pieces(v.push(f)) =~= pieces(v).push(f.piece()));
}

proof fn lemma_pieces_concat(a: Seq<Fragment>, b: Seq<Fragment>)
    ensures
        pieces(a + b) == pieces(a) + pieces(b),
{
    assert(pieces(a + b) =~= pieces(a) + pieces(b));
}

/// The head of a property's line (see `property_head`).
fn head_text(ind: &str, name: &str, ptype: &str, extra: &str, array_index: u32, depth: Ghost<nat>) -> (s: String)
    requires
        ind@ == indent_text(depth@),
    ensures
        s@ == property_head(depth@, name@, ptype@, extra@, array_index as nat),
{
    let mut s = String::new();
    s.append(ind);
    s.append(name);
    let ghost base = s@;
    if array_index != 0 {
        s.append(" [");
        push_decimal(&mut s, array_index as u64);
        s.append("]");
    }
    s.append(": ");
    s.append(ptype);
    if extra.unicode_len() != 0 {
        s.append("<");
        s.append(extra);
        s.append(">");
    }
    proof {
        let idx_note = if array_index != 0 { " ["@ + decimal(array_index as nat) + "]"@ } else { Seq::<char>::empty() };
        let label = if extra@.len() == 0 { ptype@ } else { ptype@ + "<"@ + extra@ + ">"@ };
        assert(s@ =~= indent_text(depth@) + name@ + idx_note + ": "@ + label);
    }
    s
}

/// The scalar line of a property (see `scalar_line`).
fn scalar_line_fragments(data: &[u8], pos: u64, head: &str, ptype: &str, extra: &str, length: u32) -> (v: Vec<Fragment>)
    ensures
        pieces(v@) == scalar_line(data@, pos as int, head@, ptype@, extra@, length as nat),
{
    let mut first = String::new();
    first.append(head);
    first.append(" = ");
    let value = match describe_scalar(data, pos, ptype, extra) {
        Some(f) => f,
        None => {
            let mut t = String::new();
            t.append("<");
            push_decimal(&mut t, length as u64);
            t.append(" bytes>");
            Fragment::Text(t)
        },
    };
    let mut v: Vec<Fragment> = Vec::new();
    v.push(Fragment::Text(first));
    v.push(value);
    v.push(text_fragment("\n"));
    proof {
        assert(pieces(v@) =~= scalar_line(data@, pos as int, head@, ptype@, extra@, length as nat));
    }
    v
}

/// Seconds since the Unix epoch of a `DateTime` given in ticks.
fn unix_seconds_of(ticks: i64) -> (s: i64)
    ensures
        s as int == unix_seconds(ticks as int),
{
    let d: i128 = ticks as i128 - 621355968000000000i128;
    let w: i128 = if d < -0x8000_0000_0000_0000i128 { d + 0x1_0000_0000_0000_0000i128 } else { d };
    let q: i128 = if w >= 0 { w / 10000000 } else { -((-w) / 10000000) };
    q as i64
}

/// Appends the hexadecimal digits of the 16 bytes at `pos`.
fn push_guid_hex(out: &mut String, data: &[u8], pos: u64)
    requires
        available(data@, pos as int, 16),
    ensures
        final(out)@ == old(out)@ + bytes_hex(data@.subrange(pos as int, pos + 16)),
{
    let ghost start = out@;
    let mut i: u64 = 0;
    proof {
        assert(data@.subrange(pos as int, pos as int) =~= Seq::<u8>::empty());
        assert(out@ =~= start + bytes_hex(data@.subrange(pos as int, pos as int)));
    }
    while i < 16
        invariant
            i <= 16,
            available(data@, pos as int, 16),
            data@.len() == data.len(),
            out@ == start + bytes_hex(data@.subrange(pos as int, pos + i)),
        decreases 16 - i,
    {
        push_byte_hex(out, data[(pos + i) as usize]);
        proof {
            let s = data@.subrange(pos as int, pos + i + 1);
            assert(s.drop_last() =~= data@.subrange(pos as int, pos + i));
        }
        i = i + 1;
    }
}

/// Walks one property whose name has been read; `pos` is where its type name
/// starts. Gives its lines and the position after it.
fn walk_one_property(data: &[u8], pos: u64, name: &str, depth: usize) -> (r: Option<(Vec<Fragment>, u64)>)
    requires
        depth < MAX_DEPTH,
        data@.len() <= isize::MAX,
    ensures
        match r {
            Some((v, p)) => walk_property(data@, pos as int, name@, depth as nat) == Some((pieces(v@), p as int)),
            None => walk_property(data@, pos as int, name@, depth as nat) is None,
        },
        r matches Some((_, p)) ==> p <= data@.len() + 0xFFFF_FFFF,
    decreases MAX_DEPTH - depth, 1int,
{
    let (ptype, p1) = match read_gvas_string(data, pos) {
        Some(x) => x,
        None => return None,
    };
    let ind = indent(depth);
    if str_eq(ptype.as_str(), "BoolProperty") {
        let size = match read_u64(data, p1) {
            Some(v) => v,
            None => return None,
        };
        if size != 0 {
            return None;
        }
        let value = match read_u8(data, p1 + 8) {
            Some(v) => v,
            None => return None,
        };
        match read_u8(data, p1 + 9) {
            Some(_) => {},
            None => return None,
        }
        let mut line = String::new();
        line.append(ind.as_str());
        line.append(name);
        line.append(": BoolProperty = ");
        if value != 0 {
            line.append("true");
        } else {
            line.append("false");
        }
        line.append("\n");
        let mut out: Vec<Fragment> = Vec::new();
        out.push(Fragment::Text(line));
        proof {
            assert(line@ =~= indent_text(depth as nat) + name@ + ": BoolProperty = "@ + bool_text(value != 0) + "\n"@);
            assert(pieces(out@) =~= seq![Piece::Text(line@)]);
        }
        return Some((out, p1 + 10));
    }
    let length = match read_u32(data, p1) {
        Some(v) => v,
        None => return None,
    };
    let array_index = match read_u32(data, p1 + 4) {
        Some(v) => v,
        None => return None,
    };
    let (extra, p2) = match read_type_specific_header(data, p1 + 8, ptype.as_str()) {
        Some(x) => x,
        None => return None,
    };
    let terminator = match read_u8(data, p2) {
        Some(v) => v,
        None => return None,
    };
    if terminator != 0 {
        return None;
    }
    let (v, p) = walk_value(data, p2 + 1, name, depth, ptype.as_str(), extra.as_str(), length, array_index);
    Some((v, p))
}

/// Walks the value of a property whose header has been read; `vs` is where
/// the value starts.
fn walk_value(
    data: &[u8],
    vs: u64,
    name: &str,
    depth: usize,
    ptype: &str,
    extra: &str,
    length: u32,
    array_index: u32,
) -> (r: (Vec<Fragment>, u64))
    requires
        depth < MAX_DEPTH,
        data@.len() <= isize::MAX,
        vs <= data@.len(),
    ensures
        value_listing(data@, vs as int, name@, depth as nat, ptype@, extra@, length as nat, array_index as nat)
            == Some((pieces(r.0@), r.1 as int)),
        r.1 <= data@.len() + 0xFFFF_FFFF,
    decreases MAX_DEPTH - depth, 0int,
{
    let ind = indent(depth);
    let head = head_text(ind.as_str(), name, ptype, extra, array_index, Ghost(depth as nat));
    let end = vs + length as u64;
    let mut out: Vec<Fragment> = Vec::new();
    if str_eq(ptype, "StructProperty") && str_eq(extra, "Timespan") {
        let ticks = match read_i64(data, vs) {
            Some(t) => t,
            None => 0,
        };
        let mut first = head;
        first.append(" = ");
        out.push(Fragment::Text(first));
        out.push(Fragment::Timespan(ticks));
        out.push(text_fragment("\n"));
        proof {
            assert(pieces(out@) =~= seq![Piece::Text(first@), Piece::Timespan(ticks_at(data@, vs as int) as i64), Piece::Text("\n"@)]);
        }
        (out, end)
    } else if str_eq(ptype, "StructProperty") && str_eq(extra, "DateTime") {
        let ticks = match read_i64(data, vs) {
            Some(t) => t,
            None => 0,
        };
        let mut line = head;
        line.append(" = unix ");
        push_signed_decimal(&mut line, unix_seconds_of(ticks));
        line.append("\n");
        out.push(Fragment::Text(line));
        proof {
            assert(pieces(out@) =~= seq![Piece::Text(line@)]);
        }
        (out, end)
    } else if str_eq(ptype, "StructProperty") && str_eq(extra, "Guid") {
        let len = data.len() as u64;
        if vs <= len && len - vs >= 16 {
            let mut line = head;
            line.append(" = ");
            push_guid_hex(&mut line, data, vs);
            line.append("\n");
            out.push(Fragment::Text(line));
            proof {
                assert(pieces(out@) =~= seq![Piece::Text(line@)]);
            }
            (out, end)
        } else {
            (scalar_line_fragments(data, end, head.as_str(), ptype, extra, length), end)
        }
    } else if str_eq(ptype, "StructProperty") {
        match try_walk_as_property_list(data, vs, length, depth + 1) {
            Some(mut inner) => {
                let mut open = head;
                open.append(" {\n");
                let mut close = ind;
                close.append("}\n");
                let ghost inner_view = inner@;
                out.push(Fragment::Text(open));
                out.append(&mut inner);
                out.push(Fragment::Text(close));
                proof {
                    assert(pieces(out@) =~= seq![Piece::Text(open@)] + pieces(inner_view) + seq![Piece::Text(close@)]);
                }
                (out, end)
            },
            None => (scalar_line_fragments(data, end, head.as_str(), ptype, extra, length), end),
        }
    } else if str_eq(ptype, "ArrayProperty") && str_eq(extra, "StructProperty") {
        match try_walk_struct_array(data, vs, length, depth + 1) {
            Some(mut inner) => {
                let mut open = head;
                open.append(" [\n");
                let mut close = ind;
                close.append("]\n");
                let ghost inner_view = inner@;
                out.push(Fragment::Text(open));
                out.append(&mut inner);
                out.push(Fragment::Text(close));
                proof {
                    assert(pieces(out@) =~= seq![Piece::Text(open@)] + pieces(inner_view) + seq![Piece::Text(close@)]);
                }
                (out, end)
            },
            None => (scalar_line_fragments(data, end, head.as_str(), ptype, extra, length), end),
        }
    } else {
        (scalar_line_fragments(data, vs, head.as_str(), ptype, extra, length), end)
    }
}

/// What `inner` becomes with `pre` in front, when it is there.
pub open spec fn prefixed(pre: Seq<Piece>, inner: Option<Seq<Piece>>) -> Option<Seq<Piece>> {
    match inner {
        Some(t) => Some(pre + t),
        None => None,
    }
}

/// Walks a nested property list of `length` bytes at `start` (a struct's own
/// fields, closed by a "None" name), listed at `depth`. Gives nothing when the
/// list does not walk cleanly: it, or its closing name, runs past its declared
/// end, a property fails, nesting is too deep, or it holds too many properties.
fn try_walk_as_property_list(data: &[u8], start: u64, length: u32, depth: usize) -> (r: Option<Vec<Fragment>>)
    requires
        data@.len() <= isize::MAX,
        start <= data@.len(),
    ensures
        match r {
            Some(v) => property_list(data@, start as int, length as nat, depth as nat) == Some(pieces(v@)),
            None => property_list(data@, start as int, length as nat, depth as nat) is None,
        },
    decreases MAX_DEPTH - depth, 2int,
{
    if depth >= MAX_DEPTH {
        return None;
    }
    let end = start + length as u64;
    let mut local: Vec<Fragment> = Vec::new();
    let mut local_count: usize = 0;
    let mut pos = start;
    loop
        invariant
            depth < MAX_DEPTH,
            data@.len() <= isize::MAX,
            start <= data@.len(),
            end == start + length,
            pos <= data@.len() + 0xFFFF_FFFF,
            local_count <= MAX_PROPERTIES,
            property_list(data@, start as int, length as nat, depth as nat)
                == prefixed(pieces(local@), list_items(data@, pos as int, end as int, depth as nat, local_count as nat)),
        decreases MAX_PROPERTIES - local_count,
    {
        if pos >= end {
            return None;
        }
        let (name, p) = match read_gvas_string(data, pos) {
            Some(x) => x,
            None => return None,
        };
        if str_eq(name.as_str(), "None") {
            if p > end {
                return None;
            }
            if end > p {
                let mut line = indent(depth);
                line.append("[+ ");
                push_decimal(&mut line, end - p);
                line.append(" more bytes of non-property data]\n");
                let ghost before = local@;
                local.push(Fragment::Text(line));
                proof {
                    lemma_pieces_push(before, Fragment::Text(line));
                    assert(trailer(end as int, p as int, depth as nat) =~= seq![Piece::Text(line@)]);
                }
            } else {
                proof {
                    assert(pieces(local@) + trailer(end as int, p as int, depth as nat) =~= pieces(local@));
                }
            }
            return Some(local);
        }
        if local_count + 1 > MAX_PROPERTIES {
            return None;
        }
        local_count = local_count + 1;
        let (mut t, p2) = match walk_one_property(data, p, name.as_str(), depth) {
            Some(x) => x,
            None => return None,
        };
        let ghost before = local@;
        let ghost tv = t@;
        local.append(&mut t);
        proof {
            lemma_pieces_concat(before, tv);
            assert(pieces(before) + pieces(tv) + pieces(tv).skip(pieces(tv).len() as int) =~= pieces(before) + pieces(tv));
        }
        pos = p2;
    }
}

/// Walks a struct array of `length` bytes at `start`: a leading 4-byte field,
/// then exactly one self-tagged struct property that must end exactly on the
/// array's declared end. Gives nothing when that does not hold.
fn try_walk_struct_array(data: &[u8], start: u64, length: u32, depth: usize) -> (r: Option<Vec<Fragment>>)
    requires
        data@.len() <= isize::MAX,
        start <= data@.len(),
    ensures
        match r {
            Some(v) => struct_array(data@, start as int, length as nat, depth as nat) == Some(pieces(v@)),
            None => struct_array(data@, start as int, length as nat, depth as nat) is None,
        },
    decreases MAX_DEPTH - depth, 2int,
{
    if depth >= MAX_DEPTH || length < 4 {
        return None;
    }
    let end = start + length as u64;
    let (name, p) = match read_gvas_string(data, start + 4) {
        Some(x) => x,
        None => return None,
    };
    if str_eq(name.as_str(), "None") {
        return None;
    }
    let (t, p2) = match walk_one_property(data, p, name.as_str(), depth) {
        Some(x) => x,
        None => return None,
    };
    if p2 != end {
        return None;
    }
    Some(t)
}

/// Walks the top-level Unreal property list inside `data` (which starts with,
/// or four bytes before, the `GVAS` magic) and produces a readable, indented
/// listing. Structs and struct arrays are expanded recursively wherever their
/// byte-length bookkeeping checks out; anything else is reported by name, type
/// and size instead of being guessed at.
pub fn interpret(data: &[u8]) -> (r: InterpretResult)
    requires
        data@.len() <= isize::MAX,
    ensures
        (pieces(r.text@), r.properties_found as nat, r.stopped_early) == interpretation(data@),
        header_tag_missing(gvas_body(data@)) ==> {
            &&& r.properties_found == 0
            &&& r.stopped_early
            &&& exists|e: Seq<char>| pieces(r.text@) == seq![header_error_piece(e)]
        },
{
    let body: &[u8] = if data.len() > 8 && data[4] == 71 && data[5] == 86 && data[6] == 65 && data[7] == 83 {
        slice_subrange(data, 4, data.len())
    } else {
        data
    };
    assert(body@ == gvas_body(data@));
    match read_gvas_header(body) {
        Ok(header_end) => walk_top_level(body, header_end),
        Err(e) => {
            let mut line = String::new();
            line.append("Could not read the inner save header: ");
            line.append(e.as_str());
            line.append("\n");
            let mut text: Vec<Fragment> = Vec::new();
            text.push(Fragment::Text(line));
            proof {
                assert(pieces(text@) =~= seq![Piece::Text(line@)]);
                assert(line@ == "Could not read the inner save header: "@ + e@ + "\n"@);
                assert(pieces(text@) == seq![header_error_piece(e@)]);
            }
            InterpretResult { text, properties_found: 0, stopped_early: true }
        },
    }
}

/// Walks the top-level property list of `body` that starts at `header_end`,
/// right after the GVAS header: every property until the closing "None" name,
/// stopping early (with a note saying so) where a name cannot be read or a
/// property cannot be walked, and after one property past the safety limit.
pub fn walk_top_level(body: &[u8], header_end: u64) -> (r: InterpretResult)
    requires
        body@.len() <= isize::MAX,
    ensures
        (pieces(r.text@), r.properties_found as nat, r.stopped_early) == top_level_listing(body@, header_end as int),
{
    let mut text: Vec<Fragment> = Vec::new();
    let mut pos = header_end;
    let mut properties_found: usize = 0;
    let mut stopped_early = false;
    loop
        invariant_except_break
            properties_found <= MAX_PROPERTIES,
            !stopped_early,
            top_items(body@, header_end as int, 0) == ({
                let rest = top_items(body@, pos as int, properties_found as nat);
                (pieces(text@) + rest.0, rest.1, rest.2)
            }),
        invariant
            body@.len() <= isize::MAX,
        ensures
            top_items(body@, header_end as int, 0) == (pieces(text@), properties_found as nat, stopped_early),
        decreases MAX_PROPERTIES - properties_found,
    {
        let (name, p) = match read_gvas_string(body, pos) {
            Some(x) => x,
            None => {
                stopped_early = true;
                proof {
                    assert(pieces(text@) + Seq::<Piece>::empty() =~= pieces(text@));
                }
                break;
            },
        };
        if str_eq(name.as_str(), "None") {
            proof {
                assert(pieces(text@) + Seq::<Piece>::empty() =~= pieces(text@));
            }
            break;
        }
        match walk_one_property(body, p, name.as_str(), 0) {
            Some((mut t, p2)) => {
                let ghost before = text@;
                let ghost tv = t@;
                properties_found = properties_found + 1;
                text.append(&mut t);
                pos = p2;
                proof {
                    lemma_pieces_concat(before, tv);
                }
            },
            None => {
                stopped_early = true;
                proof {
                    assert(pieces(text@) + Seq::<Piece>::empty() =~= pieces(text@));
                }
                break;
            },
        }
        if properties_found > MAX_PROPERTIES {
            let ghost before = text@;
            text.push(text_fragment("\n[stopped after 200000 properties as a safety limit]\n"));
            proof {
                lemma_pieces_push(before, text@.last());
                assert(pieces(text@) =~= pieces(before) + seq![Piece::Text("\n[stopped after 200000 properties as a safety limit]\n"@)]);
            }
            break;
        }
    }
    if stopped_early {
        let mut line = String::new();
        line.append("\n[stopped after ");
        push_decimal(&mut line, properties_found as u64);
        line.append(STOP_NOTE_TAIL);
        let ghost before = text@;
        text.push(Fragment::Text(line));
        proof {
            lemma_pieces_push(before, Fragment::Text(line));
            assert(line@ =~= stop_note(properties_found as nat));
        }
    }
    InterpretResult { text, properties_found, stopped_early }
}

/// Every value whose header reads cleanly is listed, however its content
/// turns out, and the walk always resumes right after the value's declared
/// size: a failed or partial look inside a value can never desync the rest of
/// the walk.
pub proof fn lemma_value_resumes_after_declared_size(
    data: Seq<u8>,
    vs: int,
    name: Seq<char>,
    depth: nat,
    ptype: Seq<char>,
    extra: Seq<char>,
    length: nat,
    array_index: nat,
)
    ensures
        value_listing(data, vs, name, depth, ptype, extra, length, array_index) matches Some((_, p)) && p == vs + length,
{
}

/// A property that walks cleanly ends where its bytes say: a BoolProperty
/// ten bytes after its type name (its zero size field, value byte and
/// terminator); any other property right after its declared value length,
/// counted from the end of its type-specific header and terminator byte,
/// whether its value was decoded, walked into or only shown by size.
pub proof fn lemma_property_ends_where_declared(data: Seq<u8>, pos: int, name: Seq<char>, depth: nat)
    requires
        walk_property(data, pos, name, depth).is_some(),
    ensures
        string_at(data, pos).is_some(),
        ({
            let (ptype, p1) = string_at(data, pos).unwrap();
            let q = walk_property(data, pos, name, depth).unwrap().1;
            if ptype == "BoolProperty"@ {
                q == p1 + 10
            } else {
                &&& uint_at(data, p1, 4).is_some()
                &&& type_header(data, p1 + 8, ptype).is_some()
                &&& q == type_header(data, p1 + 8, ptype).unwrap().1 + 1 + uint_at(data, p1, 4).unwrap()
            }
        }),
{
    let (ptype, p1) = string_at(data, pos).unwrap();
    if ptype != "BoolProperty"@ {
        let length = uint_at(data, p1, 4).unwrap();
        let array_index = uint_at(data, p1 + 4, 4).unwrap();
        let (extra, p2) = type_header(data, p1 + 8, ptype).unwrap();
        lemma_value_resumes_after_declared_size(data, p2 + 1, name, depth, ptype, extra, length, array_index);
    }
}

/// The value of a property is listed as the line `head = text`, and the walk
/// goes on after the value's declared length.
pub open spec fn listed_as(
    data: Seq<u8>,
    vs: int,
    name: Seq<char>,
    depth: nat,
    ptype: Seq<char>,
    extra: Seq<char>,
    length: nat,
    array_index: nat,
    text: Seq<char>,
) -> bool {
    value_listing(data, vs, name, depth, ptype, extra, length, array_index) == Some((
        seq![
            Piece::Text(property_head(depth, name, ptype, extra, array_index) + " = "@),
            Piece::Text(text),
            Piece::Text("\n"@),
        ],
        vs + length,
    ))
}

/// A number property is listed with the number its value bytes hold, read
/// little-endian (first byte lowest) from the value's start: four bytes for
/// `IntProperty` (signed) and `UInt32Property`, eight for `Int64Property`
/// (signed) and `UInt64Property`, two for `Int16Property` (signed), one for
/// `Int8Property` (signed) and for a `ByteProperty` of enum type "None". A
/// signed number whose last byte has its top bit set is negative: 2 to the
/// power of its bit width less than the unsigned reading. So the bytes
/// E8 03 00 00 of an `IntProperty` list as 1000, and FF FF FF FF as -1.
pub proof fn lemma_number_values_listed(
    data: Seq<u8>,
    vs: int,
    name: Seq<char>,
    depth: nat,
    extra: Seq<char>,
    length: nat,
    array_index: nat,
)
    ensures
        available(data, vs, 4) ==> listed_as(data, vs, name, depth, "IntProperty"@, extra, length, array_index,
            signed_decimal(le4(data, vs) - (if data[vs + 3] >= 128 { 0x1_0000_0000int } else { 0 }))),
        available(data, vs, 4) ==> listed_as(data, vs, name, depth, "UInt32Property"@, extra, length, array_index,
            decimal(le4(data, vs) as nat)),
        available(data, vs, 8) ==> listed_as(data, vs, name, depth, "Int64Property"@, extra, length, array_index,
            signed_decimal(le8(data, vs) - (if data[vs + 7] >= 128 { 0x1_0000_0000_0000_0000int } else { 0 }))),
        available(data, vs, 8) ==> listed_as(data, vs, name, depth, "UInt64Property"@, extra, length, array_index,
            decimal(le8(data, vs) as nat)),
        available(data, vs, 2) ==> listed_as(data, vs, name, depth, "Int16Property"@, extra, length, array_index,
            signed_decimal(le2(data, vs) - (if data[vs + 1] >= 128 { 0x1_0000int } else { 0 }))),
        available(data, vs, 1) ==> listed_as(data, vs, name, depth, "Int8Property"@, extra, length, array_index,
            signed_decimal(data[vs] - (if data[vs] >= 128 { 0x100int } else { 0 }))),
        available(data, vs, 1) ==> listed_as(data, vs, name, depth, "ByteProperty"@, "None"@, length, array_index,
            decimal(data[vs] as nat)),
{
    lemma_numbers_are_little_endian(data, vs);
    if available(data, vs, 4) {
        lemma_int_listed(data, vs, name, depth, extra, length, array_index);
        lemma_uint32_listed(data, vs, name, depth, extra, length, array_index);
    }
    if available(data, vs, 8) {
        lemma_int64_listed(data, vs, name, depth, extra, length, array_index);
        lemma_uint64_listed(data, vs, name, depth, extra, length, array_index);
    }
    if available(data, vs, 2) {
        lemma_int16_listed(data, vs, name, depth, extra, length, array_index);
    }
    if available(data, vs, 1) {
        lemma_int8_listed(data, vs, name, depth, extra, length, array_index);
        lemma_byte_listed(data, vs, name, depth, length, array_index);
    }
}

/// A property of a type other than a struct or an array is listed with its
/// scalar line at the value's start.
proof fn lemma_scalar_listing(
    data: Seq<u8>,
    vs: int,
    name: Seq<char>,
    depth: nat,
    ptype: Seq<char>,
    extra: Seq<char>,
    length: nat,
    array_index: nat,
)
    requires
        ptype.len() > 1,
        ptype[1] != 't' && ptype[1] != 'r',
    ensures
        value_listing(data, vs, name, depth, ptype, extra, length, array_index) == Some((
            scalar_line(data, vs, property_head(depth, name, ptype, extra, array_index), ptype, extra, length),
            vs + length,
        )),
{
    reveal_strlit("StructProperty");
    reveal_strlit("ArrayProperty");
    assert(ptype != "StructProperty"@ && ptype != "ArrayProperty"@);
}

proof fn lemma_int_listed(data: Seq<u8>, vs: int, name: Seq<char>, depth: nat, extra: Seq<char>, length: nat, array_index: nat)
    requires
        available(data, vs, 4),
        sint_at(data, vs, 4) == Some(le4(data, vs) - (if data[vs + 3] >= 128 { 0x1_0000_0000int } else { 0 })),
    ensures
        listed_as(data, vs, name, depth, "IntProperty"@, extra, length, array_index,
            signed_decimal(le4(data, vs) - (if data[vs + 3] >= 128 { 0x1_0000_0000int } else { 0 }))),
{
    reveal_strlit("IntProperty");
    lemma_scalar_listing(data, vs, name, depth, "IntProperty"@, extra, length, array_index);
}

proof fn lemma_uint32_listed(data: Seq<u8>, vs: int, name: Seq<char>, depth: nat, extra: Seq<char>, length: nat, array_index: nat)
    requires
        available(data, vs, 4),
        uint_at(data, vs, 4) == Some(le4(data, vs) as nat),
    ensures
        listed_as(data, vs, name, depth, "UInt32Property"@, extra, length, array_index, decimal(le4(data, vs) as nat)),
{
    reveal_strlit("UInt32Property");
    reveal_strlit("IntProperty");
    assert("UInt32Property"@ != "IntProperty"@) by { assert("UInt32Property"@[1] != "IntProperty"@[1]); }
    lemma_scalar_listing(data, vs, name, depth, "UInt32Property"@, extra, length, array_index);
}

proof fn lemma_int64_listed(data: Seq<u8>, vs: int, name: Seq<char>, depth: nat, extra: Seq<char>, length: nat, array_index: nat)
    requires
        available(data, vs, 8),
        sint_at(data, vs, 8) == Some(le8(data, vs) - (if data[vs + 7] >= 128 { 0x1_0000_0000_0000_0000int } else { 0 })),
    ensures
        listed_as(data, vs, name, depth, "Int64Property"@, extra, length, array_index,
            signed_decimal(le8(data, vs) - (if data[vs + 7] >= 128 { 0x1_0000_0000_0000_0000int } else { 0 }))),
{
    reveal_strlit("Int64Property");
    reveal_strlit("IntProperty");
    reveal_strlit("UInt32Property");
    assert("Int64Property"@ != "IntProperty"@) by { assert("Int64Property"@[3] != "IntProperty"@[3]); }
    assert("Int64Property"@ != "UInt32Property"@) by { assert("Int64Property"@[1] != "UInt32Property"@[1]); }
    lemma_scalar_listing(data, vs, name, depth, "Int64Property"@, extra, length, array_index);
}

proof fn lemma_uint64_listed(data: Seq<u8>, vs: int, name: Seq<char>, depth: nat, extra: Seq<char>, length: nat, array_index: nat)
    requires
        available(data, vs, 8),
        uint_at(data, vs, 8) == Some(le8(data, vs) as nat),
    ensures
        listed_as(data, vs, name, depth, "UInt64Property"@, extra, length, array_index, decimal(le8(data, vs) as nat)),
{
    reveal_strlit("UInt64Property");
    reveal_strlit("IntProperty");
    reveal_strlit("UInt32Property");
    reveal_strlit("Int64Property");
    assert("UInt64Property"@ != "IntProperty"@) by { assert("UInt64Property"@[1] != "IntProperty"@[1]); }
    assert("UInt64Property"@ != "UInt32Property"@) by { assert("UInt64Property"@[4] != "UInt32Property"@[4]); }
    assert("UInt64Property"@ != "Int64Property"@) by { assert("UInt64Property"@[1] != "Int64Property"@[1]); }
    lemma_scalar_listing(data, vs, name, depth, "UInt64Property"@, extra, length, array_index);
}

proof fn lemma_int16_listed(data: Seq<u8>, vs: int, name: Seq<char>, depth: nat, extra: Seq<char>, length: nat, array_index: nat)
    requires
        available(data, vs, 2),
        sint_at(data, vs, 2) == Some(le2(data, vs) - (if data[vs + 1] >= 128 { 0x1_0000int } else { 0 })),
    ensures
        listed_as(data, vs, name, depth, "Int16Property"@, extra, length, array_index,
            signed_decimal(le2(data, vs) - (if data[vs + 1] >= 128 { 0x1_0000int } else { 0 }))),
{
    reveal_strlit("Int16Property");
    reveal_strlit("IntProperty");
    reveal_strlit("UInt32Property");
    reveal_strlit("Int64Property");
    reveal_strlit("UInt64Property");
    assert("Int16Property"@ != "IntProperty"@) by { assert("Int16Property"@[3] != "IntProperty"@[3]); }
    assert("Int16Property"@ != "UInt32Property"@) by { assert("Int16Property"@[1] != "UInt32Property"@[1]); }
    assert("Int16Property"@ != "Int64Property"@) by { assert("Int16Property"@[3] != "Int64Property"@[3]); }
    assert("Int16Property"@ != "UInt64Property"@) by { assert("Int16Property"@[1] != "UInt64Property"@[1]); }
    lemma_scalar_listing(data, vs, name, depth, "Int16Property"@, extra, length, array_index);
}

proof fn lemma_int8_listed(data: Seq<u8>, vs: int, name: Seq<char>, depth: nat, extra: Seq<char>, length: nat, array_index: nat)
    requires
        available(data, vs, 1),
        sint_at(data, vs, 1) == Some(data[vs] - (if data[vs] >= 128 { 0x100int } else { 0 })),
    ensures
        listed_as(data, vs, name, depth, "Int8Property"@, extra, length, array_index,
            signed_decimal(data[vs] - (if data[vs] >= 128 { 0x100int } else { 0 }))),
{
    reveal_strlit("Int8Property");
    reveal_strlit("IntProperty");
    reveal_strlit("UInt32Property");
    reveal_strlit("Int64Property");
    reveal_strlit("UInt64Property");
    reveal_strlit("Int16Property");
    assert("Int8Property"@ != "IntProperty"@) by { assert("Int8Property"@[3] != "IntProperty"@[3]); }
    assert("Int8Property"@ != "UInt32Property"@) by { assert("Int8Property"@[1] != "UInt32Property"@[1]); }
    assert("Int8Property"@ != "Int64Property"@) by { assert("Int8Property"@[3] != "Int64Property"@[3]); }
    assert("Int8Property"@ != "UInt64Property"@) by { assert("Int8Property"@[1] != "UInt64Property"@[1]); }
    assert("Int8Property"@ != "Int16Property"@) by { assert("Int8Property"@[3] != "Int16Property"@[3]); }
    lemma_scalar_listing(data, vs, name, depth, "Int8Property"@, extra, length, array_index);
}

proof fn lemma_byte_listed(data: Seq<u8>, vs: int, name: Seq<char>, depth: nat, length: nat, array_index: nat)
    requires
        available(data, vs, 1),
        uint_at(data, vs, 1) == Some(data[vs] as nat),
    ensures
        listed_as(data, vs, name, depth, "ByteProperty"@, "None"@, length, array_index, decimal(data[vs] as nat)),
{
    reveal_strlit("ByteProperty");
    reveal_strlit("IntProperty");
    reveal_strlit("UInt32Property");
    reveal_strlit("Int64Property");
    reveal_strlit("UInt64Property");
    reveal_strlit("Int16Property");
    reveal_strlit("Int8Property");
    reveal_strlit("FloatProperty");
    reveal_strlit("DoubleProperty");
    reveal_strlit("StrProperty");
    reveal_strlit("NameProperty");
    let b = "ByteProperty"@;
    assert(b != "IntProperty"@) by { assert(b[0] != "IntProperty"@[0]); }
    assert(b != "UInt32Property"@) by { assert(b[0] != "UInt32Property"@[0]); }
    assert(b != "Int64Property"@) by { assert(b[0] != "Int64Property"@[0]); }
    assert(b != "UInt64Property"@) by { assert(b[0] != "UInt64Property"@[0]); }
    assert(b != "Int16Property"@) by { assert(b[0] != "Int16Property"@[0]); }
    assert(b != "Int8Property"@) by { assert(b[0] != "Int8Property"@[0]); }
    assert(b != "FloatProperty"@) by { assert(b[0] != "FloatProperty"@[0]); }
    assert(b != "DoubleProperty"@) by { assert(b[0] != "DoubleProperty"@[0]); }
    assert(b != "StrProperty"@) by { assert(b[0] != "StrProperty"@[0]); }
    assert(b != "NameProperty"@) by { assert(b[0] != "NameProperty"@[0]); }
    lemma_scalar_listing(data, vs, name, depth, b, "None"@, length, array_index);
}

/// A BoolProperty (type name, an 8-byte size that must be zero, a value
/// byte, a terminator byte) is listed as "true" when its value byte is not
/// zero and "false" when it is, and the walk goes on 10 bytes after its type
/// name; with a non-zero size it does not walk.
pub proof fn lemma_bool_listed(data: Seq<u8>, pos: int, name: Seq<char>, depth: nat, p1: int)
    requires
        string_at(data, pos) == Some(("BoolProperty"@, p1)),
        available(data, p1, 10),
    ensures
        le8(data, p1) != 0 ==> walk_property(data, pos, name, depth).is_none(),
        le8(data, p1) == 0 ==> walk_property(data, pos, name, depth) == Some((
            seq![Piece::Text(indent_text(depth) + name + ": BoolProperty = "@
                + (if data[p1 + 8] != 0 { "true"@ } else { "false"@ }) + "\n"@)],
            p1 + 10,
        )),
{
    lemma_numbers_are_little_endian(data, p1);
    lemma_numbers_are_little_endian(data, p1 + 8);
    lemma_numbers_are_little_endian(data, p1 + 9);
}

/// A DateTime of `t` ticks (100 ns since 0001-01-01) lists as the whole
/// seconds since 1970-01-01, rounded toward zero: the Unix epoch falls on
/// tick 621355968000000000, and each second is 10000000 ticks.
pub proof fn lemma_datetime_seconds(s: int, r: int)
    requires
        0 <= r < 10000000,
    ensures
        s >= 0 ==> unix_seconds(621355968000000000 + 10000000 * s + r) == s,
        s <= 0 && 10000000 * s - r >= -0x8000_0000_0000_0000 ==> unix_seconds(621355968000000000 + 10000000 * s - r) == s,
{
    if s >= 0 {
        assert((10000000 * s + r) / 10000000 == s) by (nonlinear_arith)
            requires s >= 0, 0 <= r < 10000000;
    } else {
        assert((-(10000000 * s - r)) / 10000000 == -s) by (nonlinear_arith)
            requires s <= 0, 0 <= r < 10000000;
    }
}

/// Nested property lists and struct arrays are walked into only while the
/// depth is below 12; at depth 12 or more they are not walked (and are shown
/// by their size instead).
pub proof fn lemma_nesting_stops_at_twelve(data: Seq<u8>, start: int, length: nat, depth: nat)
    requires
        depth >= 12,
    ensures
        property_list(data, start, length, depth).is_none(),
        struct_array(data, start, length, depth).is_none(),
{
}

/// The hexadecimal text of a run of bytes has two upper-case digits per
/// byte, in order: byte `i`'s high nibble at `2 * i`, its low nibble at
/// `2 * i + 1` ('0'-'9' for 0 to 9, 'A'-'F' for 10 to 15). A Guid is listed
/// with this text of its 16 bytes.
pub proof fn lemma_bytes_hex_digits(b: Seq<u8>)
    ensures
        bytes_hex(b).len() == 2 * b.len(),
        forall|i: int| 0 <= i < b.len() ==> {
            let hi = b[i] as int / 16;
            let lo = b[i] as int % 16;
            &&& #[trigger] bytes_hex(b)[2 * i] as int == (if hi < 10 { 48 + hi } else { 55 + hi })
            &&& bytes_hex(b)[2 * i + 1] as int == (if lo < 10 { 48 + lo } else { 55 + lo })
        },
    decreases b.len(),
{
    if b.len() > 0 {
        let pre = b.drop_last();
        lemma_bytes_hex_digits(pre);
        let h = bytes_hex(b);
        assert(h == bytes_hex(pre) + byte_hex(b.last()));
        assert forall|i: int| 0 <= i < b.len() implies {
            let hi = b[i] as int / 16;
            let lo = b[i] as int % 16;
            &&& #[trigger] h[2 * i] as int == (if hi < 10 { 48 + hi } else { 55 + hi })
            &&& h[2 * i + 1] as int == (if lo < 10 { 48 + lo } else { 55 + lo })
        } by {
            if i < pre.len() {
                assert(pre[i] == b[i]);
                assert(h[2 * i] == bytes_hex(pre)[2 * i]);
                assert(h[2 * i + 1] == bytes_hex(pre)[2 * i + 1]);
            } else {
                let x = b.last();
                assert(crate::text::hex_digit_char(x as nat / 16) as int == (if x / 16 < 10 { 48 + x / 16 } else { 55 + x / 16 }));
                assert(crate::text::hex_digit_char(x as nat % 16) as int == (if x % 16 < 10 { 48 + x % 16 } else { 55 + x % 16 }));
            }
        }
    }
}

/// The walk of a top-level list counts at most one property past the safety
/// limit, and never fewer than it started with.
pub proof fn lemma_top_count_bounded(data: Seq<u8>, pos: int, count: nat)
    requires
        count <= MAX_PROPERTIES,
    ensures
        count <= top_items(data, pos, count).1 <= MAX_PROPERTIES + 1,
        top_items(data, pos, count).1 <= 200001,
    decreases MAX_PROPERTIES + 1 - count,
{
    match string_at(data, pos) {
        None => {},
        Some((name, p)) => {
            if name != "None"@ {
                match walk_property(data, p, name, 0) {
                    None => {},
                    Some((t, p2)) => {
                        if count + 1 <= MAX_PROPERTIES {
                            lemma_top_count_bounded(data, p2, count + 1);
                        }
                    },
                }
            }
        },
    }
}

/// A whole walk reports at most one top-level property past the safety limit,
/// and a walk that stopped early ends its listing with the note that says so.
pub proof fn lemma_interpretation_shape(data: Seq<u8>)
    ensures
        interpretation(data).1 <= MAX_PROPERTIES + 1,
        interpretation(data).2 ==> interpretation(data).0.len() > 0 && (
            interpretation(data).0.last() == Piece::Text(stop_note(interpretation(data).1))
            || gvas_header(gvas_body(data)) is Err),
{
    let body = gvas_body(data);
    match gvas_header(body) {
        Err(_) => {},
        Ok(p) => {
            lemma_top_count_bounded(body, p, 0);
        },
    }
}

/// Save data may start with the `GVAS` magic or four bytes before it: four
/// bytes put in front of data that starts with the magic (and does not repeat
/// it right after) change nothing in the listing.
pub proof fn lemma_leading_bytes_are_skipped(prefix: Seq<u8>, data: Seq<u8>)
    requires
        prefix.len() == 4,
        data.len() > 4,
        data[0] == 71 && data[1] == 86 && data[2] == 65 && data[3] == 83,
        !(data.len() > 8 && data[4] == 71 && data[5] == 86 && data[6] == 65 && data[7] == 83),
    ensures
        interpretation(prefix + data) == interpretation(data),
{
    let whole = prefix + data;
    assert(whole.subrange(4, whole.len() as int) =~= data);
    assert(gvas_body(whole) == data);
    assert(gvas_body(data) == data);
}

} // verus!
