//! The classic `offset | hex | ascii` dump of a byte buffer, 16 bytes per row.

use vstd::prelude::*;
use vstd::string::*;
use crate::text::{byte_hex, hex, hex_padded, push_byte_hex, push_char, push_hex_padded};

verus! {

/// Bytes per row of the dump.
pub const ROW_BYTES: usize = 16;

/// How a byte shows in the ASCII column: itself when it is a printable ASCII
/// character (space to `~`), else a dot.
pub open spec fn printable(b: u8) -> char {
    if 32 <= b <= 126 { b as char } else { '.' }
}

/// The hex column's cell `i` of a row holding `chunk`: two digits and a space
/// for a byte, three spaces past the row's end, and one more space after the
/// eighth cell.
pub open spec fn hex_cell(chunk: Seq<u8>, i: int) -> Seq<char> {
    let cell = if i < chunk.len() { byte_hex(chunk[i]) + seq![' '] } else { seq![' ', ' ', ' '] };
    if i == 7 { cell + seq![' '] } else { cell }
}

/// The first `k` cells of a row's hex column.
pub open spec fn hex_cells(chunk: Seq<u8>, k: int) -> Seq<char>
    decreases k,
{
    if k <= 0 { Seq::empty() } else { hex_cells(chunk, k - 1) + hex_cell(chunk, k - 1) }
}

/// The ASCII column of a row.
pub open spec fn ascii_column(chunk: Seq<u8>) -> Seq<char> {
    chunk.map_values(|b: u8| printable(b))
}

/// The bytes of row `r`.
pub open spec fn row_chunk(data: Seq<u8>, r: int) -> Seq<u8> {
    let end = if 16 * r + 16 <= data.len() { 16 * r + 16 } else { data.len() as int };
    data.subrange(16 * r, end)
}

/// Row `r` of the dump: its offset in at least eight upper-case hex digits,
/// two spaces, the hex column, and the ASCII column between bars.
pub open spec fn dump_row(data: Seq<u8>, r: int) -> Seq<char> {
    let chunk = row_chunk(data, r);
    hex_padded((16 * r) as nat, 8) + seq![' ', ' '] + hex_cells(chunk, 16) + seq![' ', '|']
        + ascii_column(chunk) + seq!['|', '\n']
}

/// How many rows the dump of `len` bytes has.
pub open spec fn row_count(len: int) -> int {
    (len + 15) / 16
}

/// The first `k` rows of the dump.
pub open spec fn dump_rows(data: Seq<u8>, k: int) -> Seq<char>
    decreases k,
{
    if k <= 0 { Seq::empty() } else { dump_rows(data, k - 1) + dump_row(data, k - 1) }
}

/// The whole dump.
pub open spec fn hex_dump(data: Seq<u8>) -> Seq<char> {
    dump_rows(data, row_count(data.len() as int))
}

fn printable_char(b: u8) -> (c: char)
    ensures
        c == printable(b),
{
    if 32 <= b && b <= 126 { b as char } else { '.' }
}

/// Appends row `r` of the dump of `data`.
fn push_row(out: &mut String, data: &[u8], r: usize)
    requires
        16 * r < data@.len(),
    ensures
        final(out)@ == old(out)@ + dump_row(data@, r as int),
{
    let len = data.len();
    let start = 16 * r;
    let end = if len - start >= 16 { start + 16 } else { len };
    let ghost chunk = row_chunk(data@, r as int);
    let ghost base = out@;
    push_hex_padded(out, start as u64, 8);
    push_char(out, ' ');
    push_char(out, ' ');
    let ghost after_offset = out@;
    let mut i: usize = 0;
    while i < 16
        invariant
            i <= 16,
            start == 16 * r,
            start < end <= len == data@.len(),
            end - start <= 16,
            chunk == data@.subrange(start as int, end as int),
            out@ == after_offset + hex_cells(chunk, i as int),
        decreases 16 - i,
    {
        let ghost before = out@;
        if i < end - start {
            push_byte_hex(out, data[start + i]);
            push_char(out, ' ');
        } else {
            push_char(out, ' ');
            push_char(out, ' ');
            push_char(out, ' ');
        }
        if i == 7 {
            push_char(out, ' ');
        }
        assert(out@ =~= before + hex_cell(chunk, i as int));
        i = i + 1;
    }
    push_char(out, ' ');
    push_char(out, '|');
    let ghost after_hex = out@;
    let mut k: usize = start;
    while k < end
        invariant
            start <= k <= end <= len == data@.len(),
            chunk == data@.subrange(start as int, end as int),
            out@ == after_hex + ascii_column(chunk.subrange(0, k - start)),
        decreases end - k,
    {
        push_char(out, printable_char(data[k]));
        assert(chunk.subrange(0, k + 1 - start) =~= chunk.subrange(0, k - start).push(data@[k as int]));
        k = k + 1;
    }
    assert(chunk.subrange(0, end - start) =~= chunk);
    push_char(out, '|');
    push_char(out, '\n');
    assert(out@ =~= base + dump_row(data@, r as int));
}

/// Formats bytes as a classic `offset | hex | ascii` hex dump, 16 bytes per
/// row, the way modders expect to read raw structures.
pub fn to_hex_dump(data: &[u8]) -> (s: String)
    ensures
        s@ == hex_dump(data@),
{
    let mut out = String::new();
    let len = data.len();
    let rows = len / 16 + if len % 16 == 0 { 0 } else { 1 };
    assert(rows == row_count(len as int));
    let mut r: usize = 0;
    while r < rows
        invariant
            r <= rows,
            rows == row_count(len as int),
            len == data@.len(),
            out@ == dump_rows(data@, r as int),
        decreases rows - r,
    {
        push_row(&mut out, data, r);
        r = r + 1;
    }
    out
}

/// `16` raised to the power `k`.
pub open spec fn pow16(k: nat) -> nat
    decreases k,
{
    if k == 0 { 1 } else { 16 * pow16((k - 1) as nat) }
}

proof fn lemma_hex_len(n: nat, k: nat)
    requires
        1 <= k,
        n < pow16(k),
    ensures
        hex(n).len() <= k,
    decreases n,
{
    if n >= 16 {
        if k == 1 {
            assert(pow16(1) == 16) by {
                reveal_with_fuel(pow16, 2);
            }
        } else {
            let p = pow16((k - 1) as nat);
            assert(n / 16 < p) by (nonlinear_arith)
                requires
                    n < 16 * p,
            ;
            lemma_hex_len(n / 16, (k - 1) as nat);
        }
    }
}

proof fn lemma_hex_cells_len(chunk: Seq<u8>, k: int)
    requires
        0 <= k <= 16,
    ensures
        hex_cells(chunk, k).len() == 3 * k + (if k > 7 { 1int } else { 0int }),
    decreases k,
{
    if k > 0 {
        lemma_hex_cells_len(chunk, k - 1);
    }
}

proof fn lemma_dump_rows_len(data: Seq<u8>, k: int)
    requires
        0 <= k <= row_count(data.len() as int),
        data.len() <= 0xFFFF_FFFF,
    ensures
        dump_rows(data, k).len() == 63 * k + (if 16 * k <= data.len() { 16 * k } else { data.len() as int }),
    decreases k,
{
    if k > 0 {
        lemma_dump_rows_len(data, k - 1);
        let r = k - 1;
        let chunk = row_chunk(data, r);
        assert(pow16(8) == 0x1_0000_0000) by {
            reveal_with_fuel(pow16, 9);
        }
        lemma_hex_len((16 * r) as nat, 8);
        lemma_hex_cells_len(chunk, 16);
    }
}

/// The dump holds one row per 16 bytes (the last row may be shorter): each
/// row is 63 characters of offset, hex column, bars and line break, plus one
/// character per byte, so a dump of fewer than 2^32 bytes is exactly
/// `63 * rows + len` characters long.
pub proof fn lemma_hex_dump_len(data: Seq<u8>)
    requires
        data.len() <= 0xFFFF_FFFF,
    ensures
        hex_dump(data).len() == 63 * row_count(data.len() as int) + data.len(),
{
    lemma_dump_rows_len(data, row_count(data.len() as int));
}

/// The rows before `m` come first in the rows before any later count.
proof fn lemma_dump_rows_prefix(data: Seq<u8>, m: int, n: int)
    requires
        0 <= m <= n,
    ensures
        dump_rows(data, n).len() >= dump_rows(data, m).len(),
        forall|j: int| 0 <= j < dump_rows(data, m).len() ==> #[trigger] dump_rows(data, n)[j] == dump_rows(data, m)[j],
    decreases n - m,
{
    if m < n {
        lemma_dump_rows_prefix(data, m, n - 1);
    }
}

/// In the dump of fewer than 2^32 bytes, byte `k` shows in the ASCII column
/// of row `k / 16`, at position `79 * (k / 16) + 61 + k % 16` of the dump
/// (every earlier row is full: 79 characters; a row's ASCII column starts
/// after its 8-digit offset, two spaces, the 49-character hex column, a space
/// and a bar), right after a bar when it is the row's first byte. It shows as
/// itself when it is printable ASCII (32 to 126) and as '.' otherwise.
#[verifier::spinoff_prover]
#[verifier::rlimit(40)]
pub proof fn lemma_ascii_column_shows_bytes(data: Seq<u8>, k: int)
    requires
        data.len() <= 0xFFFF_FFFF,
        0 <= k < data.len(),
    ensures
        hex_dump(data)[79 * (k / 16) + 61 + k % 16] == (if 32 <= data[k] <= 126 { data[k] as char } else { '.' }),
        hex_dump(data)[79 * (k / 16) + 60] == '|',
{
    let r = k / 16;
    let i = k % 16;
    let rc = row_count(data.len() as int);
    assert(r < rc);
    lemma_dump_rows_len(data, r);
    lemma_dump_rows_prefix(data, r + 1, rc);
    let chunk = row_chunk(data, r);
    assert(pow16(8) == 0x1_0000_0000) by {
        reveal_with_fuel(pow16, 9);
    }
    lemma_hex_len((16 * r) as nat, 8);
    lemma_hex_cells_len(chunk, 16);
    let row = dump_row(data, r);
    assert(hex_padded((16 * r) as nat, 8).len() == 8);
    assert(row[61 + i] == ascii_column(chunk)[i]);
    assert(chunk[i] == data[k]);
    assert(dump_rows(data, r + 1) == dump_rows(data, r) + row);
    assert(dump_rows(data, r + 1)[79 * r + 61 + i] == row[61 + i]);
    assert(dump_rows(data, r + 1)[79 * r + 60] == row[60]);
}

proof fn lemma_hex_cells_prefix(chunk: Seq<u8>, m: int, n: int)
    requires
        0 <= m <= n,
    ensures
        hex_cells(chunk, n).len() >= hex_cells(chunk, m).len(),
        forall|j: int| 0 <= j < hex_cells(chunk, m).len() ==> #[trigger] hex_cells(chunk, n)[j] == hex_cells(chunk, m)[j],
    decreases n - m,
{
    if m < n {
        lemma_hex_cells_prefix(chunk, m, n - 1);
    }
}

/// In the dump of fewer than 2^32 bytes, byte `k` shows in the hex column of
/// row `k / 16` as two upper-case hexadecimal digits, its high nibble then
/// its low one ('0'-'9' for 0 to 9, 'A'-'F' for 10 to 15), at position
/// `79 * (k / 16) + 10 + 3 * (k % 16)` of the dump, one more after the
/// eighth byte of the row (a row opens with its 8-digit offset and two
/// spaces; each byte takes its two digits and a space).
#[verifier::spinoff_prover]
#[verifier::rlimit(40)]
pub proof fn lemma_hex_column_shows_bytes(data: Seq<u8>, k: int)
    requires
        data.len() <= 0xFFFF_FFFF,
        0 <= k < data.len(),
    ensures
        ({
            let i = k % 16;
            let at = 79 * (k / 16) + 10 + 3 * i + (if i > 7 { 1int } else { 0int });
            let hi = data[k] as int / 16;
            let lo = data[k] as int % 16;
            &&& hex_dump(data)[at] as int == (if hi < 10 { 48 + hi } else { 55 + hi })
            &&& hex_dump(data)[at + 1] as int == (if lo < 10 { 48 + lo } else { 55 + lo })
            &&& hex_dump(data)[at + 2] == ' '
        }),
{
    let r = k / 16;
    let i = k % 16;
    let rc = row_count(data.len() as int);
    let c0 = 3 * i + (if i > 7 { 1int } else { 0int });
    lemma_dump_rows_len(data, r);
    lemma_dump_rows_prefix(data, r + 1, rc);
    lemma_row_hex_cell(data, r, i);
    let row = dump_row(data, r);
    assert(dump_rows(data, r + 1) == dump_rows(data, r) + row);
    assert(hex_dump(data)[79 * r + 10 + c0] == row[10 + c0]);
    assert(hex_dump(data)[79 * r + 11 + c0] == row[11 + c0]);
    assert(hex_dump(data)[79 * r + 12 + c0] == row[12 + c0]);
    lemma_hex_digit_value(data[k] as nat / 16);
    lemma_hex_digit_value(data[k] as nat % 16);
}

proof fn lemma_hex_digit_value(d: nat)
    requires
        d < 16,
    ensures
        crate::text::hex_digit_char(d) as int == (if d < 10 { 48 + d } else { 55 + d }),
{
}

#[verifier::spinoff_prover]
#[verifier::rlimit(40)]
proof fn lemma_row_hex_cell(data: Seq<u8>, r: int, i: int)
    requires
        data.len() <= 0xFFFF_FFFF,
        0 <= r,
        0 <= i < 16,
        16 * r + i < data.len(),
    ensures
        ({
            let c0 = 3 * i + (if i > 7 { 1int } else { 0int });
            let b = data[16 * r + i];
            &&& dump_row(data, r)[10 + c0] == byte_hex(b)[0]
            &&& dump_row(data, r)[11 + c0] == byte_hex(b)[1]
            &&& dump_row(data, r)[12 + c0] == ' '
            &&& dump_row(data, r).len() == 63 + row_chunk(data, r).len()
        }),
{
    let chunk = row_chunk(data, r);
    let c0 = 3 * i + (if i > 7 { 1int } else { 0int });
    assert(pow16(8) == 0x1_0000_0000) by {
        reveal_with_fuel(pow16, 9);
    }
    lemma_hex_len((16 * r) as nat, 8);
    lemma_hex_cells_len(chunk, 16);
    lemma_hex_cells_len(chunk, i);
    lemma_hex_cells_prefix(chunk, i + 1, 16);
    let cells = hex_cells(chunk, 16);
    assert(hex_padded((16 * r) as nat, 8).len() == 8);
    assert(chunk[i] == data[16 * r + i]);
    assert(hex_cells(chunk, i + 1) == hex_cells(chunk, i) + hex_cell(chunk, i));
    assert(cells[c0] == hex_cell(chunk, i)[0]);
    assert(cells[c0 + 1] == hex_cell(chunk, i)[1]);
    assert(cells[c0 + 2] == hex_cell(chunk, i)[2]);
    let row = dump_row(data, r);
    assert(row == hex_padded((16 * r) as nat, 8) + seq![' ', ' '] + cells + seq![' ', '|']
        + ascii_column(chunk) + seq!['|', '\n']);
    assert(row[10 + c0] == cells[c0]);
    assert(row[11 + c0] == cells[c0 + 1]);
    assert(row[12 + c0] == cells[c0 + 2]);
}

/// In the dump of fewer than 2^32 bytes, row `r` starts at position
/// `79 * r` with eight upper-case hexadecimal digits that spell the offset of
/// its first byte, `16 * r`, followed by two spaces.
#[verifier::spinoff_prover]
#[verifier::rlimit(40)]
pub proof fn lemma_rows_open_with_offset(data: Seq<u8>, r: int)
    requires
        data.len() <= 0xFFFF_FFFF,
        0 <= r,
        16 * r < data.len(),
    ensures
        crate::text::all_hex_digits(hex_dump(data).subrange(79 * r, 79 * r + 8)),
        crate::text::hex_digits_value(hex_dump(data).subrange(79 * r, 79 * r + 8)) == 16 * r,
        hex_dump(data)[79 * r + 8] == ' ',
        hex_dump(data)[79 * r + 9] == ' ',
{
    let rc = row_count(data.len() as int);
    lemma_dump_rows_len(data, r);
    lemma_dump_rows_prefix(data, r + 1, rc);
    lemma_row_hex_cell(data, r, 0);
    crate::text::lemma_hex_padded_spells_number((16 * r) as nat, 8);
    assert(pow16(8) == 0x1_0000_0000) by {
        reveal_with_fuel(pow16, 9);
    }
    lemma_hex_len((16 * r) as nat, 8);
    let off = hex_padded((16 * r) as nat, 8);
    assert(off.len() == 8);
    let row = dump_row(data, r);
    assert(dump_rows(data, r + 1) == dump_rows(data, r) + row);
    assert(row == off + seq![' ', ' '] + hex_cells(row_chunk(data, r), 16) + seq![' ', '|']
        + ascii_column(row_chunk(data, r)) + seq!['|', '\n']);
    assert(hex_dump(data).subrange(79 * r, 79 * r + 8) =~= off);
    assert(hex_dump(data)[79 * r + 8] == row[8]);
    assert(hex_dump(data)[79 * r + 9] == row[9]);
}

} // verus!
