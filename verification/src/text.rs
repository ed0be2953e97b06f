//! Building text: decimal and upper-case hexadecimal numbers, and the
//! spec functions that say what those numbers look like.

use vstd::prelude::*;
use vstd::string::*;

verus! {

/// Appends one character to a string (`String::push`).
///
/// Trusted: std documents that `push` appends the given `char` to the end of
/// the string; the contract says exactly that of the string's view.
#[verifier::external_body]
pub(crate) fn push_char(s: &mut String, c: char)
    ensures
        final(s)@ == old(s)@.push(c),
{
    s.push(c);
}

/// The decimal digit for `d` (`d < 10`).
pub open spec fn digit_char(d: nat) -> char {
    if d == 0 { '0' } else if d == 1 { '1' } else if d == 2 { '2' } else if d == 3 { '3' }
    else if d == 4 { '4' } else if d == 5 { '5' } else if d == 6 { '6' } else if d == 7 { '7' }
    else if d == 8 { '8' } else { '9' }
}

/// The decimal notation of `n`, without leading zeros ("0" for zero).
pub open spec fn decimal(n: nat) -> Seq<char>
    decreases n,
{
    if n < 10 {
        seq![digit_char(n)]
    } else {
        decimal(n / 10).push(digit_char(n % 10))
    }
}

fn digit(d: u64) -> (c: char)
    requires
        d < 10,
    ensures
        c == digit_char(d as nat),
{
    if d == 0 { '0' } else if d == 1 { '1' } else if d == 2 { '2' } else if d == 3 { '3' }
    else if d == 4 { '4' } else if d == 5 { '5' } else if d == 6 { '6' } else if d == 7 { '7' }
    else if d == 8 { '8' } else { '9' }
}

/// Appends the decimal notation of `n` to `out`.
pub fn push_decimal(out: &mut String, n: u64)
    ensures
        final(out)@ == old(out)@ + decimal(n as nat),
    decreases n,
{
    if n >= 10 {
        push_decimal(out, n / 10);
    }
    push_char(out, digit(n % 10));
}

/// The decimal notation of a signed number: a minus sign before the digits
/// of its magnitude when it is negative.
pub open spec fn signed_decimal(i: int) -> Seq<char> {
    if i < 0 { seq!['-'] + decimal((-i) as nat) } else { decimal(i as nat) }
}

/// Appends the decimal notation of the signed number `v` to `out`.
pub fn push_signed_decimal(out: &mut String, v: i64)
    ensures
        final(out)@ == old(out)@ + signed_decimal(v as int),
{
    if v < 0 {
        push_char(out, '-');
        let magnitude: u64 = (-(v as i128)) as u64;
        push_decimal(out, magnitude);
        assert(final(out)@ =~= old(out)@ + signed_decimal(v as int));
    } else {
        push_decimal(out, v as u64);
    }
}

/// The upper-case hexadecimal digit for `d` (`d < 16`).
pub open spec fn hex_digit_char(d: nat) -> char {
    if d < 10 { digit_char(d) } else if d == 10 { 'A' } else if d == 11 { 'B' } else if d == 12 { 'C' }
    else if d == 13 { 'D' } else if d == 14 { 'E' } else { 'F' }
}

/// The upper-case hexadecimal notation of `n`, without leading zeros ("0" for zero).
pub open spec fn hex(n: nat) -> Seq<char>
    decreases n,
{
    if n < 16 {
        seq![hex_digit_char(n)]
    } else {
        hex(n / 16).push(hex_digit_char(n % 16))
    }
}

/// `hex(n)`, with zeros in front up to `width` digits (the `{:0width$X}` format).
pub open spec fn hex_padded(n: nat, width: nat) -> Seq<char> {
    let h = hex(n);
    if h.len() < width { Seq::new((width - h.len()) as nat, |i: int| '0') + h } else { h }
}

/// The two upper-case hexadecimal digits of a byte (the `{:02X}` format).
pub open spec fn byte_hex(b: u8) -> Seq<char> {
    seq![hex_digit_char(b as nat / 16), hex_digit_char(b as nat % 16)]
}

fn hex_digit(d: u64) -> (c: char)
    requires
        d < 16,
    ensures
        c == hex_digit_char(d as nat),
{
    if d < 10 { digit(d) } else if d == 10 { 'A' } else if d == 11 { 'B' } else if d == 12 { 'C' }
    else if d == 13 { 'D' } else if d == 14 { 'E' } else { 'F' }
}

/// Appends the upper-case hexadecimal notation of `n` to `out`.
pub fn push_hex(out: &mut String, n: u64)
    ensures
        final(out)@ == old(out)@ + hex(n as nat),
    decreases n,
{
    if n >= 16 {
        push_hex(out, n / 16);
    }
    push_char(out, hex_digit(n % 16));
}

/// Appends the upper-case hexadecimal notation of `n`, zero-padded to `width` digits.
pub fn push_hex_padded(out: &mut String, n: u64, width: usize)
    ensures
        final(out)@ == old(out)@ + hex_padded(n as nat, width as nat),
{
    let mut digits = String::new();
    push_hex(&mut digits, n);
    let len = digits.as_str().unicode_len();
    let ghost start = out@;
    if len < width {
        let mut k: usize = 0;
        while k < width - len
            invariant
                len < width,
                k <= width - len,
                out@ == start + Seq::new(k as nat, |i: int| '0'),
            decreases width - len - k,
        {
            push_char(out, '0');
            k = k + 1;
            assert(out@ =~= start + Seq::new(k as nat, |i: int| '0'));
        }
    }
    out.append(digits.as_str());
    assert(out@ =~= start + hex_padded(n as nat, width as nat));
}

/// Appends the two upper-case hexadecimal digits of `b`.
pub fn push_byte_hex(out: &mut String, b: u8)
    ensures
        final(out)@ == old(out)@ + byte_hex(b),
{
    push_char(out, hex_digit(b as u64 / 16));
    push_char(out, hex_digit(b as u64 % 16));
    assert(final(out)@ =~= old(out)@ + byte_hex(b));
}

/// Whether two strings hold the same characters.
pub fn str_eq(a: &str, b: &str) -> (r: bool)
    ensures
        r == (a@ == b@),
{
    let n = a.unicode_len();
    if n != b.unicode_len() {
        return false;
    }
    let mut i: usize = 0;
    while i < n
        invariant
            n == a@.len() == b@.len(),
            i <= n,
            forall|j: int| 0 <= j < i ==> a@[j] == b@[j],
        decreases n - i,
    {
        if a.get_char(i) != b.get_char(i) {
            return false;
        }
        i = i + 1;
    }
    assert(a@ =~= b@);
    true
}

/// The number that a run of decimal digit characters spells (most
/// significant first).
pub open spec fn digits_value(s: Seq<char>) -> int
    decreases s.len(),
{
    if s.len() == 0 { 0 } else { 10 * digits_value(s.drop_last()) + (s.last() as int - 48) }
}

/// The decimal notation of `n` is made of the characters '0' to '9' only,
/// spells `n`, and has no leading zero (zero is the single digit '0').
pub proof fn lemma_decimal_spells_number(n: nat)
    ensures
        decimal(n).len() >= 1,
        forall|i: int| 0 <= i < decimal(n).len() ==> 48 <= #[trigger] (decimal(n)[i] as int) <= 57,
        digits_value(decimal(n)) == n,
        n == 0 <==> decimal(n)[0] == '0',
    decreases n,
{
    if n >= 10 {
        lemma_decimal_spells_number(n / 10);
        let d = decimal(n);
        assert(d.drop_last() =~= decimal(n / 10));
        assert forall|i: int| 0 <= i < d.len() implies 48 <= #[trigger] (d[i] as int) <= 57 by {
            if i < d.len() - 1 {
                assert(d[i] == decimal(n / 10)[i]);
            }
        }
        assert(d[0] == decimal(n / 10)[0]);
        assert(d.last() == digit_char(n % 10));
        assert(digit_char(n % 10) as int == 48 + n % 10);
        assert(digits_value(d) == 10 * digits_value(d.drop_last()) + (d.last() as int - 48));
        assert(n == 10 * (n / 10) + n % 10);
    } else {
        let d = decimal(n);
        assert(d.drop_last() =~= Seq::<char>::empty());
        assert(digit_char(n) as int == 48 + n);
        assert(digits_value(d) == 10 * digits_value(d.drop_last()) + (d.last() as int - 48));
    }
}

/// The signed decimal notation of `i` is a minus sign followed by digits
/// spelling `-i` when `i` is negative, and digits spelling `i` otherwise.
pub proof fn lemma_signed_decimal_spells_number(i: int)
    ensures
        i < 0 ==> signed_decimal(i)[0] == '-' && digits_value(signed_decimal(i).drop_first()) == -i,
        i >= 0 ==> digits_value(signed_decimal(i)) == i && 48 <= signed_decimal(i)[0] as int <= 57,
{
    if i < 0 {
        lemma_decimal_spells_number((-i) as nat);
        assert(signed_decimal(i).drop_first() =~= decimal((-i) as nat));
    } else {
        lemma_decimal_spells_number(i as nat);
    }
}

/// The number that a run of upper-case hexadecimal digit characters spells
/// (most significant first): '0'-'9' count 0 to 9, 'A'-'F' count 10 to 15.
pub open spec fn hex_digits_value(s: Seq<char>) -> int
    decreases s.len(),
{
    if s.len() == 0 {
        0
    } else {
        let c = s.last() as int;
        16 * hex_digits_value(s.drop_last()) + (if c <= 57 { c - 48 } else { c - 55 })
    }
}

/// Every character of `s` is an upper-case hexadecimal digit.
pub open spec fn all_hex_digits(s: Seq<char>) -> bool {
    forall|i: int| 0 <= i < s.len() ==> {
        let c = #[trigger] s[i] as int;
        (48 <= c <= 57) || (65 <= c <= 70)
    }
}

/// The hexadecimal notation of `n` is made of upper-case hexadecimal digits
/// and spells `n`.
pub proof fn lemma_hex_spells_number(n: nat)
    ensures
        hex(n).len() >= 1,
        all_hex_digits(hex(n)),
        hex_digits_value(hex(n)) == n,
    decreases n,
{
    let h = hex(n);
    if n >= 16 {
        lemma_hex_spells_number(n / 16);
        assert(h.drop_last() =~= hex(n / 16));
        assert(n == 16 * (n / 16) + n % 16);
        let d = n % 16;
        assert(h.last() == hex_digit_char(d));
        assert(hex_digit_char(d) as int == (if d < 10 { 48 + d } else { 55 + d }));
        assert(hex_digits_value(h) == 16 * hex_digits_value(h.drop_last())
            + (if h.last() as int <= 57 { h.last() as int - 48 } else { h.last() as int - 55 }));
        assert forall|i: int| 0 <= i < h.len() implies {
            let c = #[trigger] h[i] as int;
            (48 <= c <= 57) || (65 <= c <= 70)
        } by {
            if i < h.len() - 1 {
                assert(h[i] == hex(n / 16)[i]);
            }
        }
    } else {
        assert(h.drop_last() =~= Seq::<char>::empty());
        assert(hex_digit_char(n) as int == (if n < 10 { 48 + n } else { 55 + n }));
        assert(hex_digits_value(h) == 16 * hex_digits_value(h.drop_last())
            + (if h.last() as int <= 57 { h.last() as int - 48 } else { h.last() as int - 55 }));
    }
}

/// Leading zeros do not change what hexadecimal digits spell, and the padded
/// notation of `n` to `width` digits spells `n`, with at least `width` digits.
pub proof fn lemma_hex_padded_spells_number(n: nat, width: nat)
    ensures
        hex_padded(n, width).len() >= width,
        all_hex_digits(hex_padded(n, width)),
        hex_digits_value(hex_padded(n, width)) == n,
{
    lemma_hex_spells_number(n);
    let h = hex(n);
    if h.len() < width {
        let z = Seq::new((width - h.len()) as nat, |i: int| '0');
        lemma_zeros_then(z, h);
    }
}

proof fn lemma_zeros_then(z: Seq<char>, h: Seq<char>)
    requires
        forall|i: int| 0 <= i < z.len() ==> z[i] == '0',
        all_hex_digits(h),
    ensures
        hex_digits_value(z + h) == hex_digits_value(h),
        all_hex_digits(z + h),
    decreases h.len() + z.len(),
{
    if h.len() > 0 {
        assert((z + h).drop_last() =~= z + h.drop_last());
        lemma_zeros_then(z, h.drop_last());
        assert((z + h).last() == h.last());
    } else if z.len() > 0 {
        assert(z + h =~= z);
        assert(z.drop_last() + h =~= z.drop_last());
        lemma_zeros_then(z.drop_last(), h);
        assert(z.last() as int == 48);
    }
    assert forall|i: int| 0 <= i < (z + h).len() implies {
        let c = #[trigger] (z + h)[i] as int;
        (48 <= c <= 57) || (65 <= c <= 70)
    } by {
        if i < z.len() {
            assert((z + h)[i] == z[i]);
        } else {
            assert((z + h)[i] == h[i - z.len()]);
        }
    }
}

} // verus!
