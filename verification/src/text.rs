//! Character-level text helpers: decimal renderings of integers, digit
//! classification, and conversions between `&str`, `Vec<char>` and `String`.
//!
//! Everything here works on `char` sequences, so that contracts elsewhere can
//! speak of string views (`Seq<char>`) directly.

use vstd::prelude::*;
use vstd::string::StrSliceExecFns;

verus! {

/// The numeric value of a decimal digit character, or -1 for any other char.
pub open spec fn digit_val(c: char) -> int {
    match c {
        '0' => 0,
        '1' => 1,
        '2' => 2,
        '3' => 3,
        '4' => 4,
        '5' => 5,
        '6' => 6,
        '7' => 7,
        '8' => 8,
        '9' => 9,
        _ => -1,
    }
}

pub open spec fn is_digit(c: char) -> bool {
    digit_val(c) >= 0
}

/// The decimal digit character for a value in 0..10.
pub open spec fn digit_char(d: int) -> char {
    if d == 0 { '0' }
    else if d == 1 { '1' }
    else if d == 2 { '2' }
    else if d == 3 { '3' }
    else if d == 4 { '4' }
    else if d == 5 { '5' }
    else if d == 6 { '6' }
    else if d == 7 { '7' }
    else if d == 8 { '8' }
    else { '9' }
}

/// The canonical decimal rendering of a natural number: no leading zeros,
/// a single '0' for zero.
pub open spec fn dec_chars(n: nat) -> Seq<char>
    decreases n,
{
    if n < 10 {
        seq![digit_char(n as int)]
    } else {
        dec_chars(n / 10) + seq![digit_char((n % 10) as int)]
    }
}

/// The canonical decimal rendering of an integer: a '-' sign before the
/// magnitude when negative.
pub open spec fn dec_chars_signed(n: int) -> Seq<char> {
    if n < 0 {
        seq!['-'] + dec_chars((-n) as nat)
    } else {
        dec_chars(n as nat)
    }
}

/// The value of a sequence of decimal digit characters, most significant
/// first.
pub open spec fn digits_val(ds: Seq<char>) -> int
    decreases ds.len(),
{
    if ds.len() == 0 {
        0
    } else {
        digits_val(ds.drop_last()) * 10 + digit_val(ds.last())
    }
}

pub open spec fn all_digits(ds: Seq<char>) -> bool {
    forall|i: int| 0 <= i < ds.len() ==> is_digit(#[trigger] ds[i])
}

/// Exec mirror of `digit_val`.
pub fn digit_of(c: char) -> (d: i8)
    ensures
        d as int == digit_val(c),
{
    match c {
        '0' => 0,
        '1' => 1,
        '2' => 2,
        '3' => 3,
        '4' => 4,
        '5' => 5,
        '6' => 6,
        '7' => 7,
        '8' => 8,
        '9' => 9,
        _ => -1,
    }
}

/// Exec mirror of `digit_char`.
fn char_of_digit(d: u64) -> (c: char)
    requires
        d < 10,
    ensures
        c == digit_char(d as int),
{
    match d {
        0 => '0',
        1 => '1',
        2 => '2',
        3 => '3',
        4 => '4',
        5 => '5',
        6 => '6',
        7 => '7',
        8 => '8',
        _ => '9',
    }
}

/// Appends the canonical decimal rendering of `n` to `out`.
pub fn push_dec_u64(out: &mut Vec<char>, n: u64)
    ensures
        final(out)@ == old(out)@ + dec_chars(n as nat),
    decreases n,
{
    if n < 10 {
        out.push(char_of_digit(n));
    } else {
        push_dec_u64(out, n / 10);
        out.push(char_of_digit(n % 10));
        assert(out@ =~= old(out)@ + dec_chars(n as nat));
    }
}

/// Appends the canonical signed decimal rendering of `n` to `out`.
pub fn push_dec_i64(out: &mut Vec<char>, n: i64)
    ensures
        final(out)@ == old(out)@ + dec_chars_signed(n as int),
{
    if n < 0 {
        out.push('-');
        let m: u64 = if n == i64::MIN {
            9223372036854775808u64
        } else {
            (-n) as u64
        };
        assert(m as nat == (-(n as int)) as nat);
        push_dec_u64(out, m);
        assert(out@ =~= old(out)@ + dec_chars_signed(n as int));
    } else {
        push_dec_u64(out, n as u64);
    }
}

/// Appends the characters of `s` to `out`.
pub fn push_str_chars(out: &mut Vec<char>, s: &str)
    ensures
        final(out)@ == old(out)@ + s@,
{
    let n = s.unicode_len();
    let mut i: usize = 0;
    while i < n
        invariant
            n == s@.len(),
            i <= n,
            out@ == old(out)@ + s@.take(i as int),
        decreases n - i,
    {
        out.push(s.get_char(i));
        assert(out@ =~= old(out)@ + s@.take(i + 1));
        i += 1;
    }
    assert(out@ =~= old(out)@ + s@);
}

/// The characters of `s` as a vector.
pub fn str_to_chars(s: &str) -> (v: Vec<char>)
    ensures
        v@ == s@,
{
    let mut v: Vec<char> = Vec::new();
    push_str_chars(&mut v, s);
    v
}

/// Whether two string slices hold the same characters.
pub fn str_eq(a: &str, b: &str) -> (r: bool)
    ensures
        r == (a@ == b@),
{
    let n = a.unicode_len();
    if n != b.unicode_len() {
        return false;
    }
    let mut i: usize = 0;
    while i < n
        invariant
            n == a@.len() == b@.len(),
            i <= n,
            forall|j: int| 0 <= j < i ==> a@[j] == b@[j],
        decreases n - i,
    {
        if a.get_char(i) != b.get_char(i) {
            return false;
        }
        i += 1;
    }
    assert(a@ =~= b@);
    true
}

/// Relies on `String`'s `FromIterator<char>` impl: collecting chars yields
/// the string with exactly those chars.
#[verifier::external_body]
pub(crate) fn chars_into_string(v: &Vec<char>) -> (s: String)
    ensures
        s@ == v@,
{
    v.iter().collect()
}

/// The canonical decimal rendering of `n`, as a string.
pub fn u64_to_string(n: u64) -> (s: String)
    ensures
        s@ == dec_chars(n as nat),
{
    let mut v: Vec<char> = Vec::new();
    push_dec_u64(&mut v, n);
    chars_into_string(&v)
}

/// For digit sequences, the value of a prefix never exceeds the value of the
/// whole.
pub proof fn lemma_digits_val_prefix_le(ds: Seq<char>, k: int)
    requires
        0 <= k <= ds.len(),
        all_digits(ds),
    ensures
        digits_val(ds.take(k)) <= digits_val(ds),
    decreases ds.len() - k,
{
    if k < ds.len() {
        lemma_digits_val_prefix_le(ds, k + 1);
        assert(ds.take(k + 1).drop_last() =~= ds.take(k));
        assert(digits_val(ds.take(k)) >= 0) by {
            lemma_digits_val_nonneg(ds.take(k));
        }
        assert(digits_val(ds.take(k + 1)) == digits_val(ds.take(k)) * 10 + digit_val(ds[k]));
        assert(digits_val(ds.take(k)) * 10 >= digits_val(ds.take(k))) by (nonlinear_arith)
            requires digits_val(ds.take(k)) >= 0;
    } else {
        assert(ds.take(k) =~= ds);
    }
}

/// The value of an all-digit sequence is non-negative.
pub proof fn lemma_digits_val_nonneg(ds: Seq<char>)
    requires
        all_digits(ds),
    ensures
        digits_val(ds) >= 0,
    decreases ds.len(),
{
    if ds.len() > 0 {
        assert(all_digits(ds.drop_last()));
        lemma_digits_val_nonneg(ds.drop_last());
        assert(digits_val(ds.drop_last()) * 10 >= 0) by (nonlinear_arith)
            requires digits_val(ds.drop_last()) >= 0;
    }
}

} // verus!
