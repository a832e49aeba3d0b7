//! Decimal digit parsing and printing over character sequences.
use vstd::prelude::*;

verus! {

pub open spec fn is_digit_char(c: char) -> bool {
    '0' <= c && c <= '9'
}

/// Numeric value of a digit character (garbage on non-digits, which callers
/// rule out).
pub open spec fn digit_val(c: char) -> nat {
    ((c as u32) - 48) as nat
}

pub open spec fn all_digits(s: Seq<char>) -> bool {
    forall|i: int| 0 <= i < s.len() ==> is_digit_char(#[trigger] s[i])
}

/// The number denoted by a digit string, most significant digit first.
pub open spec fn dec_val(s: Seq<char>) -> nat
    decreases s.len(),
{
    if s.len() == 0 {
        0
    } else {
        dec_val(s.drop_last()) * 10 + digit_val(s.last())
    }
}

/// What `str::parse::<u32>` yields on a captured digit run, with failure
/// collapsed to 0 as the extraction rules demand: empty, non-digit or
/// out-of-range input gives 0.
pub open spec fn parsed_u32(s: Seq<char>) -> u32 {
    if s.len() > 0 && all_digits(s) && dec_val(s) <= u32::MAX {
        dec_val(s) as u32
    } else {
        0
    }
}

/// A prefix of a digit string never denotes more than the whole.
pub proof fn lemma_dec_val_prefix_le(s: Seq<char>, i: int)
    requires
        0 <= i <= s.len(),
    ensures
        dec_val(s.take(i)) <= dec_val(s),
    decreases s.len(),
{
    if i == s.len() {
        assert(s.take(i) =~= s);
    } else if s.len() > 0 {
        assert(s.drop_last().take(i) =~= s.take(i));
        lemma_dec_val_prefix_le(s.drop_last(), i);
    }
}

/// Parses `t[a..b]` as a decimal `u32`, yielding 0 on any failure.
pub fn parse_u32_range(t: &Vec<char>, a: usize, b: usize) -> (r: u32)
    requires
        a <= b <= t@.len(),
    ensures
        r == parsed_u32(t@.subrange(a as int, b as int)),
{
    let ghost s = t@.subrange(a as int, b as int);
    if a == b {
        return 0;
    }
    let mut acc: u64 = 0;
    let mut i: usize = a;
    while i < b
        invariant
            a <= i <= b <= t@.len(),
            s == t@.subrange(a as int, b as int),
            acc == dec_val(s.take(i - a)),
            acc <= u32::MAX,
            all_digits(s.take(i - a)),
        decreases b - i,
    {
        let c = t[i];
        if !('0' <= c && c <= '9') {
            assert(s[i - a] == c);
            assert(!all_digits(s));
            return 0;
        }
        let d: u64 = (c as u32 - 48) as u64;
        assert(s.take(i - a + 1).drop_last() =~= s.take(i - a));
        assert(s.take(i - a + 1).last() == c);
        acc = acc * 10 + d;
        i = i + 1;
        assert(acc == dec_val(s.take(i - a)));
        assert(all_digits(s.take(i - a)));
        if acc > 0xffff_ffffu64 {
            proof {
                lemma_dec_val_prefix_le(s, i - a);
            }
            assert(dec_val(s) > u32::MAX);
            return 0;
        }
    }
    assert(s.take(b - a) =~= s);
    acc as u32
}

/// Whether `t[a..b]` consists of digits only.
pub fn all_digits_range(t: &Vec<char>, a: usize, b: usize) -> (r: bool)
    requires
        a <= b <= t@.len(),
    ensures
        r == all_digits(t@.subrange(a as int, b as int)),
{
    let ghost s = t@.subrange(a as int, b as int);
    let mut i: usize = a;
    while i < b
        invariant
            a <= i <= b <= t@.len(),
            s == t@.subrange(a as int, b as int),
            forall|j: int| 0 <= j < i - a ==> is_digit_char(#[trigger] s[j]),
        decreases b - i,
    {
        let c = t[i];
        if !('0' <= c && c <= '9') {
            assert(s[i - a] == c);
            return false;
        }
        i = i + 1;
    }
    true
}

/// The decimal digit character for a value below ten.
pub open spec fn dec_digit_char(d: nat) -> char {
    ((d + 48) as u8) as char
}

/// The decimal representation of `n`, most significant digit first.
pub open spec fn dec_str(n: nat) -> Seq<char>
    decreases n,
{
    if n < 10 {
        seq![dec_digit_char(n)]
    } else {
        dec_str(n / 10).push(dec_digit_char(n % 10))
    }
}

/// Appends the decimal representation of `n`.
pub fn append_u32(s: &mut String, n: u32)
    ensures
        final(s)@ == old(s)@ + dec_str(n as nat),
    decreases n,
{
    if n < 10 {
        let c: char = ((n as u8) + 48) as char;
        assert(c == dec_digit_char(n as nat));
        crate::text::push_char(s, c);
        assert(s@ =~= old(s)@ + dec_str(n as nat));
    } else {
        append_u32(s, n / 10);
        let c: char = (((n % 10) as u8) + 48) as char;
        assert(c == dec_digit_char((n % 10) as nat));
        crate::text::push_char(s, c);
        assert(s@ =~= old(s)@ + dec_str(n as nat));
    }
}

/// The decimal representation of a signed value.
pub open spec fn dec_str_i32(y: int) -> Seq<char> {
    if y >= 0 {
        dec_str(y as nat)
    } else {
        seq!['-'] + dec_str((-y) as nat)
    }
}

/// Appends the decimal representation of `y`, with a leading minus sign when
/// negative.
pub fn append_i32(s: &mut String, y: i32)
    ensures
        final(s)@ == old(s)@ + dec_str_i32(y as int),
{
    if y >= 0 {
        append_u32(s, y as u32);
    } else {
        crate::text::push_char(s, '-');
        let m: i64 = -(y as i64);
        append_u32(s, m as u32);
        assert(s@ =~= old(s)@ + dec_str_i32(y as int));
    }
}

} // verus!
