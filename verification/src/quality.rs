//! Shared classification helpers: resolution inference from labels and
//! free-form text, container-format inference from URLs, the CDN-domain
//! predicate, duration and file-size chunk classification, and subtitle
//! label cleaning.
use vstd::prelude::*;
use vstd::string::StringSliceAdditionalSpecFns;
use vstd::utf8::{valid_utf8, decode_utf8, encode_utf8};
use crate::numbers::{is_digit_char, parsed_u32, parse_u32_range};
use crate::text::{matches_at, find_at, contains_seq, char_pos, last_char_pos, trim_seq,
    trim_bounds, chars_of, find_sub, find_char, rfind_char, match_at, string_of_range, vec_range,
    vec_eq, lemma_find_at_some, lemma_char_pos_some};
use crate::url::{pct_decode_bytes, decode_component};

verus! {

/// ASCII lowercase of one character.
pub open spec fn lower_char(c: char) -> char {
    if 'A' <= c && c <= 'Z' {
        ((c as u32 + 32) as u8) as char
    } else {
        c
    }
}

/// ASCII uppercase of one character.
pub open spec fn upper_char(c: char) -> char {
    if 'a' <= c && c <= 'z' {
        ((c as u32 - 32) as u8) as char
    } else {
        c
    }
}

pub open spec fn lower_seq(s: Seq<char>) -> Seq<char> {
    Seq::new(s.len(), |i: int| lower_char(s[i]))
}

pub open spec fn upper_seq(s: Seq<char>) -> Seq<char> {
    Seq::new(s.len(), |i: int| upper_char(s[i]))
}

/// The ASCII-uppercased copy of `t`.
pub fn upper_vec(t: &Vec<char>) -> (r: Vec<char>)
    ensures
        r@ == upper_seq(t@),
{
    let n: usize = t.len();
    let mut r: Vec<char> = Vec::new();
    let mut i: usize = 0;
    while i < n
        invariant
            0 <= i <= n,
            n == t@.len(),
            r@ == upper_seq(t@).take(i as int),
        decreases n - i,
    {
        let c = t[i];
        let uc: char = if 'a' <= c && c <= 'z' {
            ((c as u32 - 32) as u8) as char
        } else {
            c
        };
        assert(uc == upper_char(t@[i as int]));
        r.push(uc);
        assert(r@ =~= upper_seq(t@).take(i + 1));
        i = i + 1;
    }
    assert(r@ =~= upper_seq(t@));
    r
}

/// The ASCII-lowercased text of `t[a..b]`, as an owned string.
pub fn lower_string_range(t: &Vec<char>, a: usize, b: usize) -> (r: String)
    requires
        a <= b <= t@.len(),
    ensures
        r@ == lower_seq(t@.subrange(a as int, b as int)),
{
    let mut r = String::new();
    let mut i: usize = a;
    while i < b
        invariant
            a <= i <= b <= t@.len(),
            r@ == lower_seq(t@.subrange(a as int, i as int)),
        decreases b - i,
    {
        let c = t[i];
        let lc: char = if 'A' <= c && c <= 'Z' {
            ((c as u32 + 32) as u8) as char
        } else {
            c
        };
        assert(lc == lower_char(t@[i as int]));
        crate::text::push_char(&mut r, lc);
        assert(r@ =~= lower_seq(t@.subrange(a as int, i + 1)));
        i = i + 1;
    }
    r
}

// ---------------------------------------------------------------------
// Resolution inference
// ---------------------------------------------------------------------

/// Length of the label once trailing `p`/`P` characters are stripped.
pub open spec fn strip_p_end(s: Seq<char>) -> int
    decreases s.len(),
{
    if s.len() > 0 && (s.last() == 'p' || s.last() == 'P') {
        strip_p_end(s.drop_last())
    } else {
        s.len() as int
    }
}

/// Resolution encoded in a quality label: the label is trimmed, trailing
/// `p`s are stripped, and the remainder is read as a decimal number; 0 on
/// any failure.
pub open spec fn label_resolution(s: Seq<char>) -> u32 {
    let t = trim_seq(s);
    parsed_u32(t.take(strip_p_end(t)))
}

pub proof fn lemma_strip_p_end_bounds(s: Seq<char>)
    ensures
        0 <= strip_p_end(s) <= s.len(),
        forall|j: int| strip_p_end(s) <= j < s.len() ==> (s[j] == 'p' || s[j] == 'P'),
        strip_p_end(s) > 0 ==> !(s[strip_p_end(s) - 1] == 'p' || s[strip_p_end(s) - 1] == 'P'),
    decreases s.len(),
{
    if s.len() > 0 && (s.last() == 'p' || s.last() == 'P') {
        lemma_strip_p_end_bounds(s.drop_last());
        assert forall|j: int| strip_p_end(s) <= j < s.len() implies (s[j] == 'p' || s[j] == 'P') by {
            if j < s.len() - 1 {
                assert(s.drop_last()[j] == s[j]);
            }
        }
    }
}

proof fn lemma_strip_p_suffix(s: Seq<char>, b: int)
    requires
        0 < b <= s.len(),
        !(s[b - 1] == 'p' || s[b - 1] == 'P'),
        forall|j: int| b <= j < s.len() ==> (s[j] == 'p' || s[j] == 'P'),
    ensures
        strip_p_end(s) == b,
    decreases s.len(),
{
    if b == s.len() {
    } else {
        assert forall|j: int| b <= j < s.len() - 1 implies (s.drop_last()[j] == 'p'
            || s.drop_last()[j] == 'P') by {
            assert(s.drop_last()[j] == s[j]);
        }
        lemma_strip_p_suffix(s.drop_last(), b);
    }
}

/// Parses a numeric resolution from a quality label such as `1080p`.
pub fn parse_resolution_from_label(label: &str) -> (r: u32)
    ensures
        r == label_resolution(label@),
{
    let t = chars_of(label);
    let (a, b0) = trim_bounds(&t);
    let ghost tr = trim_seq(t@);
    assert(tr.take((b0 - a) as int) =~= tr);
    let mut b: usize = b0;
    while b > a
        invariant
            a <= b <= b0 <= t@.len(),
            t@ == label@,
            tr == trim_seq(label@),
            t@.subrange(a as int, b0 as int) == tr,
            strip_p_end(tr) == strip_p_end(tr.take(b - a)),
            b - a <= tr.len(),
        decreases b,
    {
        let c = t[b - 1];
        if !(c == 'p' || c == 'P') {
            proof {
                assert(tr.take(b - a).last() == t@[b - 1]);
                lemma_strip_p_end_bounds(tr.take(b - a));
            }
            assert(strip_p_end(tr.take(b - a)) == b - a) by {
                if b - a > 0 {
                    lemma_strip_p_suffix(tr.take(b - a), b - a);
                }
            }
            let r = parse_u32_range(&t, a, b);
            assert(t@.subrange(a as int, b as int) =~= tr.take(b - a));
            assert(tr.take(strip_p_end(tr)) =~= tr.take(b - a));
            return r;
        }
        proof {
            assert(tr.take(b - a).last() == t@[b - 1]);
            assert(tr.take(b - a).drop_last() =~= tr.take(b - a - 1));
        }
        b = b - 1;
    }
    assert(b == a);
    assert(strip_p_end(tr) == 0) by {
        assert(tr.take(0) =~= Seq::<char>::empty());
    }
    assert(tr.take(strip_p_end(tr)) =~= Seq::<char>::empty());
    0
}

/// A run of `k` digits starting at `i`, followed by the letter `p`.
pub open spec fn digits_then_p(s: Seq<char>, i: int, k: int) -> bool {
    &&& i >= 0
    &&& i + k < s.len()
    &&& forall|j: int| i <= j < i + k ==> is_digit_char(#[trigger] s[j])
    &&& s[i + k] == 'p'
}

/// Leftmost match of three-or-four digits followed by `p`, four digits
/// preferred at the same position, read as a number.
pub open spec fn res_scan(s: Seq<char>, i: int) -> Option<u32>
    decreases s.len() - i,
{
    if i < 0 || i >= s.len() {
        None
    } else if digits_then_p(s, i, 4) {
        Some(parsed_u32(s.subrange(i, i + 4)))
    } else if digits_then_p(s, i, 3) {
        Some(parsed_u32(s.subrange(i, i + 3)))
    } else {
        res_scan(s, i + 1)
    }
}

/// Resolution found in free-form text such as a filename: a 3-4 digit run
/// followed by `p`, or the token `4K`/`4k` meaning 2160; 0 otherwise.
pub open spec fn text_resolution(s: Seq<char>) -> u32 {
    match res_scan(s, 0) {
        Some(v) => v,
        None => if contains_seq(s, "4K"@) || contains_seq(s, "4k"@) {
            2160
        } else {
            0
        },
    }
}

/// Whether `k` digits then `p` stand at position `i`.
fn digit_run_p(t: &Vec<char>, i: usize, k: usize) -> (r: bool)
    requires
        i + k < t@.len(),
    ensures
        r == digits_then_p(t@, i as int, k as int),
{
    let n: usize = t.len();
    assert(i + k < n);
    let mut j: usize = 0;
    while j < k
        invariant
            0 <= j <= k,
            i + k < n,
            n == t@.len(),
            forall|q: int| i <= q < i + j ==> is_digit_char(#[trigger] t@[q]),
        decreases k - j,
    {
        let c = t[i + j];
        if !('0' <= c && c <= '9') {
            return false;
        }
        j = j + 1;
    }
    t[i + k] == 'p'
}

/// Finds a resolution pattern in free-form text (a filename, for example).
pub fn parse_resolution_from_text(text: &str) -> (r: u32)
    ensures
        r == text_resolution(text@),
{
    let t = chars_of(text);
    let n: usize = t.len();
    let mut i: usize = 0;
    while i < n
        invariant
            0 <= i <= n,
            n == t@.len(),
            t@ == text@,
            res_scan(t@, 0) == res_scan(t@, i as int),
        decreases n - i,
    {
        if n - i > 4 && digit_run_p(&t, i, 4) {
            assert(res_scan(t@, i as int) == Some(parsed_u32(t@.subrange(i as int, i + 4))));
            return parse_u32_range(&t, i, i + 4);
        }
        if n - i > 3 && digit_run_p(&t, i, 3) {
            assert(res_scan(t@, i as int) == Some(parsed_u32(t@.subrange(i as int, i + 3))));
            return parse_u32_range(&t, i, i + 3);
        }
        assert(!digits_then_p(t@, i as int, 4));
        assert(!digits_then_p(t@, i as int, 3));
        i = i + 1;
    }
    assert(res_scan(t@, 0) is None);
    if crate::text::contains_sub(&t, &chars_of("4K")) || crate::text::contains_sub(
        &t,
        &chars_of("4k"),
    ) {
        2160
    } else {
        0
    }
}

// ---------------------------------------------------------------------
// CDN predicate and chunk classification
// ---------------------------------------------------------------------

/// A URL counts as a CDN URL when its text carries the provider's domain
/// token.
pub open spec fn cdn_url_seq(u: Seq<char>) -> bool {
    contains_seq(u, "premiumcdn.net"@) || (contains_seq(u, "cdn."@) && contains_seq(
        u,
        "premium"@,
    ))
}

/// CDN predicate on a character vector.
pub fn is_cdn_vec(t: &Vec<char>) -> (r: bool)
    ensures
        r == cdn_url_seq(t@),
{
    if crate::text::contains_sub(t, &chars_of("premiumcdn.net")) {
        return true;
    }
    crate::text::contains_sub(t, &chars_of("cdn.")) && crate::text::contains_sub(
        t,
        &chars_of("premium"),
    )
}

/// Checks whether a URL points at the CDN file-serving domain.
pub fn is_cdn_url(url: &str) -> (r: bool)
    ensures
        r == cdn_url_seq(url@),
{
    let t = chars_of(url);
    is_cdn_vec(&t)
}

/// Number of occurrences of the character `c` in `s`.
pub open spec fn count_char(s: Seq<char>, c: char) -> nat
    decreases s.len(),
{
    if s.len() == 0 {
        0
    } else {
        (if s[0] == c {
            1nat
        } else {
            0nat
        }) + count_char(s.drop_first(), c)
    }
}

/// A duration chunk: one or two colons, every other character a digit.
pub open spec fn duration_format(s: Seq<char>) -> bool {
    &&& 1 <= count_char(s, ':') <= 2
    &&& forall|i: int| 0 <= i < s.len() ==> (is_digit_char(#[trigger] s[i]) || s[i] == ':')
}

/// Checks whether text matches the duration format (like `HH:MM:SS` or
/// `MM:SS`).
pub fn is_duration_format(text: &str) -> (r: bool)
    ensures
        r == duration_format(text@),
{
    let t = chars_of(text);
    is_duration_format_vec(&t)
}

/// Duration-format test on a character vector.
pub fn is_duration_format_vec(t: &Vec<char>) -> (r: bool)
    ensures
        r == duration_format(t@),
{
    let n: usize = t.len();
    let mut colons: usize = 0;
    let mut i: usize = 0;
    while i < n
        invariant
            0 <= i <= n,
            n == t@.len(),
            colons == count_char(t@.take(i as int), ':'),
            colons <= i,
            forall|j: int| 0 <= j < i ==> (is_digit_char(#[trigger] t@[j]) || t@[j] == ':'),
        decreases n - i,
    {
        let c = t[i];
        proof {
            lemma_count_char_push(t@.take(i as int), t@[i as int], ':');
            assert(t@.take(i as int).push(t@[i as int]) =~= t@.take(i + 1));
        }
        if c == ':' {
            colons = colons + 1;
        } else if !('0' <= c && c <= '9') {
            assert(!(is_digit_char(t@[i as int]) || t@[i as int] == ':'));
            assert(!duration_format(t@));
            return false;
        }
        i = i + 1;
    }
    assert(t@.take(n as int) =~= t@);
    1 <= colons && colons <= 2
}

proof fn lemma_count_char_push(s: Seq<char>, x: char, c: char)
    ensures
        count_char(s.push(x), c) == count_char(s, c) + (if x == c {
            1nat
        } else {
            0nat
        }),
    decreases s.len(),
{
    assert(s.push(x).len() == s.len() + 1);
    assert(s.push(x)[0] == if s.len() == 0 {
        x
    } else {
        s[0]
    });
    assert(count_char(s.push(x), c) == (if s.push(x)[0] == c {
        1nat
    } else {
        0nat
    }) + count_char(s.push(x).drop_first(), c));
    if s.len() == 0 {
        assert(s.push(x).drop_first() =~= Seq::<char>::empty());
        assert(count_char(s.push(x).drop_first(), c) == 0);
    } else {
        assert(s.push(x).drop_first() =~= s.drop_first().push(x));
        lemma_count_char_push(s.drop_first(), x, c);
    }
}

/// A chunk that mentions `HD`, compared without regard to case.
pub open spec fn contains_hd(s: Seq<char>) -> bool {
    contains_seq(upper_seq(s), "HD"@)
}

/// Case-insensitive `HD` test on a character vector.
pub fn contains_hd_vec(t: &Vec<char>) -> (r: bool)
    ensures
        r == contains_hd(t@),
{
    let u = upper_vec(t);
    crate::text::contains_sub(&u, &chars_of("HD"))
}

/// A file-size chunk: a size unit token beside at least one digit.
pub open spec fn file_size_format(s: Seq<char>) -> bool {
    &&& (contains_seq(upper_seq(s), "GB"@) || contains_seq(upper_seq(s), "MB"@) || contains_seq(
        upper_seq(s),
        "KB"@,
    ))
    &&& exists|i: int| 0 <= i < s.len() && is_digit_char(s[i])
}

/// Checks whether text looks like a file size (like `1.7 GB` or `500 MB`).
pub fn is_file_size_format(text: &str) -> (r: bool)
    ensures
        r == file_size_format(text@),
{
    let t = chars_of(text);
    is_file_size_format_vec(&t)
}

/// File-size-format test on a character vector.
pub fn is_file_size_format_vec(t: &Vec<char>) -> (r: bool)
    ensures
        r == file_size_format(t@),
{
    let u = upper_vec(&t);
    let unit = crate::text::contains_sub(&u, &chars_of("GB")) || crate::text::contains_sub(
        &u,
        &chars_of("MB"),
    ) || crate::text::contains_sub(&u, &chars_of("KB"));
    if !unit {
        return false;
    }
    let n: usize = t.len();
    let mut i: usize = 0;
    while i < n
        invariant
            0 <= i <= n,
            n == t@.len(),
            unit,
            unit == (contains_seq(upper_seq(t@), "GB"@) || contains_seq(upper_seq(t@), "MB"@)
                || contains_seq(upper_seq(t@), "KB"@)),
            forall|j: int| 0 <= j < i ==> !is_digit_char(#[trigger] t@[j]),
        decreases n - i,
    {
        let c = t[i];
        if '0' <= c && c <= '9' {
            assert(is_digit_char(t@[i as int]));
            return true;
        }
        i = i + 1;
    }
    assert(forall|j: int| 0 <= j < t@.len() ==> !is_digit_char(#[trigger] t@[j]));
    false
}

// ---------------------------------------------------------------------
// Filename and container format
// ---------------------------------------------------------------------

/// The raw `filename=` parameter inside the first query string of `u`,
/// scanning `&`-separated parameters in order.
pub open spec fn find_filename_param(u: Seq<char>, i: int, end: int) -> Option<Seq<char>>
    decreases end - i,
{
    if i < 0 || i > end {
        None
    } else {
        let se = match char_pos(u, '&', i, end) {
            Some(a) => a,
            None => end,
        };
        if matches_at(u, "filename="@, i) && i + 9 <= se {
            Some(u.subrange(i + 9, se))
        } else if i < se + 1 && se + 1 <= end {
            find_filename_param(u, se + 1, end)
        } else {
            None
        }
    }
}

/// The raw `filename=` value of `u`: parameters live between the first
/// `?` and the second `?` or the end.
pub open spec fn filename_value(u: Seq<char>) -> Option<Seq<char>> {
    match char_pos(u, '?', 0, u.len() as int) {
        None => None,
        Some(q1) => {
            let qe = match char_pos(u, '?', q1 + 1, u.len() as int) {
                Some(q2) => q2,
                None => u.len() as int,
            };
            find_filename_param(u, q1 + 1, qe)
        },
    }
}

/// Percent-decoding of a captured value, empty when the decoded bytes are
/// not valid UTF-8.
pub open spec fn decoded_or_empty(v: Seq<char>) -> Seq<char> {
    if valid_utf8(pct_decode_bytes(encode_utf8(v))) {
        decode_utf8(pct_decode_bytes(encode_utf8(v)))
    } else {
        Seq::empty()
    }
}

/// The decoded filename carried in the `filename=` query parameter of `u`.
pub open spec fn filename_of_url(u: Seq<char>) -> Option<Seq<char>> {
    match filename_value(u) {
        None => None,
        Some(v) => Some(decoded_or_empty(v)),
    }
}

/// Extracts and percent-decodes the `filename=` query parameter.
pub fn extract_filename_from_url(t: &Vec<char>) -> (r: Option<String>)
    ensures
        (r matches Some(f) ==> filename_of_url(t@) matches Some(g) && f@ == g),
        r is None ==> filename_of_url(t@) is None,
{
    let n: usize = t.len();
    let q1 = match find_char(t, '?', 0, n) {
        Some(q) => q,
        None => {
            return None;
        },
    };
    proof {
        lemma_char_pos_some(t@, '?', 0, n as int, q1 as int);
    }
    let qe: usize = match find_char(t, '?', q1 + 1, n) {
        Some(q2) => q2,
        None => n,
    };
    proof {
        match char_pos(t@, '?', q1 + 1, n as int) {
            Some(q2) => lemma_char_pos_some(t@, '?', q1 + 1, n as int, q2),
            None => (),
        }
    }
    let pat = chars_of("filename=");
    proof {
        reveal_strlit("filename=");
    }
    let mut i: usize = q1 + 1;
    loop
        invariant
            q1 + 1 <= i <= qe <= n,
            n == t@.len(),
            pat@ == "filename="@,
            pat@.len() == 9,
            char_pos(t@, '?', 0, n as int) == Some(q1 as int),
            qe as int == (match char_pos(t@, '?', q1 + 1, n as int) {
                Some(q2) => q2,
                None => n as int,
            }),
            find_filename_param(t@, q1 + 1, qe as int) == find_filename_param(
                t@,
                i as int,
                qe as int,
            ),
        decreases qe - i,
    {
        let se: usize = match find_char(t, '&', i, qe) {
            Some(a) => a,
            None => qe,
        };
        proof {
            match char_pos(t@, '&', i as int, qe as int) {
                Some(a) => lemma_char_pos_some(t@, '&', i as int, qe as int, a),
                None => (),
            }
        }
        if match_at(t, &pat, i) && i + 9 <= se {
            assert(find_filename_param(t@, i as int, qe as int) == Some(
                t@.subrange(i + 9, se as int),
            ));
            let v = string_of_range(t, i + 9, se);
            match decode_component(v.as_str()) {
                Some(d) => {
                    return Some(d);
                },
                None => {
                    let empty = String::new();
                    return Some(empty);
                },
            }
        }
        if se >= qe {
            return None;
        }
        i = se + 1;
    }
}

/// The ASCII-lowercased text after the last `.` before `end` (the whole
/// prefix when there is no dot).
pub open spec fn ext_of(s: Seq<char>, end: int) -> Seq<char> {
    match last_char_pos(s, '.', end) {
        Some(d) => lower_seq(s.subrange(d + 1, end)),
        None => lower_seq(s.subrange(0, end)),
    }
}

/// The fixed whitelist of container formats.
pub open spec fn whitelisted_ext(e: Seq<char>) -> bool {
    ||| e == "mp4"@
    ||| e == "mkv"@
    ||| e == "avi"@
    ||| e == "webm"@
    ||| e == "mov"@
    ||| e == "flv"@
    ||| e == "wmv"@
    ||| e == "m4v"@
}

/// The container format inferred from `u`: the decoded filename's
/// extension when whitelisted, else the URL path's extension when
/// whitelisted, else nothing.
pub open spec fn format_of_url(u: Seq<char>) -> Option<Seq<char>> {
    let from_name = match filename_of_url(u) {
        Some(f) => {
            let e = ext_of(f, f.len() as int);
            if whitelisted_ext(e) {
                Some(e)
            } else {
                None
            }
        },
        None => None,
    };
    match from_name {
        Some(e) => Some(e),
        None => {
            let pe = match char_pos(u, '?', 0, u.len() as int) {
                Some(q) => q,
                None => u.len() as int,
            };
            let e = ext_of(u, pe);
            if whitelisted_ext(e) {
                Some(e)
            } else {
                None
            }
        },
    }
}

/// Whether the lowercased extension string equals a whitelisted format.
fn check_whitelisted(e: &String) -> (r: bool)
    ensures
        r == whitelisted_ext(e@),
{
    let ev = chars_of(e.as_str());
    vec_eq(&ev, &chars_of("mp4")) || vec_eq(&ev, &chars_of("mkv")) || vec_eq(&ev, &chars_of("avi"))
        || vec_eq(&ev, &chars_of("webm")) || vec_eq(&ev, &chars_of("mov")) || vec_eq(
        &ev,
        &chars_of("flv"),
    ) || vec_eq(&ev, &chars_of("wmv")) || vec_eq(&ev, &chars_of("m4v"))
}

/// The lowercased extension of `t[..end]`, after its last dot.
fn ext_string(t: &Vec<char>, end: usize) -> (r: String)
    requires
        end <= t@.len(),
    ensures
        r@ == ext_of(t@, end as int),
{
    match rfind_char(t, '.', end) {
        Some(d) => lower_string_range(t, d + 1, end),
        None => lower_string_range(t, 0, end),
    }
}

/// Extracts the container format from a URL's `filename=` parameter or
/// path extension, against the fixed whitelist.
pub fn extract_format_from_url(url: &str) -> (r: Option<String>)
    ensures
        (r matches Some(f) ==> format_of_url(url@) matches Some(g) && f@ == g),
        r is None ==> format_of_url(url@) is None,
{
    let t = chars_of(url);
    format_from_vec(&t)
}

/// Container format, on a character vector.
pub fn format_from_vec(t: &Vec<char>) -> (r: Option<String>)
    ensures
        (r matches Some(f) ==> format_of_url(t@) matches Some(g) && f@ == g),
        r is None ==> format_of_url(t@) is None,
{
    let n: usize = t.len();
    match extract_filename_from_url(t) {
        Some(f) => {
            let fv = chars_of(f.as_str());
            let fn_len: usize = fv.len();
            let e = ext_string(&fv, fn_len);
            if check_whitelisted(&e) {
                return Some(e);
            }
        },
        None => {},
    }
    let pe: usize = match find_char(t, '?', 0, n) {
        Some(q) => q,
        None => n,
    };
    proof {
        match char_pos(t@, '?', 0, n as int) {
            Some(q) => lemma_char_pos_some(t@, '?', 0, n as int, q),
            None => (),
        }
    }
    let e = ext_string(t, pe);
    if check_whitelisted(&e) {
        Some(e)
    } else {
        None
    }
}

// ---------------------------------------------------------------------
// Subtitle labels
// ---------------------------------------------------------------------

/// Index just past the end of the first ` - `-separated part.
pub open spec fn first_sep_pos(s: Seq<char>) -> int {
    match find_at(s, " - "@, 0) {
        Some(i) => i,
        None => s.len() as int,
    }
}

/// Number of ` - ` separators, scanned left to right without overlap.
pub open spec fn sep_count(s: Seq<char>, from: int) -> nat
    decreases s.len() - from,
{
    match find_at(s, " - "@, from) {
        None => 0,
        Some(i) => {
            let next = if i + 3 > from {
                i + 3
            } else {
                from + 1
            };
            if next <= s.len() {
                1 + sep_count(s, next)
            } else {
                1
            }
        },
    }
}

/// Start of the last ` - `-separated part.
pub open spec fn last_part_start(s: Seq<char>, from: int) -> int
    decreases s.len() - from,
{
    match find_at(s, " - "@, from) {
        None => from,
        Some(i) => {
            let next = if i + 3 > from {
                i + 3
            } else {
                from + 1
            };
            if next <= s.len() {
                last_part_start(s, next)
            } else {
                from
            }
        },
    }
}

/// A cleaned subtitle label: the text before the first ` - ` separator,
/// trimmed.
pub open spec fn clean_label_spec(s: Seq<char>) -> Seq<char> {
    trim_seq(s.take(first_sep_pos(s)))
}

/// The language derived from a raw label: with three or more parts, the
/// last part trimmed; otherwise the first part trimmed and lowercased.
pub open spec fn label_language_spec(s: Seq<char>) -> Seq<char> {
    if sep_count(s, 0) >= 2 {
        trim_seq(s.skip(last_part_start(s, 0)))
    } else {
        lower_seq(trim_seq(s.take(first_sep_pos(s))))
    }
}

/// Cleans a subtitle label by keeping only its first ` - `-separated part.
pub fn clean_subtitle_label(raw: &str) -> (r: String)
    ensures
        r@ == clean_label_spec(raw@),
{
    let t = chars_of(raw);
    clean_label_vec(&t)
}

/// Label cleaning, on a character vector.
pub fn clean_label_vec(t: &Vec<char>) -> (r: String)
    ensures
        r@ == clean_label_spec(t@),
{
    let sep = chars_of(" - ");
    let n: usize = t.len();
    let e: usize = match find_sub(t, &sep, 0) {
        Some(i) => i,
        None => n,
    };
    proof {
        match find_at(t@, " - "@, 0) {
            Some(i) => lemma_find_at_some(t@, " - "@, 0, i),
            None => (),
        }
    }
    let part = vec_range(t, 0, e);
    let (a, b) = trim_bounds(&part);
    assert(part@ =~= t@.take(first_sep_pos(t@)));
    string_of_range(&part, a, b)
}

/// Derives the language code from a raw subtitle label.
pub fn extract_language_from_label(raw: &str) -> (r: String)
    ensures
        r@ == label_language_spec(raw@),
{
    let t = chars_of(raw);
    language_from_label_vec(&t)
}

/// Language derivation, on a character vector.
pub fn language_from_label_vec(t: &Vec<char>) -> (r: String)
    ensures
        r@ == label_language_spec(t@),
{
    let sep = chars_of(" - ");
    proof {
        reveal_strlit(" - ");
    }
    let n: usize = t.len();
    let mut from: usize = 0;
    let mut count: usize = 0;
    loop
        invariant
            0 <= from <= n,
            n == t@.len(),
            sep@ == " - "@,
            sep@.len() == 3,
            count <= from,
            sep_count(t@, 0) == count + sep_count(t@, from as int),
            last_part_start(t@, 0) == last_part_start(t@, from as int),
        ensures
            0 <= from <= n,
            count >= 2 ==> sep_count(t@, 0) >= 2,
            count < 2 ==> sep_count(t@, 0) < 2,
            last_part_start(t@, 0) == from,
        decreases n - from,
    {
        match find_sub(t, &sep, from) {
            Some(i) => {
                proof {
                    lemma_find_at_some(t@, " - "@, from as int, i as int);
                }
                count = count + 1;
                from = i + 3;
            },
            None => {
                assert(sep_count(t@, from as int) == 0);
                assert(last_part_start(t@, from as int) == from);
                break ;
            },
        }
    }
    if count >= 2 {
        let part = vec_range(t, from, n);
        assert(part@ =~= t@.skip(last_part_start(t@, 0)));
        let (a, b) = trim_bounds(&part);
        string_of_range(&part, a, b)
    } else {
        let e: usize = match find_sub(t, &sep, 0) {
            Some(i) => i,
            None => n,
        };
        proof {
            match find_at(t@, " - "@, 0) {
                Some(i) => lemma_find_at_some(t@, " - "@, 0, i),
                None => (),
            }
        }
        let part = vec_range(t, 0, e);
        assert(part@ =~= t@.take(first_sep_pos(t@)));
        let (a, b) = trim_bounds(&part);
        let ghost tr = trim_seq(part@);
        let r = lower_string_range(&part, a, b);
        assert(part@.subrange(a as int, b as int) == trim_seq(part@));
        r
    }
}

} // verus!
