//! Light-weight markup scanning: locating tags, reading quoted attribute
//! values, and collecting element text with nested tags stripped.
use vstd::prelude::*;
use crate::text::{matches_at, char_pos, is_space_char, find_at_within, chars_of, find_char,
    match_at, lemma_char_pos_some};

verus! {

/// An opening tag written as `pat` (for example `<a`) stands at `i`:
/// the text matches and the following character ends the tag name.
pub open spec fn tag_open_at(t: Seq<char>, pat: Seq<char>, i: int) -> bool {
    &&& matches_at(t, pat, i)
    &&& (i + pat.len() == t.len() || is_space_char(t[i + pat.len()]) || t[i + pat.len()] == '>'
        || t[i + pat.len()] == '/')
}

/// Leftmost opening tag `pat` at or after `from`.
pub open spec fn next_tag(t: Seq<char>, pat: Seq<char>, from: int) -> Option<int>
    decreases t.len() - from,
{
    if from < 0 || from + pat.len() > t.len() {
        None
    } else if tag_open_at(t, pat, from) {
        Some(from)
    } else {
        next_tag(t, pat, from + 1)
    }
}

pub proof fn lemma_next_tag_some(t: Seq<char>, pat: Seq<char>, from: int, i: int)
    requires
        next_tag(t, pat, from) == Some(i),
    ensures
        from <= i,
        i + pat.len() <= t.len(),
        tag_open_at(t, pat, i),
    decreases t.len() - from,
{
    if from < 0 || from + pat.len() > t.len() {
    } else if tag_open_at(t, pat, from) {
    } else {
        lemma_next_tag_some(t, pat, from + 1, i);
    }
}

/// Scans for the next opening tag `pat` at or after `from`.
pub fn find_tag(t: &Vec<char>, pat: &Vec<char>, from: usize) -> (r: Option<usize>)
    ensures
        (r matches Some(i) ==> next_tag(t@, pat@, from as int) == Some(i as int)),
        r is None ==> next_tag(t@, pat@, from as int) is None,
{
    let n: usize = t.len();
    let pn: usize = p_len(pat);
    if pn > n || from > n - pn {
        return None;
    }
    let mut i: usize = from;
    loop
        invariant
            from <= i,
            pn == pat@.len(),
            n == t@.len(),
            pn <= n,
            i + pn <= n + 1,
            next_tag(t@, pat@, from as int) == next_tag(t@, pat@, i as int),
        decreases n - i,
    {
        if i > n - pn {
            return None;
        }
        if match_at(t, pat, i) {
            let e: usize = i + pn;
            let ends = if e == n {
                true
            } else {
                let c = t[e];
                c == ' ' || c == '\t' || c == '\n' || c == '\r' || c == '>' || c == '/'
            };
            if ends {
                assert(tag_open_at(t@, pat@, i as int));
                return Some(i);
            }
        }
        assert(!tag_open_at(t@, pat@, i as int));
        i = i + 1;
    }
}

/// Plain length accessor, so callers can name the pattern length.
fn p_len(p: &Vec<char>) -> (r: usize)
    ensures
        r == p@.len(),
{
    p.len()
}

/// End of the tag whose `<` stands at `i`: the position of the next `>`,
/// or the text's end when the tag is unterminated.
pub open spec fn tag_close(t: Seq<char>, i: int) -> int {
    match char_pos(t, '>', i, t.len() as int) {
        Some(g) => g,
        None => t.len() as int,
    }
}

/// Finds the end of the tag opening at `i`.
pub fn find_tag_close(t: &Vec<char>, i: usize) -> (r: usize)
    requires
        i <= t@.len(),
    ensures
        r == tag_close(t@, i as int),
        i <= r <= t@.len(),
{
    let n: usize = t.len();
    match find_char(t, '>', i, n) {
        Some(g) => {
            proof {
                lemma_char_pos_some(t@, '>', i as int, n as int, g as int);
            }
            g
        },
        None => n,
    }
}

/// A quoted attribute value inside the tag region `[a, gt)`: the key text
/// (such as `href="`) followed by the value up to the closing quote.
pub open spec fn attr_val(t: Seq<char>, a: int, gt: int, key: Seq<char>, q: char) -> Option<
    (int, int),
> {
    match find_at_within(t, key, a, gt) {
        None => None,
        Some(k) => {
            let vs = k + key.len();
            match char_pos(t, q, vs, t.len() as int) {
                Some(ve) => Some((vs, ve)),
                None => None,
            }
        },
    }
}

proof fn lemma_find_at_within_some(t: Seq<char>, p: Seq<char>, from: int, end: int, i: int)
    requires
        find_at_within(t, p, from, end) == Some(i),
    ensures
        from <= i,
        i + p.len() <= end,
        end <= t.len(),
        matches_at(t, p, i),
    decreases end - from,
{
    if from < 0 || from + p.len() > end || end > t.len() {
    } else if matches_at(t, p, from) {
    } else {
        lemma_find_at_within_some(t, p, from + 1, end, i);
    }
}

/// Finds a quoted attribute value, as `attr_val` describes.
pub fn find_attr_val(t: &Vec<char>, a: usize, gt: usize, key: &Vec<char>, q: char) -> (r: Option<
    (usize, usize),
>)
    requires
        gt <= t@.len(),
    ensures
        (r matches Some(p) ==> attr_val(t@, a as int, gt as int, key@, q) == Some(
            (p.0 as int, p.1 as int),
        ) && a <= p.0 <= p.1 < t@.len()),
        r is None ==> attr_val(t@, a as int, gt as int, key@, q) is None,
{
    let n: usize = t.len();
    let pn: usize = p_len(key);
    if pn > gt || a > gt - pn {
        assert(attr_val(t@, a as int, gt as int, key@, q) is None) by {
            assert(find_at_within(t@, key@, a as int, gt as int) is None);
        }
        return None;
    }
    let mut i: usize = a;
    loop
        invariant
            a <= i,
            pn == key@.len(),
            n == t@.len(),
            pn <= gt <= n,
            i + pn <= gt + 1,
            find_at_within(t@, key@, a as int, gt as int) == find_at_within(
                t@,
                key@,
                i as int,
                gt as int,
            ),
        decreases gt - i,
    {
        if i > gt - pn {
            assert(find_at_within(t@, key@, i as int, gt as int) is None);
            return None;
        }
        if match_at(t, key, i) {
            proof {
                lemma_find_at_within_some(t@, key@, i as int, gt as int, i as int);
            }
            let vs: usize = i + pn;
            match find_char(t, q, vs, n) {
                Some(ve) => {
                    proof {
                        lemma_char_pos_some(t@, q, vs as int, n as int, ve as int);
                    }
                    return Some((vs, ve));
                },
                None => {
                    return None;
                },
            }
        }
        i = i + 1;
    }
}

/// The href value of the tag region `[a, gt)`: a double-quoted form first,
/// a single-quoted one as fallback.
pub open spec fn href_in_tag(t: Seq<char>, a: int, gt: int) -> Option<(int, int)> {
    match attr_val(t, a, gt, "href=\""@, '"') {
        Some(r) => Some(r),
        None => attr_val(t, a, gt, "href='"@, '\''),
    }
}

/// Finds the href value of a tag region.
pub fn find_href(t: &Vec<char>, a: usize, gt: usize) -> (r: Option<(usize, usize)>)
    requires
        gt <= t@.len(),
    ensures
        (r matches Some(p) ==> href_in_tag(t@, a as int, gt as int) == Some(
            (p.0 as int, p.1 as int),
        ) && a <= p.0 <= p.1 < t@.len()),
        r is None ==> href_in_tag(t@, a as int, gt as int) is None,
{
    match find_attr_val(t, a, gt, &chars_of("href=\""), '"') {
        Some(p) => Some(p),
        None => find_attr_val(t, a, gt, &chars_of("href='"), '\''),
    }
}

/// The text of `[from, end)` with every `<...>` tag stripped; text after
/// an unterminated tag is dropped.
pub open spec fn strip_tags_text(t: Seq<char>, from: int, end: int) -> Seq<char>
    decreases end - from,
{
    if from < 0 || from >= end || from >= t.len() {
        Seq::empty()
    } else if t[from] == '<' {
        match char_pos(t, '>', from + 1, end) {
            None => Seq::empty(),
            Some(g) => {
                if from < g + 1 <= end {
                    strip_tags_text(t, g + 1, end)
                } else {
                    Seq::empty()
                }
            },
        }
    } else {
        seq![t[from]] + strip_tags_text(t, from + 1, end)
    }
}

/// Collects the tag-stripped text of `[from, end)`.
pub fn collect_text(t: &Vec<char>, from: usize, end: usize) -> (r: Vec<char>)
    requires
        from <= end <= t@.len(),
    ensures
        r@ == strip_tags_text(t@, from as int, end as int),
{
    let mut r: Vec<char> = Vec::new();
    let mut pos: usize = from;
    assert(r@ + strip_tags_text(t@, from as int, end as int) =~= strip_tags_text(
        t@,
        from as int,
        end as int,
    ));
    loop
        invariant
            from <= pos <= end <= t@.len(),
            strip_tags_text(t@, from as int, end as int) == r@ + strip_tags_text(
                t@,
                pos as int,
                end as int,
            ),
        decreases end - pos,
    {
        if pos >= end {
            assert(strip_tags_text(t@, pos as int, end as int) =~= Seq::<char>::empty());
            assert(r@ =~= strip_tags_text(t@, from as int, end as int));
            return r;
        }
        let c = t[pos];
        if c == '<' {
            match find_char(t, '>', pos + 1, end) {
                None => {
                    assert(strip_tags_text(t@, pos as int, end as int) =~= Seq::<char>::empty());
                    assert(r@ =~= strip_tags_text(t@, from as int, end as int));
                    return r;
                },
                Some(g) => {
                    proof {
                        lemma_char_pos_some(t@, '>', pos + 1, end as int, g as int);
                    }
                    assert(pos < g + 1 <= end);
                    pos = g + 1;
                },
            }
        } else {
            let ghost r0 = r@;
            r.push(c);
            assert(r@ =~= r0 + seq![t@[pos as int]]);
            assert(r0 + (seq![t@[pos as int]] + strip_tags_text(t@, pos + 1, end as int)) =~= r@
                + strip_tags_text(t@, pos + 1, end as int));
            pos = pos + 1;
        }
    }
}

} // verus!
