//! HTML entity decoding for extracted URLs, built on a verified
//! find-and-replace pass, together with the laws that relate decoding to
//! the escaping it undoes.
use vstd::prelude::*;
use crate::text::{matches_at, find_at, contains_seq, lemma_find_at_some, lemma_find_at_none,
    chars_of, find_sub, string_of_range};

verus! {

/// Every non-overlapping occurrence of `p` in `t`, scanned left to right,
/// replaced by `r` — the meaning of `str::replace`.
pub open spec fn replace_seq(t: Seq<char>, p: Seq<char>, r: Seq<char>) -> Seq<char>
    decreases t.len(),
{
    if p.len() == 0 || t.len() < p.len() {
        t
    } else if matches_at(t, p, 0) {
        r + replace_seq(t.skip(p.len() as int), p, r)
    } else {
        seq![t[0]] + replace_seq(t.skip(1), p, r)
    }
}

/// An occurrence within a suffix is an occurrence of the whole.
pub proof fn lemma_matches_skip(t: Seq<char>, p: Seq<char>, d: int, i: int)
    requires
        0 <= d <= t.len(),
        0 <= i,
    ensures
        matches_at(t.skip(d), p, i) == matches_at(t, p, d + i),
{
    if matches_at(t.skip(d), p, i) {
        assert forall|j: int| 0 <= j < p.len() implies t[d + i + j] == p[j] by {
            assert(t.skip(d)[i + j] == t[d + i + j]);
        }
    }
    if matches_at(t, p, d + i) && i + p.len() <= t.skip(d).len() {
        assert forall|j: int| 0 <= j < p.len() implies t.skip(d)[i + j] == p[j] by {
            assert(t.skip(d)[i + j] == t[d + i + j]);
        }
    }
}

/// Text free of the pattern is left unchanged.
pub proof fn lemma_replace_absent(t: Seq<char>, p: Seq<char>, r: Seq<char>)
    requires
        forall|j: int| 0 <= j ==> !matches_at(t, p, j),
    ensures
        replace_seq(t, p, r) == t,
    decreases t.len(),
{
    if p.len() == 0 || t.len() < p.len() {
    } else {
        assert(!matches_at(t, p, 0));
        assert forall|j: int| 0 <= j implies !matches_at(t.skip(1), p, j) by {
            lemma_matches_skip(t, p, 1, j);
        }
        lemma_replace_absent(t.skip(1), p, r);
        assert(seq![t[0]] + t.skip(1) =~= t);
    }
}

/// Unfolds the scan across a region without matches up to the first match.
pub proof fn lemma_replace_step(t: Seq<char>, p: Seq<char>, r: Seq<char>, i: int)
    requires
        p.len() > 0,
        matches_at(t, p, i),
        forall|j: int| 0 <= j < i ==> !matches_at(t, p, j),
    ensures
        replace_seq(t, p, r) == t.take(i) + r + replace_seq(t.skip(i + p.len()), p, r),
    decreases i,
{
    if i == 0 {
        assert(t.take(0) + r =~= r);
    } else {
        assert(t.len() >= p.len());
        assert(!matches_at(t, p, 0));
        assert forall|j: int| 0 <= j < i - 1 implies !matches_at(t.skip(1), p, j) by {
            lemma_matches_skip(t, p, 1, j);
        }
        lemma_matches_skip(t, p, 1, i - 1);
        lemma_replace_step(t.skip(1), p, r, i - 1);
        assert(t.skip(1).take(i - 1) =~= t.take(i).skip(1));
        assert(t.skip(1).skip(i - 1 + p.len()) =~= t.skip(i + p.len()));
        assert(seq![t[0]] + (t.take(i).skip(1) + r + replace_seq(t.skip(i + p.len()), p, r))
            =~= t.take(i) + r + replace_seq(t.skip(i + p.len()), p, r));
    }
}

/// If no match occurs at or after `pos`, the tail is copied verbatim.
pub proof fn lemma_replace_tail_absent(t: Seq<char>, p: Seq<char>, r: Seq<char>, pos: int)
    requires
        0 <= pos <= t.len(),
        forall|j: int| pos <= j ==> !matches_at(t, p, j),
    ensures
        replace_seq(t.skip(pos), p, r) == t.skip(pos),
{
    assert forall|j: int| 0 <= j implies !matches_at(t.skip(pos), p, j) by {
        lemma_matches_skip(t, p, pos, j);
    }
    lemma_replace_absent(t.skip(pos), p, r);
}

/// `str::replace`, verified: every leftmost non-overlapping occurrence of
/// `p` in `t` becomes `r`.
pub fn replace_vec(t: &Vec<char>, p: &Vec<char>, r: &Vec<char>) -> (out: Vec<char>)
    requires
        p@.len() > 0,
    ensures
        out@ == replace_seq(t@, p@, r@),
{
    let tn: usize = t.len();
    let mut out: Vec<char> = Vec::new();
    let mut pos: usize = 0;
    assert(out@ + replace_seq(t@.skip(0), p@, r@) =~= replace_seq(t@, p@, r@)) by {
        assert(t@.skip(0) =~= t@);
    }
    loop
        invariant
            0 <= pos <= t@.len(),
            tn == t@.len(),
            p@.len() > 0,
            replace_seq(t@, p@, r@) == out@ + replace_seq(t@.skip(pos as int), p@, r@),
        decreases t@.len() - pos,
    {
        match find_sub(t, p, pos) {
            Some(i) => {
                proof {
                    lemma_find_at_some(t@, p@, pos as int, i as int);
                }
                let ghost out0 = out@;
                let mut k: usize = pos;
                while k < i
                    invariant
                        pos <= k <= i <= t@.len(),
                        out@ == out0 + t@.subrange(pos as int, k as int),
                    decreases i - k,
                {
                    out.push(t[k]);
                    assert(out@ =~= out0 + t@.subrange(pos as int, k + 1));
                    k = k + 1;
                }
                let ghost out1 = out@;
                let rn: usize = r.len();
                let mut j: usize = 0;
                while j < rn
                    invariant
                        0 <= j <= rn,
                        rn == r@.len(),
                        out@ == out1 + r@.take(j as int),
                    decreases rn - j,
                {
                    out.push(r[j]);
                    assert(out@ =~= out1 + r@.take(j + 1));
                    j = j + 1;
                }
                proof {
                    lemma_find_at_some(t@, p@, pos as int, i as int);
                    assert forall|q: int| 0 <= q < i - pos implies !matches_at(
                        t@.skip(pos as int), p@, q) by {
                        lemma_matches_skip(t@, p@, pos as int, q);
                    }
                    lemma_matches_skip(t@, p@, pos as int, i - pos);
                    lemma_replace_step(t@.skip(pos as int), p@, r@, i - pos);
                    assert(t@.skip(pos as int).take(i - pos) =~= t@.subrange(pos as int, i as int));
                    assert(t@.skip(pos as int).skip(i - pos + p@.len()) =~= t@.skip(
                        i + p@.len()));
                    assert(r@.take(rn as int) =~= r@);
                    assert(out@ + replace_seq(t@.skip(i + p@.len()), p@, r@) =~= out0
                        + replace_seq(t@.skip(pos as int), p@, r@));
                }
                pos = i + p.len();
            },
            None => {
                proof {
                    lemma_find_at_none(t@, p@, pos as int);
                    lemma_replace_tail_absent(t@, p@, r@, pos as int);
                }
                let ghost out0 = out@;
                let n: usize = t.len();
                let mut k: usize = pos;
                while k < n
                    invariant
                        pos <= k <= n,
                        n == t@.len(),
                        out@ == out0 + t@.subrange(pos as int, k as int),
                    decreases n - k,
                {
                    out.push(t[k]);
                    assert(out@ =~= out0 + t@.subrange(pos as int, k + 1));
                    k = k + 1;
                }
                assert(t@.subrange(pos as int, n as int) =~= t@.skip(pos as int));
                return out;
            },
        }
    }
}

/// The five escapes that decoding undoes, applied as successive
/// whole-string replacements in this order.
pub open spec fn decode_entities_seq(s: Seq<char>) -> Seq<char> {
    replace_seq(
        replace_seq(
            replace_seq(
                replace_seq(replace_seq(s, "&amp;"@, "&"@), "&lt;"@, "<"@),
                "&gt;"@,
                ">"@,
            ),
            "&quot;"@,
            "\""@,
        ),
        "&#39;"@,
        "'"@,
    )
}

/// `s` holds at least one of the five escape sequences.
pub open spec fn has_entity(s: Seq<char>) -> bool {
    ||| contains_seq(s, "&amp;"@)
    ||| contains_seq(s, "&lt;"@)
    ||| contains_seq(s, "&gt;"@)
    ||| contains_seq(s, "&quot;"@)
    ||| contains_seq(s, "&#39;"@)
}

/// Decodes the five HTML escapes in a URL captured from markup:
/// `&amp;` to `&`, `&lt;` to `<`, `&gt;` to `>`, `&quot;` to `"`,
/// `&#39;` to `'`, each pass running left to right over the whole string.
pub fn decode_html_entities(url: &str) -> (r: String)
    ensures
        r@ == decode_entities_seq(url@),
{
    proof {
        reveal_strlit("&amp;");
        reveal_strlit("&lt;");
        reveal_strlit("&gt;");
        reveal_strlit("&quot;");
        reveal_strlit("&#39;");
    }
    let t = chars_of(url);
    let s1 = replace_vec(&t, &chars_of("&amp;"), &chars_of("&"));
    let s2 = replace_vec(&s1, &chars_of("&lt;"), &chars_of("<"));
    let s3 = replace_vec(&s2, &chars_of("&gt;"), &chars_of(">"));
    let s4 = replace_vec(&s3, &chars_of("&quot;"), &chars_of("\""));
    let s5 = replace_vec(&s4, &chars_of("&#39;"), &chars_of("'"));
    let n: usize = s5.len();
    let r = string_of_range(&s5, 0, n);
    proof {
        assert(s5@.subrange(0, n as int) =~= s5@);
    }
    r
}

/// Decoding a vector in place, for callers that hold character vectors.
pub fn decode_entities_vec(t: &Vec<char>) -> (r: Vec<char>)
    ensures
        r@ == decode_entities_seq(t@),
{
    proof {
        reveal_strlit("&amp;");
        reveal_strlit("&lt;");
        reveal_strlit("&gt;");
        reveal_strlit("&quot;");
        reveal_strlit("&#39;");
    }
    let s1 = replace_vec(t, &chars_of("&amp;"), &chars_of("&"));
    let s2 = replace_vec(&s1, &chars_of("&lt;"), &chars_of("<"));
    let s3 = replace_vec(&s2, &chars_of("&gt;"), &chars_of(">"));
    let s4 = replace_vec(&s3, &chars_of("&quot;"), &chars_of("\""));
    replace_vec(&s4, &chars_of("&#39;"), &chars_of("'"))
}

/// A string free of a pattern is unchanged by replacing that pattern.
pub proof fn lemma_replace_no_occurrence(t: Seq<char>, p: Seq<char>, r: Seq<char>)
    requires
        !contains_seq(t, p),
    ensures
        replace_seq(t, p, r) == t,
{
    lemma_find_at_none(t, p, 0);
    assert forall|j: int| 0 <= j implies !matches_at(t, p, j) by {}
    assert forall|j: int| !matches_at(t, p, j) by {
        if j < 0 {
        }
    }
    lemma_replace_absent(t, p, r);
}

/// LAW: a string containing none of the five escapes decodes to itself.
pub proof fn law_decode_fixed_point(s: Seq<char>)
    requires
        !has_entity(s),
    ensures
        decode_entities_seq(s) == s,
{
    lemma_replace_no_occurrence(s, "&amp;"@, "&"@);
    lemma_replace_no_occurrence(s, "&lt;"@, "<"@);
    lemma_replace_no_occurrence(s, "&gt;"@, ">"@);
    lemma_replace_no_occurrence(s, "&quot;"@, "\""@);
    lemma_replace_no_occurrence(s, "&#39;"@, "'"@);
}

/// LAW: decoding is idempotent on every input whose decoded form is free of
/// further escapes. (A doubly-escaped input, where the first pass itself
/// produces a fresh escape, is decoded once more by a second pass and is the
/// reason for the proviso.)
pub proof fn law_decode_idempotent(s: Seq<char>)
    requires
        !has_entity(decode_entities_seq(s)),
    ensures
        decode_entities_seq(decode_entities_seq(s)) == decode_entities_seq(s),
{
    law_decode_fixed_point(decode_entities_seq(s));
}

/// The escaping that decoding undoes: `&` first, then `<`, `>`, `"`, `'`,
/// each as a whole-string replacement.
pub open spec fn encode_entities_seq(s: Seq<char>) -> Seq<char> {
    replace_seq(
        replace_seq(
            replace_seq(
                replace_seq(replace_seq(s, "&"@, "&amp;"@), "<"@, "&lt;"@),
                ">"@,
                "&gt;"@,
            ),
            "\""@,
            "&quot;"@,
        ),
        "'"@,
        "&#39;"@,
    )
}

/// The five escaped characters, ranked in the order the passes run.
pub open spec fn is_special_char(c: char) -> bool {
    c == '&' || c == '<' || c == '>' || c == '"' || c == '\''
}

pub open spec fn special_rank(c: char) -> int {
    if c == '&' {
        1
    } else if c == '<' {
        2
    } else if c == '>' {
        3
    } else if c == '"' {
        4
    } else if c == '\'' {
        5
    } else {
        6
    }
}

pub open spec fn entity_of(k: int) -> Seq<char> {
    if k == 1 {
        "&amp;"@
    } else if k == 2 {
        "&lt;"@
    } else if k == 3 {
        "&gt;"@
    } else if k == 4 {
        "&quot;"@
    } else {
        "&#39;"@
    }
}

pub open spec fn plain_of(k: int) -> char {
    if k == 1 {
        '&'
    } else if k == 2 {
        '<'
    } else if k == 3 {
        '>'
    } else if k == 4 {
        '"'
    } else {
        '\''
    }
}

/// The text after the decode passes `1..=k` have run over fully escaped
/// input: specials of rank at most `k` stand plain, the rest escaped.
pub open spec fn dmap(s: Seq<char>, k: int) -> Seq<char>
    decreases s.len(),
{
    if s.len() == 0 {
        Seq::empty()
    } else {
        let b = if is_special_char(s[0]) && special_rank(s[0]) > k {
            entity_of(special_rank(s[0]))
        } else {
            seq![s[0]]
        };
        b + dmap(s.drop_first(), k)
    }
}

/// The text after the encode passes `1..=j` have run: specials of rank at
/// most `j` stand escaped, the rest still plain.
pub open spec fn emap(s: Seq<char>, j: int) -> Seq<char>
    decreases s.len(),
{
    if s.len() == 0 {
        Seq::empty()
    } else {
        let b = if is_special_char(s[0]) && special_rank(s[0]) <= j {
            entity_of(special_rank(s[0]))
        } else {
            seq![s[0]]
        };
        b + emap(s.drop_first(), j)
    }
}

proof fn lemma_reveal_entities()
    ensures
        entity_of(1).len() == 5 && entity_of(1)[0] == '&' && entity_of(1)[1] == 'a' && entity_of(
            1,
        )[2] == 'm' && entity_of(1)[3] == 'p' && entity_of(1)[4] == ';',
        entity_of(2).len() == 4 && entity_of(2)[0] == '&' && entity_of(2)[1] == 'l' && entity_of(
            2,
        )[2] == 't' && entity_of(2)[3] == ';',
        entity_of(3).len() == 4 && entity_of(3)[0] == '&' && entity_of(3)[1] == 'g' && entity_of(
            3,
        )[2] == 't' && entity_of(3)[3] == ';',
        entity_of(4).len() == 6 && entity_of(4)[0] == '&' && entity_of(4)[1] == 'q' && entity_of(
            4,
        )[2] == 'u' && entity_of(4)[3] == 'o' && entity_of(4)[4] == 't' && entity_of(4)[5] == ';',
        entity_of(5).len() == 5 && entity_of(5)[0] == '&' && entity_of(5)[1] == '#' && entity_of(
            5,
        )[2] == '3' && entity_of(5)[3] == '9' && entity_of(5)[4] == ';',
{
    reveal_strlit("&amp;");
    reveal_strlit("&lt;");
    reveal_strlit("&gt;");
    reveal_strlit("&quot;");
    reveal_strlit("&#39;");
}

/// With every rank plain, the staged map is the text itself.
proof fn lemma_dmap_full(s: Seq<char>)
    ensures
        dmap(s, 5) == s,
        emap(s, 0) == s,
    decreases s.len(),
{
    if s.len() > 0 {
        lemma_dmap_full(s.drop_first());
        assert(dmap(s, 5) =~= s);
        assert(emap(s, 0) =~= s);
    }
}

/// Fully escaped text reads the same from both stagings.
proof fn lemma_emap_full(s: Seq<char>)
    ensures
        emap(s, 5) == dmap(s, 0),
    decreases s.len(),
{
    if s.len() > 0 {
        lemma_emap_full(s.drop_first());
    }
}

/// An occurrence anywhere makes the text contain the pattern.
pub proof fn lemma_matches_implies_contains(s: Seq<char>, p: Seq<char>, i: int)
    requires
        matches_at(s, p, i),
    ensures
        contains_seq(s, p),
{
    if find_at(s, p, 0) is None {
        lemma_find_at_none(s, p, 0);
    }
}

/// A pattern absent from the whole is absent from the tail.
proof fn lemma_not_contains_tail(s: Seq<char>, p: Seq<char>)
    requires
        !contains_seq(s, p),
        s.len() > 0,
    ensures
        !contains_seq(s.drop_first(), p),
{
    if contains_seq(s.drop_first(), p) {
        lemma_find_at_some(s.drop_first(), p, 0, find_at(s.drop_first(), p, 0)->0);
        let i = find_at(s.drop_first(), p, 0)->0;
        assert(s.drop_first() =~= s.skip(1));
        lemma_matches_skip(s, p, 1, i);
        lemma_matches_implies_contains(s, p, i + 1);
    }
}

/// If the pattern matches nowhere inside the leading block, replacement
/// walks past the block untouched.
proof fn lemma_replace_concat_nomatch(a: Seq<char>, b: Seq<char>, p: Seq<char>, r: Seq<char>)
    requires
        p.len() > 0,
        forall|j: int| 0 <= j < a.len() ==> !matches_at(a + b, p, j),
    ensures
        replace_seq(a + b, p, r) == a + replace_seq(b, p, r),
    decreases a.len(),
{
    let t = a + b;
    if a.len() == 0 {
        assert(t =~= b);
        assert(a + replace_seq(b, p, r) =~= replace_seq(b, p, r));
    } else if t.len() < p.len() {
        assert(b.len() < p.len());
        assert(replace_seq(b, p, r) == b);
        assert(a + b =~= t);
    } else {
        assert(!matches_at(t, p, 0));
        assert(t.skip(1) =~= a.skip(1) + b);
        assert forall|j: int| 0 <= j < a.skip(1).len() implies !matches_at(
            a.skip(1) + b, p, j) by {
            lemma_matches_skip(t, p, 1, j);
        }
        lemma_replace_concat_nomatch(a.skip(1), b, p, r);
        assert(seq![t[0]] + (a.skip(1) + replace_seq(b, p, r)) =~= a + replace_seq(b, p, r));
    }
}

/// Plain, non-special text showing at the front of a staged map must
/// stand verbatim at the front of the underlying text.
proof fn lemma_dmap_plain_prefix(x: Seq<char>, w: Seq<char>, k: int)
    requires
        forall|j: int| 0 <= j < w.len() ==> !is_special_char(#[trigger] w[j]),
        dmap(x, k).len() >= w.len(),
        forall|j: int| 0 <= j < w.len() ==> dmap(x, k)[j] == w[j],
    ensures
        x.len() >= w.len(),
        forall|j: int| 0 <= j < w.len() ==> x[j] == w[j],
    decreases w.len(),
{
    lemma_reveal_entities();
    if w.len() > 0 {
        assert(x.len() > 0);
        let b = if is_special_char(x[0]) && special_rank(x[0]) > k {
            entity_of(special_rank(x[0]))
        } else {
            seq![x[0]]
        };
        assert(dmap(x, k) == b + dmap(x.drop_first(), k));
        assert(b[0] == dmap(x, k)[0]);
        if is_special_char(x[0]) && special_rank(x[0]) > k {
            assert(b[0] == '&');
            assert(w[0] == '&');
            assert(is_special_char(w[0]));
            assert(false);
        }
        assert(x[0] == w[0]);
        assert forall|j: int| 0 <= j < w.len() - 1 implies dmap(x.drop_first(), k)[j] == w.skip(
            1,
        )[j] by {
            assert(dmap(x, k)[j + 1] == dmap(x.drop_first(), k)[j]);
            assert(w[j + 1] == w.skip(1)[j]);
        }
        lemma_dmap_plain_prefix(x.drop_first(), w.skip(1), k);
        assert forall|j: int| 0 <= j < w.len() implies x[j] == w[j] by {
            if j > 0 {
                assert(x.drop_first()[j - 1] == w.skip(1)[j - 1]);
            }
        }
    }
}

/// Shared character facts about the five escapes: every escape starts
/// with an ampersand, continues with non-special characters, and is told
/// from the others by its second character.
proof fn lemma_entity_facts()
    ensures
        forall|rk: int, q: int|
            1 <= rk <= 5 && 1 <= q < entity_of(rk).len() ==> !is_special_char(
                #[trigger] entity_of(rk)[q],
            ),
        forall|rk: int| 1 <= rk <= 5 ==> (#[trigger] entity_of(rk))[0] == '&',
        forall|r1: int, r2: int|
            1 <= r1 <= 5 && 1 <= r2 <= 5 && r1 != r2 ==> (#[trigger] entity_of(r1))[1] != (
            #[trigger] entity_of(r2))[1],
        forall|rk: int| 1 <= rk <= 5 ==> (#[trigger] entity_of(rk)).len() >= 4,
{
    lemma_reveal_entities();
    assert forall|rk: int, q: int|
        1 <= rk <= 5 && 1 <= q < entity_of(rk).len() implies !is_special_char(
        entity_of(rk)[q]) by {
        if rk == 1 {
            assert(entity_of(rk)[q] == 'a' || entity_of(rk)[q] == 'm' || entity_of(rk)[q] == 'p'
                || entity_of(rk)[q] == ';');
        } else if rk == 2 {
            assert(entity_of(rk)[q] == 'l' || entity_of(rk)[q] == 't' || entity_of(rk)[q] == ';');
        } else if rk == 3 {
            assert(entity_of(rk)[q] == 'g' || entity_of(rk)[q] == 't' || entity_of(rk)[q] == ';');
        } else if rk == 4 {
            assert(entity_of(rk)[q] == 'q' || entity_of(rk)[q] == 'u' || entity_of(rk)[q] == 'o'
                || entity_of(rk)[q] == 't' || entity_of(rk)[q] == ';');
        } else {
            assert(entity_of(rk)[q] == '#' || entity_of(rk)[q] == '3' || entity_of(rk)[q] == '9'
                || entity_of(rk)[q] == ';');
        }
    }
}

/// One encode pass escapes exactly the next rank: nothing in the already
/// escaped blocks carries the pass's character.
proof fn lemma_encode_stage(s: Seq<char>, j: int)
    requires
        1 <= j <= 5,
    ensures
        replace_seq(emap(s, j - 1), seq![plain_of(j)], entity_of(j)) == emap(s, j),
    decreases s.len(),
{
    lemma_reveal_entities();
    lemma_entity_facts();
    let t = emap(s, j - 1);
    if s.len() == 0 {
        assert(t.len() == 0);
    } else {
        let c = s[0];
        let rest = s.drop_first();
        lemma_encode_stage(rest, j);
        if is_special_char(c) && special_rank(c) == j {
            // this pass escapes c: the block is the single character
            assert(t == seq![c] + emap(rest, j - 1));
            assert(t.len() >= 1);
            assert(t[0] == c);
            assert(matches_at(t, seq![plain_of(j)], 0));
            assert(t.skip(1) =~= emap(rest, j - 1));
            assert(replace_seq(t, seq![plain_of(j)], entity_of(j)) == entity_of(j) + replace_seq(
                emap(rest, j - 1),
                seq![plain_of(j)],
                entity_of(j),
            ));
            assert(emap(s, j) == entity_of(j) + emap(rest, j));
        } else {
            let b = if is_special_char(c) && special_rank(c) <= j - 1 {
                entity_of(special_rank(c))
            } else {
                seq![c]
            };
            assert(t == b + emap(rest, j - 1));
            assert forall|q: int| 0 <= q < b.len() implies !matches_at(
                t, seq![plain_of(j)], q) by {
                assert(t[q] == b[q]);
                assert(is_special_char(plain_of(j)));
                if is_special_char(c) && special_rank(c) <= j - 1 {
                    assert(j >= 2);
                    if q == 0 {
                        assert(b[0] == '&');
                        assert(plain_of(j) != '&');
                    } else {
                        assert(!is_special_char(b[q]));
                    }
                    assert(b[q] != plain_of(j));
                } else {
                    assert(b[q] == c);
                    assert(c != plain_of(j));
                }
                assert(t[q] != seq![plain_of(j)][0]);
            }
            lemma_replace_concat_nomatch(b, emap(rest, j - 1), seq![plain_of(j)], entity_of(j));
            assert(emap(s, j) == b + emap(rest, j));
        }
    }
}

/// No occurrence of this pass's escape starts inside the leading block of
/// the staged text, given the underlying text does not spell the escape.
#[verifier::rlimit(100)]
proof fn lemma_decode_block_no_match(s: Seq<char>, k: int)
    requires
        1 <= k <= 5,
        k >= 2 ==> !contains_seq(s, entity_of(k)),
        s.len() > 0,
        !(is_special_char(s[0]) && special_rank(s[0]) == k),
    ensures
        forall|q: int|
            0 <= q < dmap(seq![s[0]], k - 1).len() ==> !(#[trigger] matches_at(
                dmap(s, k - 1),
                entity_of(k),
                q,
            )),
{
    lemma_reveal_entities();
    lemma_entity_facts();
    let c = s[0];
    let rest = s.drop_first();
    let t = dmap(s, k - 1);
    let p = entity_of(k);
    let b = if is_special_char(c) && special_rank(c) > k - 1 {
        entity_of(special_rank(c))
    } else {
        seq![c]
    };
    assert(dmap(seq![c], k - 1) =~= b) by {
        assert(seq![c].len() == 1);
        assert(seq![c][0] == c);
        assert(seq![c].drop_first() =~= Seq::<char>::empty());
        assert(dmap(Seq::<char>::empty(), k - 1) =~= Seq::<char>::empty());
        assert(dmap(seq![c], k - 1) == b + dmap(seq![c].drop_first(), k - 1));
        assert(b + Seq::<char>::empty() =~= b);
    }
    assert(t == b + dmap(rest, k - 1));
    assert forall|q: int| 0 <= q < b.len() implies !matches_at(t, p, q) by {
        if matches_at(t, p, q) {
            assert(t[q] == p[0]);
            assert(p[0] == '&');
            assert(t[q] == b[q]);
            if is_special_char(c) && special_rank(c) > k - 1 {
                // inside another escape block: only its first character
                // is an ampersand, and second characters of distinct
                // escapes differ
                let rk = special_rank(c);
                if q >= 1 {
                    assert(!is_special_char(b[q]));
                    assert(b[q] != '&');
                    assert(false);
                }
                assert(q == 0);
                assert(rk != k);
                assert(b.len() >= 2);
                assert(t[1] == b[1]);
                assert(p.len() >= 2);
                assert(t[1] == p[1]);
                assert(entity_of(rk)[1] != entity_of(k)[1]);
                assert(false);
            } else {
                // a plain character block: the matched ampersand is the
                // input's own, so the escape's tail must be plain input
                // text and the input would spell the escape
                assert(q == 0);
                assert(c == '&');
                assert(k >= 2);
                let w = p.skip(1);
                assert forall|z: int| 0 <= z < w.len() implies !is_special_char(
                    #[trigger] w[z]) by {
                    assert(w[z] == p[z + 1]);
                }
                assert forall|z: int| 0 <= z < w.len() implies dmap(rest, k - 1)[z] == w[z] by {
                    assert(t[z + 1] == p[z + 1]);
                    assert(t[z + 1] == dmap(rest, k - 1)[z]);
                    assert(w[z] == p[z + 1]);
                }
                lemma_dmap_plain_prefix(rest, w, k - 1);
                assert(matches_at(s, p, 0)) by {
                    assert forall|z: int| 0 <= z < p.len() implies s[z] == p[z] by {
                        if z > 0 {
                            assert(rest[z - 1] == w[z - 1]);
                            assert(s[z] == rest[z - 1]);
                        }
                    }
                }
                lemma_matches_implies_contains(s, p, 0);
                assert(false);
            }
        }
    }
}

/// One decode pass unescapes exactly the next rank. For ranks past the
/// first, the input text must not itself spell that rank's escape, or a
/// plain ampersand would fuse with following text into a fresh escape.
#[verifier::rlimit(100)]
proof fn lemma_decode_stage(s: Seq<char>, k: int)
    requires
        1 <= k <= 5,
        k >= 2 ==> !contains_seq(s, entity_of(k)),
    ensures
        replace_seq(dmap(s, k - 1), entity_of(k), seq![plain_of(k)]) == dmap(s, k),
    decreases s.len(),
{
    lemma_reveal_entities();
    let t = dmap(s, k - 1);
    let p = entity_of(k);
    if s.len() == 0 {
        assert(t.len() == 0);
    } else {
        let c = s[0];
        let rest = s.drop_first();
        if k >= 2 {
            lemma_not_contains_tail(s, p);
        }
        lemma_decode_stage(rest, k);
        if is_special_char(c) && special_rank(c) == k {
            // the block is this rank's escape and is decoded back
            assert(t == p + dmap(rest, k - 1));
            assert forall|q: int| 0 <= q < p.len() implies t[q] == p[q] by {}
            assert(matches_at(t, p, 0));
            assert(t.skip(p.len() as int) =~= dmap(rest, k - 1));
            assert(replace_seq(t, p, seq![plain_of(k)]) == seq![plain_of(k)] + replace_seq(
                dmap(rest, k - 1),
                p,
                seq![plain_of(k)],
            ));
            assert(dmap(s, k) == seq![plain_of(k)] + dmap(rest, k));
        } else {
            let b = if is_special_char(c) && special_rank(c) > k - 1 {
                entity_of(special_rank(c))
            } else {
                seq![c]
            };
            assert(t == b + dmap(rest, k - 1));
            lemma_decode_block_no_match(s, k);
            assert(dmap(seq![c], k - 1) =~= b) by {
                assert(seq![c].len() == 1);
                assert(seq![c][0] == c);
                assert(seq![c].drop_first() =~= Seq::<char>::empty());
                assert(dmap(Seq::<char>::empty(), k - 1) =~= Seq::<char>::empty());
                assert(dmap(seq![c], k - 1) == b + dmap(seq![c].drop_first(), k - 1));
                assert(b + Seq::<char>::empty() =~= b);
            }
            lemma_replace_concat_nomatch(b, dmap(rest, k - 1), p, seq![plain_of(k)]);
            assert(dmap(s, k) == b + dmap(rest, k));
        }
    }
}

/// LAW: decoding is a left inverse of the five escapes. Escaping a text
/// and decoding the result restores it, provided the text does not itself
/// spell one of the four later escape sequences — on such a text (one
/// holding `&lt;`, say) the later decode passes strip a level too many.
pub proof fn law_decode_inverts_escaping(s: Seq<char>)
    requires
        !contains_seq(s, "&lt;"@),
        !contains_seq(s, "&gt;"@),
        !contains_seq(s, "&quot;"@),
        !contains_seq(s, "&#39;"@),
    ensures
        decode_entities_seq(encode_entities_seq(s)) == s,
{
    lemma_dmap_full(s);
    lemma_emap_full(s);
    lemma_encode_stage(s, 1);
    lemma_encode_stage(s, 2);
    lemma_encode_stage(s, 3);
    lemma_encode_stage(s, 4);
    lemma_encode_stage(s, 5);
    assert(encode_entities_seq(s) == emap(s, 5)) by {
        assert(replace_seq(s, "&"@, "&amp;"@) == emap(s, 1)) by {
            assert(seq![plain_of(1)] =~= "&"@) by {
                reveal_strlit("&");
            }
        }
        assert(replace_seq(emap(s, 1), "<"@, "&lt;"@) == emap(s, 2)) by {
            assert(seq![plain_of(2)] =~= "<"@) by {
                reveal_strlit("<");
            }
        }
        assert(replace_seq(emap(s, 2), ">"@, "&gt;"@) == emap(s, 3)) by {
            assert(seq![plain_of(3)] =~= ">"@) by {
                reveal_strlit(">");
            }
        }
        assert(replace_seq(emap(s, 3), "\""@, "&quot;"@) == emap(s, 4)) by {
            assert(seq![plain_of(4)] =~= "\""@) by {
                reveal_strlit("\"");
            }
        }
        assert(replace_seq(emap(s, 4), "'"@, "&#39;"@) == emap(s, 5)) by {
            assert(seq![plain_of(5)] =~= "'"@) by {
                reveal_strlit("'");
            }
        }
    }
    lemma_decode_stage(s, 1);
    lemma_decode_stage(s, 2);
    lemma_decode_stage(s, 3);
    lemma_decode_stage(s, 4);
    lemma_decode_stage(s, 5);
    assert(decode_entities_seq(emap(s, 5)) == s) by {
        assert(emap(s, 5) == dmap(s, 0));
        assert(replace_seq(dmap(s, 0), "&amp;"@, "&"@) == dmap(s, 1)) by {
            assert(seq![plain_of(1)] =~= "&"@) by {
                reveal_strlit("&");
            }
        }
        assert(replace_seq(dmap(s, 1), "&lt;"@, "<"@) == dmap(s, 2)) by {
            assert(seq![plain_of(2)] =~= "<"@) by {
                reveal_strlit("<");
            }
        }
        assert(replace_seq(dmap(s, 2), "&gt;"@, ">"@) == dmap(s, 3)) by {
            assert(seq![plain_of(3)] =~= ">"@) by {
                reveal_strlit(">");
            }
        }
        assert(replace_seq(dmap(s, 3), "&quot;"@, "\""@) == dmap(s, 4)) by {
            assert(seq![plain_of(4)] =~= "\""@) by {
                reveal_strlit("\"");
            }
        }
        assert(replace_seq(dmap(s, 4), "&#39;"@, "'"@) == dmap(s, 5)) by {
            assert(seq![plain_of(5)] =~= "'"@) by {
                reveal_strlit("'");
            }
        }
        assert(dmap(s, 5) == s);
    }
}

} // verus!
