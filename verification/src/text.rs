//! Low-level text scanning primitives shared by every extractor: substring
//! search, whitespace handling, trimming, and string construction, all
//! specified over `Seq<char>`.
use vstd::prelude::*;

verus! {

/// The whitespace characters recognised when trimming identifiers, queries
/// and captured fragments, and when skipping space inside script literals.
pub open spec fn is_space_char(c: char) -> bool {
    c == ' ' || c == '\t' || c == '\n' || c == '\r'
}

/// True when every character of `s` is whitespace (an empty `s` included).
pub open spec fn is_blank_chars(s: Seq<char>) -> bool {
    forall|i: int| 0 <= i < s.len() ==> is_space_char(#[trigger] s[i])
}

/// The pattern `p` occurs in `t` starting at index `i`.
pub open spec fn matches_at(t: Seq<char>, p: Seq<char>, i: int) -> bool {
    &&& 0 <= i
    &&& i + p.len() <= t.len()
    &&& forall|j: int| 0 <= j < p.len() ==> t[i + j] == p[j]
}

/// Index of the leftmost occurrence of `p` in `t` at or after `from`,
/// or `None` when there is none.
pub open spec fn find_at(t: Seq<char>, p: Seq<char>, from: int) -> Option<int>
    decreases t.len() - from,
{
    if from < 0 || from + p.len() > t.len() {
        None
    } else if matches_at(t, p, from) {
        Some(from)
    } else {
        find_at(t, p, from + 1)
    }
}

/// `p` occurs somewhere in `t`.
pub open spec fn contains_seq(t: Seq<char>, p: Seq<char>) -> bool {
    find_at(t, p, 0) is Some
}

/// What a successful search means: the hit is in range, matches, and is the
/// leftmost hit at or after `from`.
pub proof fn lemma_find_at_some(t: Seq<char>, p: Seq<char>, from: int, i: int)
    requires
        find_at(t, p, from) == Some(i),
    ensures
        from <= i,
        i + p.len() <= t.len(),
        matches_at(t, p, i),
        forall|j: int| from <= j < i ==> !matches_at(t, p, j),
    decreases t.len() - from,
{
    if from < 0 || from + p.len() > t.len() {
    } else if matches_at(t, p, from) {
    } else {
        lemma_find_at_some(t, p, from + 1, i);
    }
}

/// A failed search means no occurrence at or after `from`.
pub proof fn lemma_find_at_none(t: Seq<char>, p: Seq<char>, from: int)
    requires
        find_at(t, p, from) is None,
        from >= 0,
    ensures
        forall|j: int| j >= from ==> !matches_at(t, p, j),
    decreases t.len() - from,
{
    if from + p.len() > t.len() {
        assert forall|j: int| j >= from implies !matches_at(t, p, j) by {
            assert(j + p.len() > t.len());
        }
    } else {
        lemma_find_at_none(t, p, from + 1);
    }
}

/// Searching from further left can only find an occurrence at or before.
pub proof fn lemma_find_at_skip(t: Seq<char>, p: Seq<char>, from: int, mid: int)
    requires
        0 <= from <= mid,
        forall|j: int| from <= j < mid ==> !matches_at(t, p, j),
    ensures
        find_at(t, p, from) == find_at(t, p, mid),
    decreases mid - from,
{
    if from < mid {
        if from + p.len() > t.len() {
            assert(mid + p.len() > t.len());
            assert(find_at(t, p, mid) is None) by {
                assert(find_at(t, p, mid) == if mid < 0 || mid + p.len() > t.len() {
                    None::<int>
                } else if matches_at(t, p, mid) {
                    Some(mid)
                } else {
                    find_at(t, p, mid + 1)
                });
            }
        } else {
            assert(!matches_at(t, p, from));
            lemma_find_at_skip(t, p, from + 1, mid);
        }
    }
}

/// The characters of `s`, as a vector that can be scanned by index.
pub fn chars_of(s: &str) -> (v: Vec<char>)
    ensures
        v@ == s@,
{
    let n: usize = s.unicode_len();
    let mut v: Vec<char> = Vec::new();
    let mut i: usize = 0;
    while i < n
        invariant
            0 <= i <= n,
            n == s@.len(),
            v@ == s@.take(i as int),
        decreases n - i,
    {
        let c = s.get_char(i);
        v.push(c);
        assert(v@ =~= s@.take(i + 1));
        i = i + 1;
    }
    assert(v@ =~= s@);
    v
}

/// Relies on `String::push` from std: appends one character to the string.
#[verifier::external_body]
pub fn push_char(s: &mut String, c: char)
    ensures
        final(s)@ == old(s)@.push(c),
{
    s.push(c);
}

/// The substring `t[a..b]`, materialised as an owned string.
pub fn string_of_range(t: &Vec<char>, a: usize, b: usize) -> (s: String)
    requires
        a <= b <= t@.len(),
    ensures
        s@ == t@.subrange(a as int, b as int),
{
    let mut s = String::new();
    let mut i: usize = a;
    while i < b
        invariant
            a <= i <= b <= t@.len(),
            s@ == t@.subrange(a as int, i as int),
        decreases b - i,
    {
        push_char(&mut s, t[i]);
        assert(s@ =~= t@.subrange(a as int, i + 1));
        i = i + 1;
    }
    s
}

/// Leftmost occurrence of `p` in `t` at or after `from`, by linear scan.
pub fn find_sub(t: &Vec<char>, p: &Vec<char>, from: usize) -> (r: Option<usize>)
    ensures
        (r matches Some(i) ==> find_at(t@, p@, from as int) == Some(i as int)),
        r is None ==> find_at(t@, p@, from as int) is None,
{
    let tn: usize = t.len();
    let pn: usize = p.len();
    if pn > tn || from > tn - pn {
        return None;
    }
    let mut i: usize = from;
    loop
        invariant
            from <= i,
            pn == p@.len(),
            tn == t@.len(),
            pn <= tn,
            i + pn <= tn + 1,
            find_at(t@, p@, from as int) == find_at(t@, p@, i as int),
        decreases tn - i,
    {
        if i > tn - pn {
            return None;
        }
        let mut j: usize = 0;
        let mut hit = true;
        while j < pn
            invariant
                0 <= j <= pn,
                pn == p@.len(),
                tn == t@.len(),
                i + pn <= tn,
                hit ==> forall|k: int| 0 <= k < j ==> t@[i + k] == p@[k],
                !hit ==> !matches_at(t@, p@, i as int),
            decreases pn - j,
        {
            if t[i + j] != p[j] {
                hit = false;
                assert(!matches_at(t@, p@, i as int));
                j = pn;
            } else {
                j = j + 1;
            }
        }
        if hit {
            assert(matches_at(t@, p@, i as int));
            return Some(i);
        }
        proof {
            lemma_find_at_skip(t@, p@, i as int, i + 1);
        }
        i = i + 1;
    }
}

/// Whether `p` occurs anywhere in `t[from..]`.
pub fn contains_sub_from(t: &Vec<char>, p: &Vec<char>, from: usize) -> (r: bool)
    ensures
        r == (find_at(t@, p@, from as int) is Some),
{
    match find_sub(t, p, from) {
        Some(_) => true,
        None => false,
    }
}

/// Whether `p` occurs anywhere in `t`.
pub fn contains_sub(t: &Vec<char>, p: &Vec<char>) -> (r: bool)
    ensures
        r == contains_seq(t@, p@),
{
    contains_sub_from(t, p, 0)
}

/// First index at or after `i` whose character is not whitespace
/// (`t.len()` when the rest is all whitespace).
pub open spec fn skip_spaces(t: Seq<char>, i: int) -> int
    decreases t.len() - i,
{
    if i < 0 || i >= t.len() {
        t.len() as int
    } else if is_space_char(t[i]) {
        skip_spaces(t, i + 1)
    } else {
        i
    }
}

pub proof fn lemma_skip_spaces_bounds(t: Seq<char>, i: int)
    requires
        0 <= i <= t.len(),
    ensures
        i <= skip_spaces(t, i) <= t.len(),
        skip_spaces(t, i) < t.len() ==> !is_space_char(t[skip_spaces(t, i)]),
    decreases t.len() - i,
{
    if i < t.len() && is_space_char(t[i]) {
        lemma_skip_spaces_bounds(t, i + 1);
    }
}

/// Advances past whitespace starting at `i`.
pub fn skip_ws(t: &Vec<char>, i: usize) -> (r: usize)
    requires
        i <= t@.len(),
    ensures
        r == skip_spaces(t@, i as int),
        i <= r <= t@.len(),
{
    let n: usize = t.len();
    let mut k: usize = i;
    while k < n
        invariant
            i <= k <= n,
            n == t@.len(),
            skip_spaces(t@, i as int) == skip_spaces(t@, k as int),
        decreases n - k,
    {
        let c = t[k];
        if !(c == ' ' || c == '\t' || c == '\n' || c == '\r') {
            return k;
        }
        k = k + 1;
    }
    k
}

/// The bounds of `s` with leading and trailing whitespace removed:
/// `s[trim_start..trim_end]` is the trimmed text.
pub open spec fn trim_start_idx(s: Seq<char>) -> int {
    skip_spaces(s, 0)
}

/// One past the last non-whitespace character, or `trim_start_idx` when `s`
/// is all whitespace.
pub open spec fn trim_end_idx(s: Seq<char>) -> int
    decreases s.len(),
{
    if s.len() == 0 {
        0
    } else if is_space_char(s[s.len() - 1]) {
        trim_end_idx(s.drop_last())
    } else {
        s.len() as int
    }
}

/// The trimmed view of `s`.
pub open spec fn trim_seq(s: Seq<char>) -> Seq<char> {
    if trim_start_idx(s) <= trim_end_idx(s) {
        s.subrange(trim_start_idx(s), trim_end_idx(s))
    } else {
        Seq::empty()
    }
}

pub proof fn lemma_trim_end_bounds(s: Seq<char>)
    ensures
        0 <= trim_end_idx(s) <= s.len(),
        forall|j: int| trim_end_idx(s) <= j < s.len() ==> is_space_char(s[j]),
        trim_end_idx(s) > 0 ==> !is_space_char(s[trim_end_idx(s) - 1]),
    decreases s.len(),
{
    if s.len() > 0 && is_space_char(s[s.len() - 1]) {
        lemma_trim_end_bounds(s.drop_last());
        assert forall|j: int| trim_end_idx(s) <= j < s.len() implies is_space_char(s[j]) by {
            if j < s.len() - 1 {
                assert(s.drop_last()[j] == s[j]);
            }
        }
    }
}

/// Trim bounds, computed on a character vector.
pub fn trim_bounds(t: &Vec<char>) -> (r: (usize, usize))
    ensures
        r.0 == trim_start_idx(t@),
        r.1 == if trim_start_idx(t@) <= trim_end_idx(t@) {
            trim_end_idx(t@)
        } else {
            trim_start_idx(t@)
        },
        r.0 <= r.1 <= t@.len(),
        t@.subrange(r.0 as int, r.1 as int) == trim_seq(t@),
{
    let a = skip_ws(t, 0);
    proof {
        lemma_skip_spaces_bounds(t@, 0);
        lemma_trim_end_bounds(t@);
    }
    let n: usize = t.len();
    let mut b: usize = n;
    while b > a
        invariant
            a <= b <= n,
            n == t@.len(),
            a == trim_start_idx(t@),
            a <= trim_end_idx(t@) ==> trim_end_idx(t@) <= b,
            forall|j: int| b <= j < n ==> is_space_char(t@[j]),
        decreases b,
    {
        proof {
            lemma_trim_end_bounds(t@);
        }
        let c = t[b - 1];
        if !(c == ' ' || c == '\t' || c == '\n' || c == '\r') {
            proof {
                lemma_trim_end_suffix(t@, b as int);
            }
            assert(t@.subrange(a as int, b as int) == trim_seq(t@));
            return (a, b);
        }
        b = b - 1;
    }
    proof {
        lemma_trim_end_bounds(t@);
        if a <= trim_end_idx(t@) {
            // everything from a on is whitespace, so the trim end cannot
            // exceed a: its preceding character would be non-whitespace
            assert(trim_end_idx(t@) == a);
            assert(t@.subrange(a as int, a as int) =~= trim_seq(t@));
        } else {
            assert(t@.subrange(a as int, a as int) =~= Seq::<char>::empty());
        }
    }
    (a, b)
}

/// If everything from `b` on is whitespace and `t[b-1]` is not, then `b` is
/// the trim end.
proof fn lemma_trim_end_suffix(s: Seq<char>, b: int)
    requires
        0 < b <= s.len(),
        !is_space_char(s[b - 1]),
        forall|j: int| b <= j < s.len() ==> is_space_char(s[j]),
    ensures
        trim_end_idx(s) == b,
    decreases s.len(),
{
    if b == s.len() {
    } else {
        assert forall|j: int| b <= j < s.len() - 1 implies is_space_char(s.drop_last()[j]) by {
            assert(s.drop_last()[j] == s[j]);
        }
        lemma_trim_end_suffix(s.drop_last(), b);
    }
}

/// Whether `p` occurs in `t` at exactly position `at`.
pub fn match_at(t: &Vec<char>, p: &Vec<char>, at: usize) -> (r: bool)
    ensures
        r == matches_at(t@, p@, at as int),
{
    let pn: usize = p.len();
    let tn: usize = t.len();
    if pn > tn || at > tn - pn {
        return false;
    }
    let mut j: usize = 0;
    while j < pn
        invariant
            0 <= j <= pn,
            pn == p@.len(),
            tn == t@.len(),
            at + pn <= tn,
            forall|k: int| 0 <= k < j ==> t@[at + k] == p@[k],
        decreases pn - j,
    {
        if t[at + j] != p[j] {
            assert(!matches_at(t@, p@, at as int));
            return false;
        }
        j = j + 1;
    }
    true
}

/// First index at or after `i` whose character differs from `c`
/// (`t.len()` when the rest is one run of `c`).
pub open spec fn skip_run(t: Seq<char>, c: char, i: int) -> int
    decreases t.len() - i,
{
    if i < 0 || i >= t.len() {
        t.len() as int
    } else if t[i] == c {
        skip_run(t, c, i + 1)
    } else {
        i
    }
}

/// Advances past a run of the character `c` starting at `i`.
pub fn skip_char_run(t: &Vec<char>, c: char, i: usize) -> (r: usize)
    requires
        i <= t@.len(),
    ensures
        r == skip_run(t@, c, i as int),
        i <= r <= t@.len(),
{
    let n: usize = t.len();
    let mut k: usize = i;
    while k < n
        invariant
            i <= k <= n,
            n == t@.len(),
            skip_run(t@, c, i as int) == skip_run(t@, c, k as int),
        decreases n - k,
    {
        if t[k] != c {
            return k;
        }
        k = k + 1;
    }
    k
}

/// Smallest index in `[from, end)` holding the character `c`, if any.
pub open spec fn char_pos(u: Seq<char>, c: char, from: int, end: int) -> Option<int>
    decreases end - from,
{
    if from < 0 || from >= end || from >= u.len() {
        None
    } else if u[from] == c {
        Some(from)
    } else {
        char_pos(u, c, from + 1, end)
    }
}

pub proof fn lemma_char_pos_some(u: Seq<char>, c: char, from: int, end: int, i: int)
    requires
        char_pos(u, c, from, end) == Some(i),
    ensures
        from <= i < end,
        i < u.len(),
        u[i] == c,
        forall|j: int| from <= j < i ==> u[j] != c,
    decreases end - from,
{
    if from < 0 || from >= end || from >= u.len() {
    } else if u[from] == c {
    } else {
        lemma_char_pos_some(u, c, from + 1, end, i);
    }
}

/// Scans `[from, end)` for the character `c`.
pub fn find_char(t: &Vec<char>, c: char, from: usize, end: usize) -> (r: Option<usize>)
    requires
        end <= t@.len(),
    ensures
        (r matches Some(i) ==> char_pos(t@, c, from as int, end as int) == Some(i as int)),
        r is None ==> char_pos(t@, c, from as int, end as int) is None,
        (r matches Some(i) ==> from <= i < end),
    decreases t@.len(),
{
    let mut k: usize = from;
    if from >= end {
        return None;
    }
    while k < end
        invariant
            from <= k <= end <= t@.len(),
            char_pos(t@, c, from as int, end as int) == char_pos(t@, c, k as int, end as int),
        decreases end - k,
    {
        if t[k] == c {
            return Some(k);
        }
        k = k + 1;
    }
    None
}

/// The subvector `t[a..b]`.
pub fn vec_range(t: &Vec<char>, a: usize, b: usize) -> (r: Vec<char>)
    requires
        a <= b <= t@.len(),
    ensures
        r@ == t@.subrange(a as int, b as int),
{
    let mut r: Vec<char> = Vec::new();
    let mut i: usize = a;
    while i < b
        invariant
            a <= i <= b <= t@.len(),
            r@ == t@.subrange(a as int, i as int),
        decreases b - i,
    {
        r.push(t[i]);
        assert(r@ =~= t@.subrange(a as int, i + 1));
        i = i + 1;
    }
    r
}

/// Character-vector equality.
pub fn vec_eq(t: &Vec<char>, p: &Vec<char>) -> (r: bool)
    ensures
        r == (t@ == p@),
{
    let n: usize = t.len();
    if n != p.len() {
        return false;
    }
    let mut i: usize = 0;
    while i < n
        invariant
            0 <= i <= n,
            n == t@.len() == p@.len(),
            forall|j: int| 0 <= j < i ==> t@[j] == p@[j],
        decreases n - i,
    {
        if t[i] != p[i] {
            return false;
        }
        i = i + 1;
    }
    assert(t@ =~= p@);
    true
}

/// Greatest index in `[0, end)` holding the character `c`, if any.
pub open spec fn last_char_pos(u: Seq<char>, c: char, end: int) -> Option<int>
    decreases end,
{
    if end <= 0 || end > u.len() {
        None
    } else if u[end - 1] == c {
        Some(end - 1)
    } else {
        last_char_pos(u, c, end - 1)
    }
}

/// Scans backward from `end` for the character `c`.
pub fn rfind_char(t: &Vec<char>, c: char, end: usize) -> (r: Option<usize>)
    requires
        end <= t@.len(),
    ensures
        (r matches Some(i) ==> last_char_pos(t@, c, end as int) == Some(i as int)),
        r is None ==> last_char_pos(t@, c, end as int) is None,
        (r matches Some(i) ==> i < end),
{
    let mut k: usize = end;
    while k > 0
        invariant
            0 <= k <= end <= t@.len(),
            last_char_pos(t@, c, end as int) == last_char_pos(t@, c, k as int),
        decreases k,
    {
        if t[k - 1] == c {
            return Some(k - 1);
        }
        k = k - 1;
    }
    None
}

/// Leftmost occurrence of `p` that starts at or after `from` and ends at
/// or before `end`.
pub open spec fn find_at_within(t: Seq<char>, p: Seq<char>, from: int, end: int) -> Option<int>
    decreases end - from,
{
    if from < 0 || from + p.len() > end || end > t.len() {
        None
    } else if matches_at(t, p, from) {
        Some(from)
    } else {
        find_at_within(t, p, from + 1, end)
    }
}

/// Whether `p` occurs wholly inside `t[from..end]`.
pub fn contains_within(t: &Vec<char>, p: &Vec<char>, from: usize, end: usize) -> (r: bool)
    requires
        end <= t@.len(),
    ensures
        r == (find_at_within(t@, p@, from as int, end as int) is Some),
{
    let pn: usize = p.len();
    if pn > end || from > end - pn {
        return false;
    }
    let mut i: usize = from;
    loop
        invariant
            from <= i,
            pn == p@.len(),
            pn <= end,
            end <= t@.len(),
            i + pn <= end + 1,
            find_at_within(t@, p@, from as int, end as int) == find_at_within(
                t@,
                p@,
                i as int,
                end as int,
            ),
        decreases end - i,
    {
        if i > end - pn {
            return false;
        }
        if match_at(t, p, i) {
            return true;
        }
        i = i + 1;
    }
}

/// Greatest index in `[start, end)` holding the character `c`, if any.
pub open spec fn rlast_char_pos(u: Seq<char>, c: char, start: int, end: int) -> Option<int>
    decreases end,
{
    if end <= start || end <= 0 || end > u.len() {
        None
    } else if u[end - 1] == c {
        Some(end - 1)
    } else {
        rlast_char_pos(u, c, start, end - 1)
    }
}

/// Scans backward through `[start, end)` for the character `c`.
pub fn rfind_char_in(t: &Vec<char>, c: char, start: usize, end: usize) -> (r: Option<usize>)
    requires
        end <= t@.len(),
    ensures
        (r matches Some(i) ==> rlast_char_pos(t@, c, start as int, end as int) == Some(i as int)
            && start <= i < end),
        r is None ==> rlast_char_pos(t@, c, start as int, end as int) is None,
{
    if end <= start {
        return None;
    }
    let mut k: usize = end;
    while k > start
        invariant
            start <= k <= end <= t@.len(),
            rlast_char_pos(t@, c, start as int, end as int) == rlast_char_pos(
                t@,
                c,
                start as int,
                k as int,
            ),
        decreases k,
    {
        if t[k - 1] == c {
            return Some(k - 1);
        }
        k = k - 1;
    }
    None
}

/// A quoted value after a field key: the key's leftmost occurrence at or
/// after `from` and before `bound`, then optional whitespace, then the
/// quote `q`, then the value up to the next `q`. The bounds of the value.
pub open spec fn quoted_after_key(
    t: Seq<char>,
    key: Seq<char>,
    from: int,
    bound: int,
    q: char,
) -> Option<(int, int)> {
    match find_at(t, key, from) {
        None => None,
        Some(k) => {
            if k >= bound {
                None
            } else {
                let v = skip_spaces(t, k + key.len());
                if v < t.len() && t[v] == q {
                    match char_pos(t, q, v + 1, t.len() as int) {
                        Some(e) => Some((v + 1, e)),
                        None => None,
                    }
                } else {
                    None
                }
            }
        },
    }
}

/// Finds a quoted field value, as `quoted_after_key` describes.
pub fn find_quoted_after_key(
    t: &Vec<char>,
    key: &Vec<char>,
    from: usize,
    bound: usize,
    q: char,
) -> (r: Option<(usize, usize)>)
    requires
        from <= t@.len(),
    ensures
        (r matches Some(p) ==> quoted_after_key(t@, key@, from as int, bound as int, q) == Some(
            (p.0 as int, p.1 as int),
        ) && from < p.0 <= p.1 < t@.len()),
        r is None ==> quoted_after_key(t@, key@, from as int, bound as int, q) is None,
{
    match find_sub(t, key, from) {
        None => None,
        Some(k) => {
            proof {
                lemma_find_at_some(t@, key@, from as int, k as int);
            }
            if k >= bound {
                return None;
            }
            let n: usize = t.len();
            assert(k + key@.len() <= n);
            let v = skip_ws(t, k + key.len());
            if v < n && t[v] == q {
                match find_char(t, q, v + 1, n) {
                    Some(e) => {
                        proof {
                            lemma_char_pos_some(t@, q, v + 1, n as int, e as int);
                        }
                        Some((v + 1, e))
                    },
                    None => None,
                }
            } else {
                None
            }
        },
    }
}

/// Owned copy of a string.
pub fn clone_string(s: &String) -> (r: String)
    ensures
        r@ == s@,
{
    let n: usize = s.as_str().unicode_len();
    let v = chars_of(s.as_str());
    let r = string_of_range(&v, 0, n);
    proof {
        assert(v@.subrange(0, n as int) =~= v@);
    }
    r
}

/// Reports whether a caller-supplied identifier or query is empty or
/// consists of whitespace only.
pub fn is_blank(s: &str) -> (r: bool)
    ensures
        r == is_blank_chars(s@),
{
    let n: usize = s.unicode_len();
    let mut i: usize = 0;
    while i < n
        invariant
            0 <= i <= n,
            n == s@.len(),
            forall|j: int| 0 <= j < i ==> is_space_char(#[trigger] s@[j]),
        decreases n - i,
    {
        let c = s.get_char(i);
        if !(c == ' ' || c == '\t' || c == '\n' || c == '\r') {
            return false;
        }
        i = i + 1;
    }
    true
}

} // verus!
