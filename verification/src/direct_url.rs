//! Direct CDN-URL resolution: the ranked sources first, then a chain of
//! progressively more permissive fallbacks (anchor, media element, inline
//! script redirect, refresh tag, raw pattern search), and the resolver for
//! the original uploaded file on a download-redirect page.
use vstd::prelude::*;
use crate::types::{VideoSource, VideoSourceView};
use crate::error::PrehrajtoError;
use crate::entities::{decode_entities_seq, decode_entities_vec};
use crate::numbers::dec_str;
use crate::text::{matches_at, find_at, contains_seq, char_pos, skip_spaces, is_space_char,
    find_at_within, trim_seq, trim_bounds, chars_of, find_sub, find_char, skip_ws, match_at,
    string_of_range, vec_range, vec_eq, contains_sub, lemma_find_at_some, lemma_char_pos_some};
use crate::markup::{next_tag, tag_close, attr_val, href_in_tag, find_tag, find_tag_close,
    find_attr_val, find_href, lemma_next_tag_some};
use crate::quality::{cdn_url_seq, is_cdn_vec, text_resolution, filename_of_url, format_of_url,
    extract_filename_from_url, format_from_vec, parse_resolution_from_text};
use crate::sources::{video_sources_spec, source_views, parse_video_sources_vec};

verus! {

// ---------------------------------------------------------------------
// Anchor and media-element fallbacks
// ---------------------------------------------------------------------

/// The first anchor at or after `from` whose href is a CDN URL; the href
/// value's bounds.
pub open spec fn cdn_anchor_scan(t: Seq<char>, from: int) -> Option<(int, int)>
    decreases t.len() - from,
{
    match next_tag(t, "<a"@, from) {
        None => None,
        Some(i) => {
            let gt = tag_close(t, i);
            let hit = match href_in_tag(t, i, gt) {
                Some((hs, he)) => cdn_url_seq(t.subrange(hs, he)),
                None => false,
            };
            if hit {
                href_in_tag(t, i, gt)
            } else if from < i + 1 <= t.len() {
                cdn_anchor_scan(t, i + 1)
            } else {
                None
            }
        },
    }
}

/// Scans anchors for the first CDN href.
pub fn find_cdn_anchor(t: &Vec<char>) -> (r: Option<(usize, usize)>)
    ensures
        (r matches Some(p) ==> cdn_anchor_scan(t@, 0) == Some((p.0 as int, p.1 as int)) && p.0
            <= p.1 < t@.len()),
        r is None ==> cdn_anchor_scan(t@, 0) is None,
{
    let pat = chars_of("<a");
    proof {
        reveal_strlit("<a");
    }
    let n: usize = t.len();
    let mut pos: usize = 0;
    loop
        invariant
            0 <= pos <= n,
            n == t@.len(),
            pat@ == "<a"@,
            pat@.len() == 2,
            cdn_anchor_scan(t@, 0) == cdn_anchor_scan(t@, pos as int),
        decreases n - pos,
    {
        match find_tag(t, &pat, pos) {
            None => {
                return None;
            },
            Some(i) => {
                proof {
                    lemma_next_tag_some(t@, pat@, pos as int, i as int);
                }
                let gt = find_tag_close(t, i);
                match find_href(t, i, gt) {
                    Some((hs, he)) => {
                        if is_cdn_vec(&vec_range(t, hs, he)) {
                            return Some((hs, he));
                        }
                    },
                    None => {},
                }
                pos = i + 1;
            },
        }
    }
}

/// The `src` value of the tag region `[a, gt)`.
pub open spec fn src_in_tag(t: Seq<char>, a: int, gt: int) -> Option<(int, int)> {
    match attr_val(t, a, gt, "src=\""@, '"') {
        Some(r) => Some(r),
        None => attr_val(t, a, gt, "src='"@, '\''),
    }
}

/// The first tag `pat` at or after `from` whose `src` is a CDN URL.
pub open spec fn cdn_src_scan(t: Seq<char>, pat: Seq<char>, from: int) -> Option<(int, int)>
    decreases t.len() - from,
{
    match next_tag(t, pat, from) {
        None => None,
        Some(i) => {
            let gt = tag_close(t, i);
            let hit = match src_in_tag(t, i, gt) {
                Some((hs, he)) => cdn_url_seq(t.subrange(hs, he)),
                None => false,
            };
            if hit {
                src_in_tag(t, i, gt)
            } else if from < i + 1 <= t.len() {
                cdn_src_scan(t, pat, i + 1)
            } else {
                None
            }
        },
    }
}

/// Scans tags `pat` for the first CDN `src` attribute.
pub fn find_cdn_src(t: &Vec<char>, pat: &Vec<char>) -> (r: Option<(usize, usize)>)
    requires
        pat@.len() > 0,
    ensures
        (r matches Some(p) ==> cdn_src_scan(t@, pat@, 0) == Some((p.0 as int, p.1 as int)) && p.0
            <= p.1 < t@.len()),
        r is None ==> cdn_src_scan(t@, pat@, 0) is None,
{
    let n: usize = t.len();
    let mut pos: usize = 0;
    loop
        invariant
            0 <= pos <= n,
            n == t@.len(),
            pat@.len() > 0,
            cdn_src_scan(t@, pat@, 0) == cdn_src_scan(t@, pat@, pos as int),
        decreases n - pos,
    {
        match find_tag(t, pat, pos) {
            None => {
                return None;
            },
            Some(i) => {
                proof {
                    lemma_next_tag_some(t@, pat@, pos as int, i as int);
                }
                let gt = find_tag_close(t, i);
                let src = match find_attr_val(t, i, gt, &chars_of("src=\""), '"') {
                    Some(p) => Some(p),
                    None => find_attr_val(t, i, gt, &chars_of("src='"), '\''),
                };
                match src {
                    Some((hs, he)) => {
                        if is_cdn_vec(&vec_range(t, hs, he)) {
                            return Some((hs, he));
                        }
                    },
                    None => {},
                }
                pos = i + 1;
            },
        }
    }
}

// ---------------------------------------------------------------------
// Inline-script redirect fallback
// ---------------------------------------------------------------------

/// The first assignment `key = "<url>"` (or single-quoted) at or after
/// `from` whose quoted text carries the CDN token; the text's bounds.
pub open spec fn js_scan(t: Seq<char>, key: Seq<char>, from: int) -> Option<(int, int)>
    decreases t.len() - from,
{
    match find_at(t, key, from) {
        None => None,
        Some(k) => {
            let w = skip_spaces(t, k + key.len());
            let hit = if w < t.len() && t[w] == '=' {
                let v = skip_spaces(t, w + 1);
                if v < t.len() && (t[v] == '"' || t[v] == '\'') {
                    match char_pos(t, t[v], v + 1, t.len() as int) {
                        Some(e) => {
                            if contains_seq(t.subrange(v + 1, e), "premiumcdn"@) {
                                Some((v + 1, e))
                            } else {
                                None
                            }
                        },
                        None => None,
                    }
                } else {
                    None
                }
            } else {
                None
            };
            match hit {
                Some(p) => Some(p),
                None => {
                    if from < k + 1 <= t.len() {
                        js_scan(t, key, k + 1)
                    } else {
                        None
                    }
                },
            }
        },
    }
}

/// Scans for an inline-script assignment of a CDN URL to `key`.
pub fn find_js_assign(t: &Vec<char>, key: &Vec<char>) -> (r: Option<(usize, usize)>)
    requires
        key@.len() > 0,
    ensures
        (r matches Some(p) ==> js_scan(t@, key@, 0) == Some((p.0 as int, p.1 as int)) && p.0 <= p.1
            < t@.len()),
        r is None ==> js_scan(t@, key@, 0) is None,
{
    let n: usize = t.len();
    let mut pos: usize = 0;
    loop
        invariant
            0 <= pos <= n,
            n == t@.len(),
            key@.len() > 0,
            js_scan(t@, key@, 0) == js_scan(t@, key@, pos as int),
        decreases n - pos,
    {
        match find_sub(t, key, pos) {
            None => {
                return None;
            },
            Some(k) => {
                proof {
                    lemma_find_at_some(t@, key@, pos as int, k as int);
                }
                let w = skip_ws(t, k + key.len());
                if w < n && t[w] == '=' {
                    let v = skip_ws(t, w + 1);
                    if v < n && (t[v] == '"' || t[v] == '\'') {
                        match find_char(t, t[v], v + 1, n) {
                            Some(e) => {
                                proof {
                                    lemma_char_pos_some(t@, t@[v as int], v + 1, n as int, e as int);
                                }
                                if contains_sub(&vec_range(t, v + 1, e), &chars_of("premiumcdn")) {
                                    return Some((v + 1, e));
                                }
                            },
                            None => {},
                        }
                    }
                }
                pos = k + 1;
            },
        }
    }
}

/// The four assignment phrasings, tried in order of specificity.
pub open spec fn js_url_spec(s: Seq<char>) -> Option<(int, int)> {
    match js_scan(s, "window.location.href"@, 0) {
        Some(p) => Some(p),
        None => match js_scan(s, "window.location"@, 0) {
            Some(p) => Some(p),
            None => match js_scan(s, "location.href"@, 0) {
                Some(p) => Some(p),
                None => js_scan(s, "location"@, 0),
            },
        },
    }
}

// ---------------------------------------------------------------------
// Refresh-tag fallback
// ---------------------------------------------------------------------

/// Whether the tag region `[a, gt)` declares a refresh redirect.
pub open spec fn is_refresh_tag(t: Seq<char>, a: int, gt: int) -> bool {
    ||| (match attr_val(t, a, gt, "http-equiv=\""@, '"') {
        Some((vs, ve)) => t.subrange(vs, ve) == "refresh"@,
        None => false,
    })
    ||| (match attr_val(t, a, gt, "http-equiv='"@, '\'') {
        Some((vs, ve)) => t.subrange(vs, ve) == "refresh"@,
        None => false,
    })
}

/// The redirect target of a refresh tag's content value `[cs, ce)`: the
/// text between the first `url=` and the next `url=` or the value's end,
/// trimmed.
pub open spec fn refresh_target(t: Seq<char>, cs: int, ce: int) -> Option<Seq<char>> {
    match find_at_within(t, "url="@, cs, ce) {
        None => None,
        Some(u) => {
            let vend = match find_at_within(t, "url="@, u + 4, ce) {
                Some(u2) => u2,
                None => ce,
            };
            if u + 4 <= vend <= t.len() {
                Some(trim_seq(t.subrange(u + 4, vend)))
            } else {
                None
            }
        },
    }
}

/// The first refresh tag at or after `from` whose target is a CDN URL.
pub open spec fn meta_refresh_scan(t: Seq<char>, from: int) -> Option<Seq<char>>
    decreases t.len() - from,
{
    match next_tag(t, "<meta"@, from) {
        None => None,
        Some(i) => {
            let gt = tag_close(t, i);
            let hit = if is_refresh_tag(t, i, gt) {
                let content = match attr_val(t, i, gt, "content=\""@, '"') {
                    Some(p) => Some(p),
                    None => attr_val(t, i, gt, "content='"@, '\''),
                };
                match content {
                    Some((cs, ce)) => match refresh_target(t, cs, ce) {
                        Some(url) => {
                            if cdn_url_seq(url) {
                                Some(url)
                            } else {
                                None
                            }
                        },
                        None => None,
                    },
                    None => None,
                }
            } else {
                None
            };
            match hit {
                Some(url) => Some(url),
                None => {
                    if from < i + 1 <= t.len() {
                        meta_refresh_scan(t, i + 1)
                    } else {
                        None
                    }
                },
            }
        },
    }
}

/// Scans refresh tags for a CDN redirect target.
pub fn find_meta_refresh(t: &Vec<char>) -> (r: Option<String>)
    ensures
        (r matches Some(u) ==> meta_refresh_scan(t@, 0) matches Some(w) && u@ == w),
        r is None ==> meta_refresh_scan(t@, 0) is None,
{
    let pat = chars_of("<meta");
    proof {
        reveal_strlit("<meta");
        reveal_strlit("url=");
    }
    let n: usize = t.len();
    let mut pos: usize = 0;
    loop
        invariant
            0 <= pos <= n,
            n == t@.len(),
            pat@ == "<meta"@,
            pat@.len() == 5,
            meta_refresh_scan(t@, 0) == meta_refresh_scan(t@, pos as int),
        decreases n - pos,
    {
        match find_tag(t, &pat, pos) {
            None => {
                return None;
            },
            Some(i) => {
                proof {
                    lemma_next_tag_some(t@, pat@, pos as int, i as int);
                }
                let gt = find_tag_close(t, i);
                let mut refresh = false;
                match find_attr_val(t, i, gt, &chars_of("http-equiv=\""), '"') {
                    Some((vs, ve)) => {
                        if vec_eq(&vec_range(t, vs, ve), &chars_of("refresh")) {
                            refresh = true;
                        }
                    },
                    None => {},
                }
                if !refresh {
                    match find_attr_val(t, i, gt, &chars_of("http-equiv='"), '\'') {
                        Some((vs, ve)) => {
                            if vec_eq(&vec_range(t, vs, ve), &chars_of("refresh")) {
                                refresh = true;
                            }
                        },
                        None => {},
                    }
                }
                if refresh && is_refresh_tag_exec(t, i, gt) {
                    let content = match find_attr_val(t, i, gt, &chars_of("content=\""), '"') {
                        Some(p) => Some(p),
                        None => find_attr_val(t, i, gt, &chars_of("content='"), '\''),
                    };
                    match content {
                        Some((cs, ce)) => {
                            match find_target_in_content(t, cs, ce) {
                                Some(url) => {
                                    let uv = chars_of(url.as_str());
                                    if is_cdn_vec(&uv) {
                                        return Some(url);
                                    }
                                },
                                None => {},
                            }
                        },
                        None => {},
                    }
                }
                pos = i + 1;
            },
        }
    }
}

/// Refresh-attribute test matching `is_refresh_tag`.
fn is_refresh_tag_exec(t: &Vec<char>, a: usize, gt: usize) -> (r: bool)
    requires
        gt <= t@.len(),
    ensures
        r == is_refresh_tag(t@, a as int, gt as int),
{
    match find_attr_val(t, a, gt, &chars_of("http-equiv=\""), '"') {
        Some((vs, ve)) => {
            if vec_eq(&vec_range(t, vs, ve), &chars_of("refresh")) {
                return true;
            }
        },
        None => {},
    }
    match find_attr_val(t, a, gt, &chars_of("http-equiv='"), '\'') {
        Some((vs, ve)) => vec_eq(&vec_range(t, vs, ve), &chars_of("refresh")),
        None => false,
    }
}

/// The trimmed text after `url=` inside `[cs, ce)`, matching
/// `refresh_target`.
fn find_target_in_content(t: &Vec<char>, cs: usize, ce: usize) -> (r: Option<String>)
    requires
        cs <= ce <= t@.len(),
    ensures
        (r matches Some(u) ==> refresh_target(t@, cs as int, ce as int) matches Some(w) && u@
            == w),
        r is None ==> refresh_target(t@, cs as int, ce as int) is None,
{
    proof {
        reveal_strlit("url=");
    }
    let u: usize = match find_within_exec(t, &chars_of("url="), cs, ce) {
        Some(u) => u,
        None => {
            return None;
        },
    };
    proof {
        crate::direct_url::lemma_find_within_some(t@, "url="@, cs as int, ce as int, u as int);
    }
    let vend: usize = match find_within_exec(t, &chars_of("url="), u + 4, ce) {
        Some(u2) => u2,
        None => ce,
    };
    proof {
        match find_at_within(t@, "url="@, u + 4, ce as int) {
            Some(u2) => lemma_find_within_some(t@, "url="@, u + 4, ce as int, u2),
            None => (),
        }
    }
    let part = vec_range(t, u + 4, vend);
    let (ta, tb) = trim_bounds(&part);
    Some(string_of_range(&part, ta, tb))
}

/// Leftmost bounded occurrence, as `find_at_within` describes.
pub fn find_within_exec(t: &Vec<char>, p: &Vec<char>, from: usize, end: usize) -> (r: Option<
    usize,
>)
    requires
        end <= t@.len(),
    ensures
        (r matches Some(i) ==> find_at_within(t@, p@, from as int, end as int) == Some(i as int)),
        r is None ==> find_at_within(t@, p@, from as int, end as int) is None,
{
    let pn: usize = p.len();
    if pn > end || from > end - pn {
        return None;
    }
    let mut i: usize = from;
    loop
        invariant
            from <= i,
            pn == p@.len(),
            pn <= end,
            end <= t@.len(),
            i + pn <= end + 1,
            find_at_within(t@, p@, from as int, end as int) == find_at_within(
                t@,
                p@,
                i as int,
                end as int,
            ),
        decreases end - i,
    {
        if i > end - pn {
            return None;
        }
        if match_at(t, p, i) {
            return Some(i);
        }
        i = i + 1;
    }
}

pub proof fn lemma_find_within_some(t: Seq<char>, p: Seq<char>, from: int, end: int, i: int)
    requires
        find_at_within(t, p, from, end) == Some(i),
    ensures
        from <= i,
        i + p.len() <= end,
        end <= t.len(),
        matches_at(t, p, i),
    decreases end - from,
{
    if from < 0 || from + p.len() > end || end > t.len() {
    } else if matches_at(t, p, from) {
    } else {
        lemma_find_within_some(t, p, from + 1, end, i);
    }
}

// ---------------------------------------------------------------------
// Raw pattern search fallback
// ---------------------------------------------------------------------

/// A character that can stand inside an unquoted URL in markup.
pub open spec fn allowed_url_char(c: char) -> bool {
    c != '"' && c != '\'' && c != '<' && c != '>' && !is_space_char(c)
}

/// Leftmost extent of the run of URL characters ending at `m`.
pub open spec fn run_start(t: Seq<char>, m: int) -> int
    decreases m,
{
    if m <= 0 || m > t.len() {
        m
    } else if allowed_url_char(t[m - 1]) {
        run_start(t, m - 1)
    } else {
        m
    }
}

/// Rightmost extent of the run of URL characters starting at `m`.
pub open spec fn run_end(t: Seq<char>, m: int) -> int
    decreases t.len() - m,
{
    if m < 0 || m >= t.len() {
        m
    } else if allowed_url_char(t[m]) {
        run_end(t, m + 1)
    } else {
        m
    }
}

/// Leftmost position in `[from, end)` where a URL scheme starts.
pub open spec fn scheme_pos(t: Seq<char>, from: int, end: int) -> Option<int>
    decreases end - from,
{
    if from < 0 || from >= end {
        None
    } else if matches_at(t, "https://"@, from) || matches_at(t, "http://"@, from) {
        Some(from)
    } else {
        scheme_pos(t, from + 1, end)
    }
}

/// The raw-search match around the CDN-domain occurrence at `m`: the URL
/// runs from the scheme inside the same character run to the run's end.
/// With `need_token` the run must carry a token or expiry parameter after
/// the domain; without it, at least one character must follow the domain.
pub open spec fn generic_at(t: Seq<char>, m: int, need_token: bool) -> Option<(int, int)> {
    let l = run_start(t, m);
    match scheme_pos(t, l, m) {
        None => None,
        Some(p) => {
            let se = if matches_at(t, "https://"@, p) {
                p + 8
            } else {
                p + 7
            };
            if se >= m {
                None
            } else {
                let r = run_end(t, m);
                if need_token {
                    if find_at_within(t, "token"@, m + 14, r) is Some || find_at_within(
                        t,
                        "expires"@,
                        m + 14,
                        r,
                    ) is Some {
                        Some((p, r))
                    } else {
                        None
                    }
                } else {
                    if r >= m + 15 {
                        Some((p, r))
                    } else {
                        None
                    }
                }
            }
        },
    }
}

/// The first CDN-domain occurrence that anchors a raw-search match.
pub open spec fn generic_scan(t: Seq<char>, from: int, need_token: bool) -> Option<(int, int)>
    decreases t.len() - from,
{
    match find_at(t, "premiumcdn.net"@, from) {
        None => None,
        Some(m) => {
            match generic_at(t, m, need_token) {
                Some(r) => Some(r),
                None => {
                    if from < m + 1 <= t.len() {
                        generic_scan(t, m + 1, need_token)
                    } else {
                        None
                    }
                },
            }
        },
    }
}

/// Scans left for the start of the URL-character run ending at `m`.
fn find_run_start(t: &Vec<char>, m: usize) -> (r: usize)
    requires
        m <= t@.len(),
    ensures
        r == run_start(t@, m as int),
        r <= m,
{
    let mut k: usize = m;
    while k > 0
        invariant
            0 <= k <= m <= t@.len(),
            run_start(t@, m as int) == run_start(t@, k as int),
        decreases k,
    {
        let c = t[k - 1];
        if c == '"' || c == '\'' || c == '<' || c == '>' || c == ' ' || c == '\t' || c == '\n' || c
            == '\r' {
            return k;
        }
        k = k - 1;
    }
    k
}

/// Scans right for the end of the URL-character run starting at `m`.
fn find_run_end(t: &Vec<char>, m: usize) -> (r: usize)
    requires
        m <= t@.len(),
    ensures
        r == run_end(t@, m as int),
        m <= r <= t@.len(),
{
    let n: usize = t.len();
    let mut k: usize = m;
    while k < n
        invariant
            m <= k <= n,
            n == t@.len(),
            run_end(t@, m as int) == run_end(t@, k as int),
        decreases n - k,
    {
        let c = t[k];
        if c == '"' || c == '\'' || c == '<' || c == '>' || c == ' ' || c == '\t' || c == '\n' || c
            == '\r' {
            return k;
        }
        k = k + 1;
    }
    k
}

/// Scans `[from, end)` for a URL scheme.
fn find_scheme(t: &Vec<char>, from: usize, end: usize) -> (r: Option<usize>)
    requires
        end <= t@.len(),
    ensures
        (r matches Some(p) ==> scheme_pos(t@, from as int, end as int) == Some(p as int) && from
            <= p < end),
        r is None ==> scheme_pos(t@, from as int, end as int) is None,
{
    proof {
        reveal_strlit("https://");
        reveal_strlit("http://");
    }
    let https = chars_of("https://");
    let http = chars_of("http://");
    let mut i: usize = from;
    while i < end
        invariant
            from <= i,
            i <= end || from >= end,
            end <= t@.len(),
            https@ == "https://"@,
            http@ == "http://"@,
            scheme_pos(t@, from as int, end as int) == scheme_pos(t@, i as int, end as int),
        decreases end - i,
    {
        if match_at(t, &https, i) || match_at(t, &http, i) {
            return Some(i);
        }
        i = i + 1;
    }
    None
}

/// Raw search for a CDN URL anchored at the domain token.
fn find_generic_cdn(t: &Vec<char>, need_token: bool) -> (r: Option<(usize, usize)>)
    ensures
        (r matches Some(p) ==> generic_scan(t@, 0, need_token) == Some((p.0 as int, p.1 as int))
            && p.0 <= p.1 <= t@.len()),
        r is None ==> generic_scan(t@, 0, need_token) is None,
{
    let dom = chars_of("premiumcdn.net");
    proof {
        reveal_strlit("premiumcdn.net");
        reveal_strlit("https://");
        reveal_strlit("http://");
        reveal_strlit("token");
        reveal_strlit("expires");
    }
    let n: usize = t.len();
    let mut pos: usize = 0;
    loop
        invariant
            0 <= pos <= n,
            n == t@.len(),
            dom@ == "premiumcdn.net"@,
            dom@.len() == 14,
            generic_scan(t@, 0, need_token) == generic_scan(t@, pos as int, need_token),
        decreases n - pos,
    {
        match find_sub(t, &dom, pos) {
            None => {
                return None;
            },
            Some(m) => {
                proof {
                    lemma_find_at_some(t@, dom@, pos as int, m as int);
                }
                let l = find_run_start(t, m);
                match find_scheme(t, l, m) {
                    Some(p) => {
                        let se: usize = if match_at(t, &chars_of("https://"), p) {
                            p + 8
                        } else {
                            p + 7
                        };
                        if se < m {
                            let rend = find_run_end(t, m);
                            if need_token {
                                assert(m + 14 <= n);
                                if contains_within(t, &chars_of("token"), m + 14, rend)
                                    || contains_within(t, &chars_of("expires"), m + 14, rend) {
                                    return Some((p, rend));
                                }
                            } else {
                                if rend - m >= 15 {
                                    return Some((p, rend));
                                }
                            }
                        }
                    },
                    None => {},
                }
                pos = m + 1;
            },
        }
    }
}

/// Helper naming `contains_within` under this module's imports.
fn contains_within(t: &Vec<char>, p: &Vec<char>, from: usize, end: usize) -> (r: bool)
    requires
        end <= t@.len(),
    ensures
        r == (find_at_within(t@, p@, from as int, end as int) is Some),
{
    crate::text::contains_within(t, p, from, end)
}

// ---------------------------------------------------------------------
// Resolution and the public resolvers
// ---------------------------------------------------------------------

/// Index of the first source with the greatest resolution.
pub open spec fn best_index(v: Seq<VideoSourceView>) -> int
    decreases v.len(),
{
    if v.len() <= 1 {
        0
    } else {
        let b = best_index(v.drop_last());
        if v.last().resolution > v[b].resolution {
            v.len() - 1
        } else {
            b
        }
    }
}

/// LAW: the resolver's choice is the first source of greatest resolution:
/// no source beats it, and every earlier source is strictly worse.
pub proof fn law_best_source_is_first_maximum(v: Seq<VideoSourceView>)
    requires
        v.len() > 0,
    ensures
        0 <= best_index(v) < v.len(),
        forall|j: int| 0 <= j < v.len() ==> (#[trigger] v[j]).resolution <= v[best_index(
            v,
        )].resolution,
        forall|j: int| 0 <= j < best_index(v) ==> (#[trigger] v[j]).resolution < v[best_index(
            v,
        )].resolution,
    decreases v.len(),
{
    if v.len() > 1 {
        let dl = v.drop_last();
        law_best_source_is_first_maximum(dl);
        let b = best_index(dl);
        assert forall|j: int| 0 <= j < v.len() - 1 implies #[trigger] v[j] == dl[j] by {}
        let bi = best_index(v);
        if v.last().resolution > v[b].resolution {
            assert(bi == v.len() - 1);
            assert forall|j: int| 0 <= j < v.len() implies (#[trigger] v[j]).resolution
                <= v[bi].resolution by {
                if j < v.len() - 1 {
                    assert(v[j] == dl[j]);
                    assert(dl[j].resolution <= dl[b].resolution);
                    assert(dl[b] == v[b]);
                }
            }
            assert forall|j: int| 0 <= j < bi implies (#[trigger] v[j]).resolution
                < v[bi].resolution by {
                assert(v[j] == dl[j]);
                assert(dl[j].resolution <= dl[b].resolution);
                assert(dl[b] == v[b]);
            }
        } else {
            assert(bi == b);
            assert forall|j: int| 0 <= j < v.len() implies (#[trigger] v[j]).resolution
                <= v[bi].resolution by {
                if j < v.len() - 1 {
                    assert(v[j] == dl[j]);
                    assert(dl[j].resolution <= dl[b].resolution);
                } else {
                    assert(v[j] == v.last());
                }
                assert(dl[b] == v[b]);
            }
            assert forall|j: int| 0 <= j < bi implies (#[trigger] v[j]).resolution
                < v[bi].resolution by {
                assert(v[j] == dl[j]);
                assert(dl[j].resolution < dl[b].resolution);
                assert(dl[b] == v[b]);
            }
        }
    }
}

/// Picks the first source of greatest resolution.
fn best_source_index(v: &Vec<VideoSource>) -> (r: usize)
    requires
        v@.len() > 0,
    ensures
        r as int == best_index(source_views(v@)),
        r < v@.len(),
{
    let ghost views = source_views(v@);
    let n: usize = v.len();
    let mut best: usize = 0;
    let mut i: usize = 1;
    assert(best as int == best_index(views.take(1))) by {
        assert(views.take(1).len() == 1);
    }
    while i < n
        invariant
            1 <= i <= n,
            best < i,
            n == v@.len(),
            views == source_views(v@),
            views.len() == n,
            best as int == best_index(views.take(i as int)),
            forall|j: int| 0 <= j < i ==> (#[trigger] views[j]).resolution == v@[j].resolution,
        decreases n - i,
    {
        assert(views.take(i + 1).drop_last() =~= views.take(i as int));
        assert(views.take(i + 1).last() == views[i as int]);
        assert(views[i as int] == v@[i as int]@);
        if v[i].resolution > v[best].resolution {
            best = i;
        }
        i = i + 1;
    }
    assert(views.take(n as int) =~= views);
    best
}

/// The direct CDN URL of a page: the best structured source when any
/// exists, else the first hit of the fallback chain, entity-decoded
/// before it is returned.
pub open spec fn direct_url_spec(s: Seq<char>) -> Option<Seq<char>> {
    let sources = video_sources_spec(s);
    if sources.len() > 0 {
        Some(sources[best_index(sources)].url)
    } else {
        match cdn_anchor_scan(s, 0) {
            Some((hs, he)) => Some(decode_entities_seq(s.subrange(hs, he))),
            None => match cdn_src_scan(s, "<video"@, 0) {
                Some((hs, he)) => Some(decode_entities_seq(s.subrange(hs, he))),
                None => match cdn_src_scan(s, "<source"@, 0) {
                    Some((hs, he)) => Some(decode_entities_seq(s.subrange(hs, he))),
                    None => match js_url_spec(s) {
                        Some((vs, ve)) => Some(decode_entities_seq(s.subrange(vs, ve))),
                        None => match meta_refresh_scan(s, 0) {
                            Some(u) => Some(decode_entities_seq(u)),
                            None => match generic_scan(s, 0, true) {
                                Some((ps, pe)) => Some(decode_entities_seq(s.subrange(ps, pe))),
                                None => match generic_scan(s, 0, false) {
                                    Some((ps, pe)) => Some(
                                        decode_entities_seq(s.subrange(ps, pe)),
                                    ),
                                    None => None,
                                },
                            },
                        },
                    },
                },
            },
        }
    }
}

/// Entity-decodes a captured range into an owned string.
fn decoded_range(t: &Vec<char>, a: usize, b: usize) -> (r: String)
    requires
        a <= b <= t@.len(),
    ensures
        r@ == decode_entities_seq(t@.subrange(a as int, b as int)),
{
    let v = decode_entities_vec(&vec_range(t, a, b));
    let vn: usize = v.len();
    let r = string_of_range(&v, 0, vn);
    proof {
        assert(v@.subrange(0, vn as int) =~= v@);
    }
    r
}

/// Parses page HTML and extracts the direct CDN URL: the highest-quality
/// structured source when the page lists any, else the first fallback
/// strategy that finds one. Fails exactly when no strategy does.
pub fn parse_direct_url(html: &str) -> (r: Result<String, PrehrajtoError>)
    ensures
        (r matches Ok(u) ==> direct_url_spec(html@) matches Some(w) && u@ == w),
        (r matches Err(_e) ==> direct_url_spec(html@) is None),
        (r matches Err(e) ==> e matches PrehrajtoError::NotFound(m) && m@
            == "Could not find direct CDN URL in download page"@),
{
    let t = chars_of(html);
    let sources = parse_video_sources_vec(&t);
    if sources.len() > 0 {
        assert(source_views(sources@).len() == sources@.len());
        let b = best_source_index(&sources);
        let ghost views = source_views(sources@);
        assert(views[b as int] == sources@[b as int]@);
        let u = crate::text::clone_string(&sources[b].url);
        return Ok(u);
    }
    assert(source_views(sources@).len() == sources@.len());
    match find_cdn_anchor(&t) {
        Some((hs, he)) => {
            return Ok(decoded_range(&t, hs, he));
        },
        None => {},
    }
    proof {
        reveal_strlit("<video");
        reveal_strlit("<source");
    }
    match find_cdn_src(&t, &chars_of("<video")) {
        Some((hs, he)) => {
            return Ok(decoded_range(&t, hs, he));
        },
        None => {},
    }
    match find_cdn_src(&t, &chars_of("<source")) {
        Some((hs, he)) => {
            return Ok(decoded_range(&t, hs, he));
        },
        None => {},
    }
    proof {
        reveal_strlit("window.location.href");
        reveal_strlit("window.location");
        reveal_strlit("location.href");
        reveal_strlit("location");
    }
    match find_js_assign(&t, &chars_of("window.location.href")) {
        Some((vs, ve)) => {
            return Ok(decoded_range(&t, vs, ve));
        },
        None => {},
    }
    match find_js_assign(&t, &chars_of("window.location")) {
        Some((vs, ve)) => {
            return Ok(decoded_range(&t, vs, ve));
        },
        None => {},
    }
    match find_js_assign(&t, &chars_of("location.href")) {
        Some((vs, ve)) => {
            return Ok(decoded_range(&t, vs, ve));
        },
        None => {},
    }
    match find_js_assign(&t, &chars_of("location")) {
        Some((vs, ve)) => {
            return Ok(decoded_range(&t, vs, ve));
        },
        None => {},
    }
    match find_meta_refresh(&t) {
        Some(u) => {
            let uv = chars_of(u.as_str());
            let un: usize = uv.len();
            let d = decode_entities_vec(&uv);
            let dn: usize = d.len();
            let r = string_of_range(&d, 0, dn);
            proof {
                assert(d@.subrange(0, dn as int) =~= d@);
            }
            return Ok(r);
        },
        None => {},
    }
    match find_generic_cdn(&t, true) {
        Some((ps, pe)) => {
            return Ok(decoded_range(&t, ps, pe));
        },
        None => {},
    }
    match find_generic_cdn(&t, false) {
        Some((ps, pe)) => {
            return Ok(decoded_range(&t, ps, pe));
        },
        None => {},
    }
    Err(PrehrajtoError::NotFound(String::from_str("Could not find direct CDN URL in download page")))
}

/// The original uploaded file named by the first CDN anchor of a
/// download-redirect page: URL entity-decoded, resolution read from the
/// decoded filename, label derived from the resolution, format from the
/// URL; never the default variant.
pub open spec fn original_source_spec(s: Seq<char>) -> Option<VideoSourceView> {
    match cdn_anchor_scan(s, 0) {
        None => None,
        Some((hs, he)) => {
            let u = decode_entities_seq(s.subrange(hs, he));
            let res = match filename_of_url(u) {
                Some(f) => text_resolution(f),
                None => 0,
            };
            Some(
                VideoSourceView {
                    url: u,
                    label: if res > 0 {
                        dec_str(res as nat).push('p')
                    } else {
                        "original"@
                    },
                    resolution: res,
                    is_default: false,
                    format: format_of_url(u),
                },
            )
        },
    }
}

/// Parses a download-redirect page and extracts the original file's URL
/// and inferred quality. Fails exactly when no CDN anchor exists.
pub fn parse_original_download_url(html: &str) -> (r: Result<VideoSource, PrehrajtoError>)
    ensures
        (r matches Ok(v) ==> original_source_spec(html@) matches Some(w) && v@ == w),
        (r matches Err(_e) ==> original_source_spec(html@) is None),
        (r matches Err(e) ==> e matches PrehrajtoError::NotFound(m) && m@
            == "Could not find original download URL in redirect page"@),
{
    let t = chars_of(html);
    match find_cdn_anchor(&t) {
        None => Err(
            PrehrajtoError::NotFound(
                String::from_str("Could not find original download URL in redirect page"),
            ),
        ),
        Some((hs, he)) => {
            let uvec = decode_entities_vec(&vec_range(&t, hs, he));
            let un: usize = uvec.len();
            let url = string_of_range(&uvec, 0, un);
            proof {
                assert(uvec@.subrange(0, un as int) =~= uvec@);
            }
            let resolution: u32 = match extract_filename_from_url(&uvec) {
                Some(f) => parse_resolution_from_text(f.as_str()),
                None => 0,
            };
            let label: String = if resolution > 0 {
                let mut l = String::new();
                crate::numbers::append_u32(&mut l, resolution);
                crate::text::push_char(&mut l, 'p');
                assert(l@ =~= dec_str(resolution as nat).push('p'));
                l
            } else {
                String::from_str("original")
            };
            let format = format_from_vec(&uvec);
            let v = VideoSource { url, label, resolution, is_default: false, format };
            Ok(v)
        },
    }
}

} // verus!
