//! Streaming-source extraction from a video page: the primary player's
//! declarative `videos.push({...})` entries, with a fallback to the
//! secondary player's inline `{ file: ... }` array entries.
use vstd::prelude::*;
use crate::types::{VideoSource, VideoSourceView};
use crate::numbers::{all_digits, parsed_u32, all_digits_range, parse_u32_range};
use crate::text::{matches_at, find_at, contains_seq, char_pos, skip_spaces, quoted_after_key,
    find_at_within, chars_of, find_sub, find_char, skip_ws, match_at, string_of_range, vec_range,
    contains_sub, contains_within, find_quoted_after_key, lemma_find_at_some,
    lemma_char_pos_some};
use crate::quality::{label_resolution, format_of_url, format_from_vec,
    parse_resolution_from_label};

verus! {

/// The views of a vector of sources.
pub open spec fn source_views(v: Seq<VideoSource>) -> Seq<VideoSourceView> {
    v.map_values(|s: VideoSource| s@)
}

/// One primary-format entry inside the object region `[a, b)`: a quoted
/// `src` URL, a quoted all-digit `res` code, a quoted `label`, and an
/// optional default marker in the remaining text.
pub open spec fn videojs_entry(t: Seq<char>, a: int, b: int) -> Option<VideoSourceView> {
    match quoted_after_key(t, "src:"@, a, b, '"') {
        None => None,
        Some((us, ue)) => {
            if ue <= us {
                None
            } else {
                match quoted_after_key(t, "res:"@, ue + 1, b, '\'') {
                    None => None,
                    Some((rs, re)) => {
                        if re <= rs || !all_digits(t.subrange(rs, re)) {
                            None
                        } else {
                            match quoted_after_key(t, "label:"@, re + 1, b, '\'') {
                                None => None,
                                Some((ls, le)) => {
                                    if le <= ls {
                                        None
                                    } else {
                                        Some(
                                            VideoSourceView {
                                                url: t.subrange(us, ue),
                                                label: t.subrange(ls, le),
                                                resolution: parsed_u32(t.subrange(rs, re)),
                                                is_default: find_at_within(
                                                    t,
                                                    "default: true"@,
                                                    le + 1,
                                                    b,
                                                ) is Some || find_at_within(
                                                    t,
                                                    "default:true"@,
                                                    le + 1,
                                                    b,
                                                ) is Some,
                                                format: format_of_url(t.subrange(us, ue)),
                                            },
                                        )
                                    }
                                },
                            }
                        }
                    },
                }
            }
        },
    }
}

/// All primary-format entries from `from` on: each `videos.push({`
/// opens an object that runs to the next `}`, parsed as `videojs_entry`.
pub open spec fn videojs_sources_spec(t: Seq<char>, from: int) -> Seq<VideoSourceView>
    decreases t.len() - from,
{
    match find_at(t, "videos.push({"@, from) {
        None => Seq::empty(),
        Some(i) => {
            let a = i + "videos.push({"@.len();
            match find_at(t, "}"@, a) {
                None => Seq::empty(),
                Some(b) => {
                    let rest = if from < b + 1 <= t.len() {
                        videojs_sources_spec(t, b + 1)
                    } else {
                        Seq::empty()
                    };
                    match videojs_entry(t, a, b) {
                        Some(e) => seq![e] + rest,
                        None => rest,
                    }
                },
            }
        },
    }
}

/// Parses one primary-format object region.
fn videojs_entry_at(t: &Vec<char>, a: usize, b: usize) -> (r: Option<VideoSource>)
    requires
        a <= t@.len(),
        b <= t@.len(),
    ensures
        (r matches Some(s) ==> videojs_entry(t@, a as int, b as int) == Some(s@)),
        r is None ==> videojs_entry(t@, a as int, b as int) is None,
{
    let n: usize = t.len();
    let (us, ue) = match find_quoted_after_key(t, &chars_of("src:"), a, b, '"') {
        Some(p) => p,
        None => {
            return None;
        },
    };
    if ue <= us {
        return None;
    }
    assert(ue < n);
    let (rs, re) = match find_quoted_after_key(t, &chars_of("res:"), ue + 1, b, '\'') {
        Some(p) => p,
        None => {
            return None;
        },
    };
    if re <= rs || !all_digits_range(t, rs, re) {
        return None;
    }
    assert(re < n);
    let (ls, le) = match find_quoted_after_key(t, &chars_of("label:"), re + 1, b, '\'') {
        Some(p) => p,
        None => {
            return None;
        },
    };
    if le <= ls {
        return None;
    }
    let url_vec = vec_range(t, us, ue);
    let url = string_of_range(t, us, ue);
    let label = string_of_range(t, ls, le);
    let resolution = parse_u32_range(t, rs, re);
    let bound: usize = if b <= t.len() {
        b
    } else {
        t.len()
    };
    assert(bound == b);
    let is_default = contains_within(t, &chars_of("default: true"), le + 1, b) || contains_within(
        t,
        &chars_of("default:true"),
        le + 1,
        b,
    );
    let format = format_from_vec(&url_vec);
    let s = VideoSource { url, label, resolution, is_default, format };
    Some(s)
}

/// Extracts sources from the primary player's `videos.push({...})` blocks.
pub fn extract_videojs_sources(t: &Vec<char>) -> (r: Vec<VideoSource>)
    ensures
        source_views(r@) == videojs_sources_spec(t@, 0),
{
    let pat = chars_of("videos.push({");
    proof {
        reveal_strlit("videos.push({");
        reveal_strlit("}");
    }
    let brace = chars_of("}");
    let n: usize = t.len();
    let mut r: Vec<VideoSource> = Vec::new();
    let mut pos: usize = 0;
    assert(source_views(r@) + videojs_sources_spec(t@, 0) =~= videojs_sources_spec(t@, 0));
    loop
        invariant
            0 <= pos <= n,
            n == t@.len(),
            pat@ == "videos.push({"@,
            pat@.len() == 13,
            brace@ == "}"@,
            brace@.len() == 1,
            videojs_sources_spec(t@, 0) == source_views(r@) + videojs_sources_spec(
                t@,
                pos as int,
            ),
        decreases n - pos,
    {
        match find_sub(t, &pat, pos) {
            None => {
                assert(videojs_sources_spec(t@, pos as int) =~= Seq::<VideoSourceView>::empty());
                assert(source_views(r@) =~= videojs_sources_spec(t@, 0));
                return r;
            },
            Some(i) => {
                proof {
                    lemma_find_at_some(t@, pat@, pos as int, i as int);
                }
                let a: usize = i + 13;
                match find_sub(t, &brace, a) {
                    None => {
                        assert(videojs_sources_spec(t@, pos as int) =~= Seq::<
                            VideoSourceView,
                        >::empty());
                        assert(source_views(r@) =~= videojs_sources_spec(t@, 0));
                        return r;
                    },
                    Some(b) => {
                        proof {
                            lemma_find_at_some(t@, brace@, a as int, b as int);
                        }
                        let ghost views0 = source_views(r@);
                        match videojs_entry_at(t, a, b) {
                            Some(s) => {
                                let ghost sv = s@;
                                r.push(s);
                                assert(source_views(r@) =~= views0.push(sv));
                                assert(videojs_sources_spec(t@, pos as int) == seq![sv]
                                    + videojs_sources_spec(t@, b + 1));
                                assert(source_views(r@) + videojs_sources_spec(t@, b + 1)
                                    =~= views0 + videojs_sources_spec(t@, pos as int));
                            },
                            None => {
                                assert(videojs_sources_spec(t@, pos as int)
                                    == videojs_sources_spec(t@, b + 1));
                            },
                        }
                        pos = b + 1;
                    },
                }
            },
        }
    }
}

/// One secondary-format entry whose object starts at the brace at `i`:
/// `file:` then a quoted URL on the CDN, then a quoted label before the
/// object's closing brace. Yields the entry and the position to continue
/// scanning from.
pub open spec fn jw_source_at(t: Seq<char>, i: int) -> Option<(VideoSourceView, int)> {
    let f = skip_spaces(t, i + 1);
    if !matches_at(t, "file:"@, f) {
        None
    } else {
        let v = skip_spaces(t, f + 5);
        if !(v < t.len() && t[v] == '"') {
            None
        } else {
            match char_pos(t, '"', v + 1, t.len() as int) {
                None => None,
                Some(ue) => {
                    let url = t.subrange(v + 1, ue);
                    if !contains_seq(url, "premiumcdn"@) {
                        None
                    } else {
                        let b = match find_at(t, "}"@, ue + 1) {
                            Some(x) => x,
                            None => t.len() as int,
                        };
                        match quoted_after_key(t, "label:"@, ue + 1, b, '\'') {
                            None => None,
                            Some((ls, le)) => {
                                if le <= ls {
                                    None
                                } else {
                                    Some(
                                        (
                                            VideoSourceView {
                                                url: url,
                                                label: t.subrange(ls, le),
                                                resolution: label_resolution(t.subrange(ls, le)),
                                                is_default: false,
                                                format: format_of_url(url),
                                            },
                                            le + 1,
                                        ),
                                    )
                                }
                            },
                        }
                    }
                },
            }
        }
    }
}

/// All secondary-format entries from `from` on, one per opening brace
/// that parses as `jw_source_at`.
pub open spec fn jwplayer_sources_spec(t: Seq<char>, from: int) -> Seq<VideoSourceView>
    decreases t.len() - from,
{
    match find_at(t, "{"@, from) {
        None => Seq::empty(),
        Some(i) => {
            match jw_source_at(t, i) {
                Some((e, nx)) => {
                    let next = if nx > i + 1 {
                        nx
                    } else {
                        i + 1
                    };
                    seq![e] + (if from < next <= t.len() {
                        jwplayer_sources_spec(t, next)
                    } else {
                        Seq::empty()
                    })
                },
                None => {
                    if from < i + 1 <= t.len() {
                        jwplayer_sources_spec(t, i + 1)
                    } else {
                        Seq::empty()
                    }
                },
            }
        },
    }
}

/// Parses one secondary-format object starting at the brace at `i`.
fn jw_source_entry(t: &Vec<char>, i: usize) -> (r: Option<(VideoSource, usize)>)
    requires
        i < t@.len(),
    ensures
        (r matches Some(p) ==> jw_source_at(t@, i as int) matches Some(q) && p.0@ == q.0
            && p.1 as int == q.1 && p.1 <= t@.len()),
        r is None ==> jw_source_at(t@, i as int) is None,
{
    proof {
        reveal_strlit("file:");
    }
    let n: usize = t.len();
    let f = skip_ws(t, i + 1);
    let file_pat = chars_of("file:");
    if !match_at(t, &file_pat, f) {
        return None;
    }
    assert(f + 5 <= n);
    let v = skip_ws(t, f + 5);
    if !(v < n && t[v] == '"') {
        return None;
    }
    let ue = match find_char(t, '"', v + 1, n) {
        Some(e) => e,
        None => {
            return None;
        },
    };
    proof {
        lemma_char_pos_some(t@, '"', v + 1, n as int, ue as int);
    }
    let url_vec = vec_range(t, v + 1, ue);
    if !contains_sub(&url_vec, &chars_of("premiumcdn")) {
        return None;
    }
    proof {
        reveal_strlit("}");
    }
    let b: usize = match find_sub(t, &chars_of("}"), ue + 1) {
        Some(x) => x,
        None => n,
    };
    proof {
        match find_at(t@, "}"@, ue + 1) {
            Some(x) => lemma_find_at_some(t@, "}"@, ue + 1, x),
            None => (),
        }
    }
    let (ls, le) = match find_quoted_after_key(t, &chars_of("label:"), ue + 1, b, '\'') {
        Some(p) => p,
        None => {
            return None;
        },
    };
    if le <= ls {
        return None;
    }
    let url = string_of_range(t, v + 1, ue);
    let label = string_of_range(t, ls, le);
    let resolution = parse_resolution_from_label(label.as_str());
    let format = format_from_vec(&url_vec);
    let s = VideoSource { url, label, resolution, is_default: false, format };
    Some((s, le + 1))
}

/// Extracts sources from the secondary player's inline array entries.
pub fn extract_jwplayer_sources(t: &Vec<char>) -> (r: Vec<VideoSource>)
    ensures
        source_views(r@) == jwplayer_sources_spec(t@, 0),
{
    let open_pat = chars_of("{");
    proof {
        reveal_strlit("{");
    }
    let n: usize = t.len();
    let mut r: Vec<VideoSource> = Vec::new();
    let mut pos: usize = 0;
    assert(source_views(r@) + jwplayer_sources_spec(t@, 0) =~= jwplayer_sources_spec(t@, 0));
    loop
        invariant
            0 <= pos <= n,
            n == t@.len(),
            open_pat@ == "{"@,
            open_pat@.len() == 1,
            jwplayer_sources_spec(t@, 0) == source_views(r@) + jwplayer_sources_spec(
                t@,
                pos as int,
            ),
        decreases n - pos,
    {
        match find_sub(t, &open_pat, pos) {
            None => {
                assert(jwplayer_sources_spec(t@, pos as int) =~= Seq::<VideoSourceView>::empty());
                assert(source_views(r@) =~= jwplayer_sources_spec(t@, 0));
                return r;
            },
            Some(i) => {
                proof {
                    lemma_find_at_some(t@, "{"@, pos as int, i as int);
                }
                let ghost views0 = source_views(r@);
                match jw_source_entry(t, i) {
                    Some((s, nx)) => {
                        let next: usize = if nx > i + 1 {
                            nx
                        } else {
                            i + 1
                        };
                        let ghost sv = s@;
                        r.push(s);
                        assert(source_views(r@) =~= views0.push(sv));
                        assert(jwplayer_sources_spec(t@, pos as int) == seq![sv]
                            + jwplayer_sources_spec(t@, next as int));
                        assert(source_views(r@) + jwplayer_sources_spec(t@, next as int)
                            =~= views0 + jwplayer_sources_spec(t@, pos as int));
                        pos = next;
                    },
                    None => {
                        assert(jwplayer_sources_spec(t@, pos as int) == jwplayer_sources_spec(
                            t@,
                            i + 1,
                        ));
                        pos = i + 1;
                    },
                }
            },
        }
    }
}

/// LAW: a secondary-format entry carries no explicit resolution; every
/// extracted entry's resolution is derived purely from its label.
pub proof fn law_secondary_resolution_from_label(t: Seq<char>, from: int)
    ensures
        forall|i: int|
            0 <= i < jwplayer_sources_spec(t, from).len() ==> (#[trigger] jwplayer_sources_spec(
                t,
                from,
            )[i]).resolution == label_resolution(jwplayer_sources_spec(t, from)[i].label),
    decreases t.len() - from,
{
    let v = jwplayer_sources_spec(t, from);
    match find_at(t, "{"@, from) {
        None => {},
        Some(i) => {
            match jw_source_at(t, i) {
                Some((e, nx)) => {
                    assert(e.resolution == label_resolution(e.label));
                    let next = if nx > i + 1 {
                        nx
                    } else {
                        i + 1
                    };
                    if from < next <= t.len() {
                        law_secondary_resolution_from_label(t, next);
                        let rest = jwplayer_sources_spec(t, next);
                        assert(v == seq![e] + rest);
                        assert forall|q: int| 0 <= q < v.len() implies (#[trigger] v[q]).resolution
                            == label_resolution(v[q].label) by {
                            if q > 0 {
                                assert(v[q] == rest[q - 1]);
                            }
                        }
                    } else {
                        assert(v == seq![e] + Seq::<VideoSourceView>::empty());
                        assert(v.len() == 1);
                        assert(v[0] == e);
                    }
                },
                None => {
                    if from < i + 1 <= t.len() {
                        law_secondary_resolution_from_label(t, i + 1);
                    }
                },
            }
        },
    }
}

/// Every quality variant of a video page: the primary format's entries
/// when it yields any, else the secondary format's.
pub open spec fn video_sources_spec(s: Seq<char>) -> Seq<VideoSourceView> {
    if videojs_sources_spec(s, 0).len() > 0 {
        videojs_sources_spec(s, 0)
    } else {
        jwplayer_sources_spec(s, 0)
    }
}

/// Parses video page HTML and extracts all quality variants, trying the
/// primary player format first and the secondary format when the first
/// yields nothing.
pub fn parse_video_sources(html: &str) -> (r: Vec<VideoSource>)
    ensures
        source_views(r@) == video_sources_spec(html@),
{
    let t = chars_of(html);
    parse_video_sources_vec(&t)
}

/// Source extraction on a character vector.
pub fn parse_video_sources_vec(t: &Vec<char>) -> (r: Vec<VideoSource>)
    ensures
        source_views(r@) == video_sources_spec(t@),
{
    let v = extract_videojs_sources(t);
    if v.len() > 0 {
        assert(source_views(v@).len() == v@.len());
        v
    } else {
        assert(source_views(v@).len() == v@.len());
        extract_jwplayer_sources(t)
    }
}

} // verus!
