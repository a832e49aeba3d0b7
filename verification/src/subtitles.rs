//! Subtitle-track extraction from a video page: the primary player's
//! track objects carry an explicit language code; the secondary player's
//! lack one, so it is derived from the label, and the default marker may
//! have to be found by scanning backward from the track URL.
use vstd::prelude::*;
use crate::types::{SubtitleTrack, SubtitleTrackView};
use crate::text::{matches_at, find_at, char_pos, skip_spaces, quoted_after_key, find_at_within,
    rlast_char_pos, chars_of, find_sub, find_char, skip_ws, match_at, string_of_range, vec_range,
    vec_eq, contains_within, rfind_char_in, find_quoted_after_key, lemma_find_at_some,
    lemma_char_pos_some};
use crate::quality::{clean_label_spec, label_language_spec, clean_label_vec,
    language_from_label_vec};

verus! {

/// The views of a vector of subtitle tracks.
pub open spec fn track_views(v: Seq<SubtitleTrack>) -> Seq<SubtitleTrackView> {
    v.map_values(|s: SubtitleTrack| s@)
}

/// One primary-format track whose object opens at the brace at `i`:
/// a quoted `src` URL, then quoted `srclang`, `label` and a `captions`
/// kind before the closing brace, with an optional default marker after
/// the kind.
pub open spec fn vjs_track_at(t: Seq<char>, i: int) -> Option<(SubtitleTrackView, int)> {
    let f = skip_spaces(t, i + 1);
    if !matches_at(t, "src:"@, f) {
        None
    } else {
        let v = skip_spaces(t, f + 4);
        if !(v < t.len() && t[v] == '"') {
            None
        } else {
            match char_pos(t, '"', v + 1, t.len() as int) {
                None => None,
                Some(ue) => {
                    if ue <= v + 1 {
                        None
                    } else {
                        match find_at(t, "}"@, ue + 1) {
                            None => None,
                            Some(b) => {
                                match quoted_after_key(t, "srclang:"@, ue + 1, b, '"') {
                                    None => None,
                                    Some((gs, ge)) => {
                                        if ge <= gs {
                                            None
                                        } else {
                                            match quoted_after_key(t, "label:"@, ge + 1, b, '"') {
                                                None => None,
                                                Some((ls, le)) => {
                                                    if le <= ls {
                                                        None
                                                    } else {
                                                        match quoted_after_key(
                                                            t,
                                                            "kind:"@,
                                                            le + 1,
                                                            b,
                                                            '"',
                                                        ) {
                                                            None => None,
                                                            Some((ks, ke)) => {
                                                                if t.subrange(ks, ke)
                                                                    != "captions"@ {
                                                                    None
                                                                } else {
                                                                    Some(
                                                                        (
                                                                            SubtitleTrackView {
                                                                                url: t.subrange(
                                                                                    v + 1,
                                                                                    ue,
                                                                                ),
                                                                                language:
                                                                                    t.subrange(
                                                                                    gs,
                                                                                    ge,
                                                                                ),
                                                                                label:
                                                                                    clean_label_spec(
                                                                                    t.subrange(
                                                                                        ls,
                                                                                        le,
                                                                                    ),
                                                                                ),
                                                                                is_default:
                                                                                    find_at_within(
                                                                                    t,
                                                                                    "default: true"@,
                                                                                    ke + 1,
                                                                                    b,
                                                                                ) is Some
                                                                                    || find_at_within(
                                                                                    t,
                                                                                    "default:true"@,
                                                                                    ke + 1,
                                                                                    b,
                                                                                ) is Some,
                                                                            },
                                                                            b + 1,
                                                                        ),
                                                                    )
                                                                }
                                                            },
                                                        }
                                                    }
                                                },
                                            }
                                        }
                                    },
                                }
                            },
                        }
                    }
                },
            }
        }
    }
}

/// Whether a default marker with a quoted key stands in the same object
/// shortly before the first occurrence of the track URL — the secondary
/// format sometimes puts the marker before the URL field.
pub open spec fn before_url_default(t: Seq<char>, url: Seq<char>) -> bool {
    match find_at(t, url, 0) {
        None => false,
        Some(pos) => {
            let start = if pos >= 200 {
                pos - 200
            } else {
                0
            };
            match rlast_char_pos(t, '{', start, pos) {
                None => false,
                Some(br) => find_at_within(t, "\"default\": true"@, br, pos) is Some
                    || find_at_within(t, "\"default\":true"@, br, pos) is Some,
            }
        },
    }
}

/// One secondary-format track whose object opens at the brace at `i`:
/// a quoted `file` URL holding `.vtt` past its first character, then a
/// quoted label and a `captions` kind; the default marker is looked for
/// after the kind and, failing that, backward from the URL.
pub open spec fn jw_track_at(t: Seq<char>, i: int) -> Option<(SubtitleTrackView, int)> {
    let f = skip_spaces(t, i + 1);
    if !matches_at(t, "file:"@, f) {
        None
    } else {
        let v = skip_spaces(t, f + 5);
        if !(v < t.len() && t[v] == '"') {
            None
        } else {
            match char_pos(t, '"', v + 1, t.len() as int) {
                None => None,
                Some(ue) => {
                    let url = t.subrange(v + 1, ue);
                    if !(find_at(url, ".vtt"@, 1) is Some) {
                        None
                    } else {
                        match find_at(t, "}"@, ue + 1) {
                            None => None,
                            Some(b) => {
                                match quoted_after_key(t, "label:"@, ue + 1, b, '"') {
                                    None => None,
                                    Some((ls, le)) => {
                                        if le <= ls {
                                            None
                                        } else {
                                            match quoted_after_key(t, "kind:"@, le + 1, b, '"') {
                                                None => None,
                                                Some((ks, ke)) => {
                                                    if t.subrange(ks, ke) != "captions"@ {
                                                        None
                                                    } else {
                                                        Some(
                                                            (
                                                                SubtitleTrackView {
                                                                    url: url,
                                                                    language: label_language_spec(
                                                                        t.subrange(ls, le),
                                                                    ),
                                                                    label: clean_label_spec(
                                                                        t.subrange(ls, le),
                                                                    ),
                                                                    is_default: find_at_within(
                                                                        t,
                                                                        "\"default\": true"@,
                                                                        ke + 1,
                                                                        b,
                                                                    ) is Some || find_at_within(
                                                                        t,
                                                                        "\"default\":true"@,
                                                                        ke + 1,
                                                                        b,
                                                                    ) is Some || before_url_default(
                                                                        t,
                                                                        url,
                                                                    ),
                                                                },
                                                                b + 1,
                                                            ),
                                                        )
                                                    }
                                                },
                                            }
                                        }
                                    },
                                }
                            },
                        }
                    }
                },
            }
        }
    }
}

/// All primary-format tracks from `from` on, one per opening brace that
/// parses as `vjs_track_at`.
pub open spec fn vjs_tracks_spec(t: Seq<char>, from: int) -> Seq<SubtitleTrackView>
    decreases t.len() - from,
{
    match find_at(t, "{"@, from) {
        None => Seq::empty(),
        Some(i) => {
            match vjs_track_at(t, i) {
                Some((e, nx)) => {
                    let next = if nx > i + 1 {
                        nx
                    } else {
                        i + 1
                    };
                    seq![e] + (if from < next <= t.len() {
                        vjs_tracks_spec(t, next)
                    } else {
                        Seq::empty()
                    })
                },
                None => {
                    if from < i + 1 <= t.len() {
                        vjs_tracks_spec(t, i + 1)
                    } else {
                        Seq::empty()
                    }
                },
            }
        },
    }
}

/// All secondary-format tracks from `from` on.
pub open spec fn jw_tracks_spec(t: Seq<char>, from: int) -> Seq<SubtitleTrackView>
    decreases t.len() - from,
{
    match find_at(t, "{"@, from) {
        None => Seq::empty(),
        Some(i) => {
            match jw_track_at(t, i) {
                Some((e, nx)) => {
                    let next = if nx > i + 1 {
                        nx
                    } else {
                        i + 1
                    };
                    seq![e] + (if from < next <= t.len() {
                        jw_tracks_spec(t, next)
                    } else {
                        Seq::empty()
                    })
                },
                None => {
                    if from < i + 1 <= t.len() {
                        jw_tracks_spec(t, i + 1)
                    } else {
                        Seq::empty()
                    }
                },
            }
        },
    }
}

/// Parses one primary-format track object starting at the brace at `i`.
fn vjs_track_entry(t: &Vec<char>, i: usize) -> (r: Option<(SubtitleTrack, usize)>)
    requires
        i < t@.len(),
    ensures
        (r matches Some(p) ==> vjs_track_at(t@, i as int) matches Some(q) && p.0@ == q.0
            && p.1 as int == q.1 && p.1 <= t@.len()),
        r is None ==> vjs_track_at(t@, i as int) is None,
{
    proof {
        reveal_strlit("src:");
        reveal_strlit("}");
        reveal_strlit("captions");
    }
    let n: usize = t.len();
    let f = skip_ws(t, i + 1);
    if !match_at(t, &chars_of("src:"), f) {
        return None;
    }
    assert(f + 4 <= n);
    let v = skip_ws(t, f + 4);
    if !(v < n && t[v] == '"') {
        return None;
    }
    let ue = match find_char(t, '"', v + 1, n) {
        Some(e) => e,
        None => {
            return None;
        },
    };
    proof {
        lemma_char_pos_some(t@, '"', v + 1, n as int, ue as int);
    }
    if ue <= v + 1 {
        return None;
    }
    let b: usize = match find_sub(t, &chars_of("}"), ue + 1) {
        Some(x) => x,
        None => {
            return None;
        },
    };
    proof {
        lemma_find_at_some(t@, "}"@, ue + 1, b as int);
    }
    let (gs, ge) = match find_quoted_after_key(t, &chars_of("srclang:"), ue + 1, b, '"') {
        Some(p) => p,
        None => {
            return None;
        },
    };
    if ge <= gs {
        return None;
    }
    assert(ge < n);
    let (ls, le) = match find_quoted_after_key(t, &chars_of("label:"), ge + 1, b, '"') {
        Some(p) => p,
        None => {
            return None;
        },
    };
    if le <= ls {
        return None;
    }
    assert(le < n);
    let (ks, ke) = match find_quoted_after_key(t, &chars_of("kind:"), le + 1, b, '"') {
        Some(p) => p,
        None => {
            return None;
        },
    };
    if !vec_eq(&vec_range(t, ks, ke), &chars_of("captions")) {
        return None;
    }
    assert(ke < n);
    let url = string_of_range(t, v + 1, ue);
    let language = string_of_range(t, gs, ge);
    let raw_label = vec_range(t, ls, le);
    let label = clean_label_vec(&raw_label);
    let is_default = contains_within(t, &chars_of("default: true"), ke + 1, b) || contains_within(
        t,
        &chars_of("default:true"),
        ke + 1,
        b,
    );
    let s = SubtitleTrack { url, language, label, is_default };
    Some((s, b + 1))
}

/// Parses one secondary-format track object starting at the brace at `i`.
fn jw_track_entry(t: &Vec<char>, i: usize) -> (r: Option<(SubtitleTrack, usize)>)
    requires
        i < t@.len(),
    ensures
        (r matches Some(p) ==> jw_track_at(t@, i as int) matches Some(q) && p.0@ == q.0
            && p.1 as int == q.1 && p.1 <= t@.len()),
        r is None ==> jw_track_at(t@, i as int) is None,
{
    proof {
        reveal_strlit("file:");
        reveal_strlit("}");
        reveal_strlit("captions");
    }
    let n: usize = t.len();
    let f = skip_ws(t, i + 1);
    if !match_at(t, &chars_of("file:"), f) {
        return None;
    }
    assert(f + 5 <= n);
    let v = skip_ws(t, f + 5);
    if !(v < n && t[v] == '"') {
        return None;
    }
    let ue = match find_char(t, '"', v + 1, n) {
        Some(e) => e,
        None => {
            return None;
        },
    };
    proof {
        lemma_char_pos_some(t@, '"', v + 1, n as int, ue as int);
    }
    let url_vec = vec_range(t, v + 1, ue);
    match find_sub(&url_vec, &chars_of(".vtt"), 1) {
        Some(_) => (),
        None => {
            return None;
        },
    }
    let b: usize = match find_sub(t, &chars_of("}"), ue + 1) {
        Some(x) => x,
        None => {
            return None;
        },
    };
    proof {
        lemma_find_at_some(t@, "}"@, ue + 1, b as int);
    }
    let (ls, le) = match find_quoted_after_key(t, &chars_of("label:"), ue + 1, b, '"') {
        Some(p) => p,
        None => {
            return None;
        },
    };
    if le <= ls {
        return None;
    }
    assert(le < n);
    let (ks, ke) = match find_quoted_after_key(t, &chars_of("kind:"), le + 1, b, '"') {
        Some(p) => p,
        None => {
            return None;
        },
    };
    if !vec_eq(&vec_range(t, ks, ke), &chars_of("captions")) {
        return None;
    }
    assert(ke < n);
    let mut is_default = contains_within(t, &chars_of("\"default\": true"), ke + 1, b)
        || contains_within(t, &chars_of("\"default\":true"), ke + 1, b);
    if !is_default {
        is_default = before_url_default_exec(t, &url_vec);
    }
    let url = string_of_range(t, v + 1, ue);
    let raw_label = vec_range(t, ls, le);
    let label = clean_label_vec(&raw_label);
    let language = language_from_label_vec(&raw_label);
    let s = SubtitleTrack { url, language, label, is_default };
    Some((s, b + 1))
}

/// Backward scan for a quoted default marker in the object enclosing the
/// first occurrence of `url`.
fn before_url_default_exec(t: &Vec<char>, url: &Vec<char>) -> (r: bool)
    ensures
        r == before_url_default(t@, url@),
{
    let pos = match find_sub(t, url, 0) {
        Some(p) => p,
        None => {
            return false;
        },
    };
    proof {
        lemma_find_at_some(t@, url@, 0, pos as int);
    }
    let start: usize = if pos >= 200 {
        pos - 200
    } else {
        0
    };
    match rfind_char_in(t, '{', start, pos) {
        None => false,
        Some(br) => contains_within(t, &chars_of("\"default\": true"), br, pos)
            || contains_within(t, &chars_of("\"default\":true"), br, pos),
    }
}

/// Extracts tracks from the primary player's declarations.
pub fn extract_videojs_tracks(t: &Vec<char>) -> (r: Vec<SubtitleTrack>)
    ensures
        track_views(r@) == vjs_tracks_spec(t@, 0),
{
    let open_pat = chars_of("{");
    proof {
        reveal_strlit("{");
    }
    let n: usize = t.len();
    let mut r: Vec<SubtitleTrack> = Vec::new();
    let mut pos: usize = 0;
    assert(track_views(r@) + vjs_tracks_spec(t@, 0) =~= vjs_tracks_spec(t@, 0));
    loop
        invariant
            0 <= pos <= n,
            n == t@.len(),
            open_pat@ == "{"@,
            open_pat@.len() == 1,
            vjs_tracks_spec(t@, 0) == track_views(r@) + vjs_tracks_spec(t@, pos as int),
        decreases n - pos,
    {
        match find_sub(t, &open_pat, pos) {
            None => {
                assert(vjs_tracks_spec(t@, pos as int) =~= Seq::<SubtitleTrackView>::empty());
                assert(track_views(r@) =~= vjs_tracks_spec(t@, 0));
                return r;
            },
            Some(i) => {
                proof {
                    lemma_find_at_some(t@, "{"@, pos as int, i as int);
                }
                let ghost views0 = track_views(r@);
                match vjs_track_entry(t, i) {
                    Some((s, nx)) => {
                        let next: usize = if nx > i + 1 {
                            nx
                        } else {
                            i + 1
                        };
                        let ghost sv = s@;
                        r.push(s);
                        assert(track_views(r@) =~= views0.push(sv));
                        assert(vjs_tracks_spec(t@, pos as int) == seq![sv] + vjs_tracks_spec(
                            t@,
                            next as int,
                        ));
                        assert(track_views(r@) + vjs_tracks_spec(t@, next as int) =~= views0
                            + vjs_tracks_spec(t@, pos as int));
                        pos = next;
                    },
                    None => {
                        assert(vjs_tracks_spec(t@, pos as int) == vjs_tracks_spec(t@, i + 1));
                        pos = i + 1;
                    },
                }
            },
        }
    }
}

/// Extracts tracks from the secondary player's declarations.
pub fn extract_jwplayer_tracks(t: &Vec<char>) -> (r: Vec<SubtitleTrack>)
    ensures
        track_views(r@) == jw_tracks_spec(t@, 0),
{
    let open_pat = chars_of("{");
    proof {
        reveal_strlit("{");
    }
    let n: usize = t.len();
    let mut r: Vec<SubtitleTrack> = Vec::new();
    let mut pos: usize = 0;
    assert(track_views(r@) + jw_tracks_spec(t@, 0) =~= jw_tracks_spec(t@, 0));
    loop
        invariant
            0 <= pos <= n,
            n == t@.len(),
            open_pat@ == "{"@,
            open_pat@.len() == 1,
            jw_tracks_spec(t@, 0) == track_views(r@) + jw_tracks_spec(t@, pos as int),
        decreases n - pos,
    {
        match find_sub(t, &open_pat, pos) {
            None => {
                assert(jw_tracks_spec(t@, pos as int) =~= Seq::<SubtitleTrackView>::empty());
                assert(track_views(r@) =~= jw_tracks_spec(t@, 0));
                return r;
            },
            Some(i) => {
                proof {
                    lemma_find_at_some(t@, "{"@, pos as int, i as int);
                }
                let ghost views0 = track_views(r@);
                match jw_track_entry(t, i) {
                    Some((s, nx)) => {
                        let next: usize = if nx > i + 1 {
                            nx
                        } else {
                            i + 1
                        };
                        let ghost sv = s@;
                        r.push(s);
                        assert(track_views(r@) =~= views0.push(sv));
                        assert(jw_tracks_spec(t@, pos as int) == seq![sv] + jw_tracks_spec(
                            t@,
                            next as int,
                        ));
                        assert(track_views(r@) + jw_tracks_spec(t@, next as int) =~= views0
                            + jw_tracks_spec(t@, pos as int));
                        pos = next;
                    },
                    None => {
                        assert(jw_tracks_spec(t@, pos as int) == jw_tracks_spec(t@, i + 1));
                        pos = i + 1;
                    },
                }
            },
        }
    }
}

/// Every subtitle track of a video page: the primary format's tracks when
/// it yields any, else the secondary format's.
pub open spec fn subtitle_tracks_spec(s: Seq<char>) -> Seq<SubtitleTrackView> {
    if vjs_tracks_spec(s, 0).len() > 0 {
        vjs_tracks_spec(s, 0)
    } else {
        jw_tracks_spec(s, 0)
    }
}

/// Parses video page HTML and extracts all subtitle tracks, trying the
/// primary player format first and the secondary format when the first
/// yields nothing.
pub fn parse_subtitle_tracks(html: &str) -> (r: Vec<SubtitleTrack>)
    ensures
        track_views(r@) == subtitle_tracks_spec(html@),
{
    let t = chars_of(html);
    parse_subtitle_tracks_vec(&t)
}

/// Track extraction on a character vector.
pub fn parse_subtitle_tracks_vec(t: &Vec<char>) -> (r: Vec<SubtitleTrack>)
    ensures
        track_views(r@) == subtitle_tracks_spec(t@),
{
    let v = extract_videojs_tracks(t);
    if v.len() > 0 {
        assert(track_views(v@).len() == v@.len());
        v
    } else {
        assert(track_views(v@).len() == v@.len());
        extract_jwplayer_tracks(t)
    }
}

} // verus!
