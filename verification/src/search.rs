//! Search-results parsing: every anchor inside the main content region
//! becomes a video summary when it carries a well-formed video link and a
//! non-empty heading; duration, quality badge and file size are classified
//! from the card's text chunks.
use vstd::prelude::*;
use crate::types::{VideoResult, VideoResultView};
use crate::error::PrehrajtoError;
use crate::text::{find_at, char_pos, trim_seq, trim_bounds, chars_of, find_sub, find_char,
    string_of_range, vec_range, vec_eq, lemma_find_at_some, lemma_char_pos_some};
use crate::markup::{next_tag, tag_close, attr_val, href_in_tag, strip_tags_text, find_tag,
    find_tag_close, find_attr_val, find_href, collect_text, lemma_next_tag_some};
use crate::quality::{duration_format, file_size_format, upper_seq, contains_hd, upper_vec,
    is_duration_format_vec, is_file_size_format_vec};
use crate::url::{base_url_seq, video_info_spec, extract_video_info, build_download_url};

verus! {

/// The views of a vector of summaries.
pub open spec fn result_views(v: Seq<VideoResult>) -> Seq<VideoResultView> {
    v.map_values(|s: VideoResult| s@)
}

/// The views of a vector of owned strings.
pub open spec fn str_views(v: Seq<String>) -> Seq<Seq<char>> {
    v.map_values(|s: String| s@)
}

/// The content region of the page's `<main>` element: from past its
/// opening tag to its closing tag (or the page's end).
pub open spec fn main_region(t: Seq<char>) -> Option<(int, int)> {
    match next_tag(t, "<main"@, 0) {
        None => None,
        Some(i) => {
            let gt = tag_close(t, i);
            let start = if gt + 1 <= t.len() {
                gt + 1
            } else {
                t.len() as int
            };
            let end = match find_at(t, "</main>"@, start) {
                Some(x) => x,
                None => t.len() as int,
            };
            if start <= end {
                Some((start, end))
            } else {
                Some((start, start))
            }
        },
    }
}

/// The plain text directly after position `gt`, up to the next `<` or
/// `end`, trimmed.
pub open spec fn direct_text(t: Seq<char>, gt: int, end: int) -> Seq<char> {
    let ds = gt + 1;
    let de = match char_pos(t, '<', ds, end) {
        Some(lt) => lt,
        None => end,
    };
    if 0 <= ds <= de <= t.len() {
        trim_seq(t.subrange(ds, de))
    } else {
        Seq::empty()
    }
}

/// The deduplicated, ordered list of non-empty direct texts of the `div`
/// elements in `[pos, end)`, appended to `acc`.
pub open spec fn div_texts(t: Seq<char>, pos: int, end: int, acc: Seq<Seq<char>>) -> Seq<
    Seq<char>,
>
    decreases t.len() - pos,
{
    match next_tag(t, "<div"@, pos) {
        None => acc,
        Some(i) => {
            if i >= end {
                acc
            } else {
                let gt = tag_close(t, i);
                let txt = direct_text(t, gt, end);
                let acc2 = if txt.len() > 0 && !acc.contains(txt) {
                    acc.push(txt)
                } else {
                    acc
                };
                if pos < i + 1 <= t.len() {
                    div_texts(t, i + 1, end, acc2)
                } else {
                    acc2
                }
            }
        },
    }
}

/// The first `span` in `[pos, end)` whose class names the quality badge
/// marker and whose text mentions `HD`; that text, trimmed.
pub open spec fn span_quality(t: Seq<char>, pos: int, end: int) -> Option<Seq<char>>
    decreases t.len() - pos,
{
    match next_tag(t, "<span"@, pos) {
        None => None,
        Some(i) => {
            if i >= end {
                None
            } else {
                let gt = tag_close(t, i);
                let marked = (match attr_val(t, i, gt, "class=\""@, '"') {
                    Some((cs, ce)) => find_at_within_cls(t, cs, ce),
                    None => false,
                }) || (match attr_val(t, i, gt, "class='"@, '\'') {
                    Some((cs, ce)) => find_at_within_cls(t, cs, ce),
                    None => false,
                });
                let hit = if marked {
                    match find_at(t, "</span>"@, gt + 1) {
                        Some(se) => {
                            if gt + 1 <= se {
                                let txt = trim_seq(strip_tags_text(t, gt + 1, se));
                                if contains_hd(txt) {
                                    Some(txt)
                                } else {
                                    None
                                }
                            } else {
                                None
                            }
                        },
                        None => None,
                    }
                } else {
                    None
                };
                match hit {
                    Some(txt) => Some(txt),
                    None => {
                        if pos < i + 1 <= t.len() {
                            span_quality(t, i + 1, end)
                        } else {
                            None
                        }
                    },
                }
            }
        },
    }
}

/// Whether the badge marker class stands in the class value `[cs, ce)`.
pub open spec fn find_at_within_cls(t: Seq<char>, cs: int, ce: int) -> bool {
    crate::text::find_at_within(t, "format__text"@, cs, ce) is Some
}

/// The first chunk matching the duration format.
pub open spec fn first_duration(l: Seq<Seq<char>>) -> Option<Seq<char>>
    decreases l.len(),
{
    if l.len() == 0 {
        None
    } else if duration_format(l[0]) {
        Some(l[0])
    } else {
        first_duration(l.drop_first())
    }
}

/// The first chunk matching the file-size format.
pub open spec fn first_size(l: Seq<Seq<char>>) -> Option<Seq<char>>
    decreases l.len(),
{
    if l.len() == 0 {
        None
    } else if file_size_format(l[0]) {
        Some(l[0])
    } else {
        first_size(l.drop_first())
    }
}

/// A short chunk that names the HD badge: uppercased it equals `HD`, or
/// mentions `HD` within at most four characters.
pub open spec fn hd_chunk(s: Seq<char>) -> bool {
    upper_seq(s) == "HD"@ || (contains_hd(s) && s.len() <= 4)
}

/// Whether the first HD chunk exists; the badge text is then the literal
/// `HD`.
pub open spec fn has_hd_chunk(l: Seq<Seq<char>>) -> bool
    decreases l.len(),
{
    if l.len() == 0 {
        false
    } else if hd_chunk(l[0]) {
        true
    } else {
        has_hd_chunk(l.drop_first())
    }
}

/// The heading text of the first `h3` element in `[a, ce)`, tags
/// stripped and trimmed.
pub open spec fn h3_text(t: Seq<char>, a: int, ce: int) -> Option<Seq<char>> {
    match next_tag(t, "<h3"@, a) {
        None => None,
        Some(i3) => {
            if i3 >= ce {
                None
            } else {
                let gt3 = tag_close(t, i3);
                match find_at(t, "</h3>"@, gt3 + 1) {
                    None => None,
                    Some(e3) => {
                        if gt3 + 1 <= e3 {
                            Some(trim_seq(strip_tags_text(t, gt3 + 1, e3)))
                        } else {
                            None
                        }
                    },
                }
            }
        },
    }
}

/// One video card from the anchor opening at `i`, confined to the region
/// ending at `end`: its link must dissect into slug and identifier, its
/// content must close and hold a non-empty heading; the optional fields
/// are classified from the card's text chunks.
pub open spec fn card_at(t: Seq<char>, i: int, end: int) -> Option<VideoResultView> {
    let gt = tag_close(t, i);
    match href_in_tag(t, i, gt) {
        None => None,
        Some((hs, he)) => {
            let href = t.subrange(hs, he);
            match video_info_spec(href) {
                None => None,
                Some((slug, id)) => {
                    match find_at(t, "</a>"@, gt + 1) {
                        None => None,
                        Some(ce) => {
                            match h3_text(t, gt + 1, ce) {
                                None => None,
                                Some(name) => {
                                    if name.len() == 0 {
                                        None
                                    } else {
                                        let qp = match char_pos(href, '?', 0, href.len() as int) {
                                            Some(q) => q,
                                            None => href.len() as int,
                                        };
                                        let texts = div_texts(t, gt + 1, ce, Seq::empty());
                                        let quality = match span_quality(t, gt + 1, ce) {
                                            Some(q) => Some(q),
                                            None => if has_hd_chunk(texts) {
                                                Some("HD"@)
                                            } else {
                                                None
                                            },
                                        };
                                        Some(
                                            VideoResultView {
                                                name: name,
                                                url: base_url_seq() + href.take(qp),
                                                video_id: id,
                                                video_slug: slug,
                                                download_url: base_url_seq() + "/"@ + slug + "/"@
                                                    + id + "?do=download"@,
                                                duration: first_duration(texts),
                                                quality: quality,
                                                file_size: first_size(texts),
                                            },
                                        )
                                    }
                                },
                            }
                        },
                    }
                },
            }
        },
    }
}

/// Every card of the anchors in `[pos, end)`, in document order.
pub open spec fn cards_spec(t: Seq<char>, pos: int, end: int) -> Seq<VideoResultView>
    decreases t.len() - pos,
{
    match next_tag(t, "<a"@, pos) {
        None => Seq::empty(),
        Some(i) => {
            if i >= end {
                Seq::empty()
            } else {
                let rest = if pos < i + 1 <= t.len() {
                    cards_spec(t, i + 1, end)
                } else {
                    Seq::empty()
                };
                match card_at(t, i, end) {
                    Some(card) => seq![card] + rest,
                    None => rest,
                }
            }
        },
    }
}

/// The summaries of a search-results page: every valid card inside the
/// main content region; an absent region or an input without cards
/// yields the empty list.
pub open spec fn search_results_spec(s: Seq<char>) -> Seq<VideoResultView> {
    match main_region(s) {
        None => Seq::empty(),
        Some((a, e)) => cards_spec(s, a, e),
    }
}

// ---------------------------------------------------------------------
// Executable extraction
// ---------------------------------------------------------------------

/// Whether `x` already stands in the list of chunks.
fn contains_string(v: &Vec<String>, x: &String) -> (r: bool)
    ensures
        r == str_views(v@).contains(x@),
{
    let n: usize = v.len();
    let mut i: usize = 0;
    while i < n
        invariant
            0 <= i <= n,
            n == v@.len(),
            str_views(v@).len() == n,
            forall|j: int| 0 <= j < i ==> str_views(v@)[j] != x@,
        decreases n - i,
    {
        let xc = crate::text::chars_of(x.as_str());
        let vc = crate::text::chars_of(v[i].as_str());
        if vec_eq(&vc, &xc) {
            assert(str_views(v@)[i as int] == x@);
            return true;
        }
        i = i + 1;
    }
    assert(!str_views(v@).contains(x@)) by {
        if str_views(v@).contains(x@) {
            let j = choose|j: int| 0 <= j < str_views(v@).len() && str_views(v@)[j] == x@;
        }
    }
    false
}

/// The trimmed direct text after `gt`, as an owned string.
fn direct_text_exec(t: &Vec<char>, gt: usize, end: usize) -> (r: String)
    requires
        end <= t@.len(),
        gt <= t@.len(),
    ensures
        r@ == direct_text(t@, gt as int, end as int),
{
    if gt >= end {
        let r = String::new();
        return r;
    }
    let ds: usize = gt + 1;
    let de: usize = match find_char(t, '<', ds, end) {
        Some(lt) => lt,
        None => end,
    };
    proof {
        match char_pos(t@, '<', ds as int, end as int) {
            Some(lt) => lemma_char_pos_some(t@, '<', ds as int, end as int, lt),
            None => (),
        }
    }
    if ds > de {
        let r = String::new();
        return r;
    }
    let part = vec_range(t, ds, de);
    let (a, b) = trim_bounds(&part);
    string_of_range(&part, a, b)
}

/// The ordered deduplicated non-empty direct texts of the region's `div`
/// elements.
fn div_texts_exec(t: &Vec<char>, from: usize, end: usize) -> (r: Vec<String>)
    requires
        from <= end <= t@.len(),
    ensures
        str_views(r@) == div_texts(t@, from as int, end as int, Seq::empty()),
{
    let pat = chars_of("<div");
    proof {
        reveal_strlit("<div");
    }
    let n: usize = t.len();
    let mut acc: Vec<String> = Vec::new();
    let mut pos: usize = from;
    assert(str_views(acc@) =~= Seq::<Seq<char>>::empty());
    loop
        invariant
            from <= pos <= n,
            end <= n,
            n == t@.len(),
            pat@ == "<div"@,
            pat@.len() == 4,
            div_texts(t@, from as int, end as int, Seq::empty()) == div_texts(
                t@,
                pos as int,
                end as int,
                str_views(acc@),
            ),
        decreases n - pos,
    {
        match find_tag(t, &pat, pos) {
            None => {
                return acc;
            },
            Some(i) => {
                proof {
                    lemma_next_tag_some(t@, pat@, pos as int, i as int);
                }
                if i >= end {
                    return acc;
                }
                let gt = find_tag_close(t, i);
                let txt = direct_text_exec(t, gt, end);
                let ghost acc0 = str_views(acc@);
                if !txt.as_str().is_empty() && !contains_string(&acc, &txt) {
                    let ghost tv = txt@;
                    acc.push(txt);
                    assert(str_views(acc@) =~= acc0.push(tv));
                }
                pos = i + 1;
            },
        }
    }
}

/// First duration chunk, as `first_duration` describes.
fn first_duration_exec(v: &Vec<String>) -> (r: Option<String>)
    ensures
        (r matches Some(s) ==> first_duration(str_views(v@)) == Some(s@)),
        r is None ==> first_duration(str_views(v@)) is None,
{
    let n: usize = v.len();
    let mut i: usize = 0;
    assert(str_views(v@).skip(0) =~= str_views(v@));
    while i < n
        invariant
            0 <= i <= n,
            n == v@.len(),
            str_views(v@).len() == n,
            first_duration(str_views(v@)) == first_duration(str_views(v@).skip(i as int)),
        decreases n - i,
    {
        let tc = crate::text::chars_of(v[i].as_str());
        proof {
            assert(str_views(v@).skip(i as int)[0] == str_views(v@)[i as int]);
            assert(str_views(v@).skip(i as int).drop_first() =~= str_views(v@).skip(i + 1));
        }
        if is_duration_format_vec(&tc) {
            return Some(crate::text::clone_string(&v[i]));
        }
        i = i + 1;
    }
    assert(str_views(v@).skip(n as int) =~= Seq::<Seq<char>>::empty());
    None
}

/// First file-size chunk, as `first_size` describes.
fn first_size_exec(v: &Vec<String>) -> (r: Option<String>)
    ensures
        (r matches Some(s) ==> first_size(str_views(v@)) == Some(s@)),
        r is None ==> first_size(str_views(v@)) is None,
{
    let n: usize = v.len();
    let mut i: usize = 0;
    assert(str_views(v@).skip(0) =~= str_views(v@));
    while i < n
        invariant
            0 <= i <= n,
            n == v@.len(),
            str_views(v@).len() == n,
            first_size(str_views(v@)) == first_size(str_views(v@).skip(i as int)),
        decreases n - i,
    {
        let tc = crate::text::chars_of(v[i].as_str());
        proof {
            assert(str_views(v@).skip(i as int)[0] == str_views(v@)[i as int]);
            assert(str_views(v@).skip(i as int).drop_first() =~= str_views(v@).skip(i + 1));
        }
        if is_file_size_format_vec(&tc) {
            return Some(crate::text::clone_string(&v[i]));
        }
        i = i + 1;
    }
    assert(str_views(v@).skip(n as int) =~= Seq::<Seq<char>>::empty());
    None
}

/// Whether any chunk names the HD badge, as `has_hd_chunk` describes.
fn has_hd_chunk_exec(v: &Vec<String>) -> (r: bool)
    ensures
        r == has_hd_chunk(str_views(v@)),
{
    let n: usize = v.len();
    let mut i: usize = 0;
    assert(str_views(v@).skip(0) =~= str_views(v@));
    while i < n
        invariant
            0 <= i <= n,
            n == v@.len(),
            str_views(v@).len() == n,
            has_hd_chunk(str_views(v@)) == has_hd_chunk(str_views(v@).skip(i as int)),
        decreases n - i,
    {
        let tc = crate::text::chars_of(v[i].as_str());
        proof {
            assert(str_views(v@).skip(i as int)[0] == str_views(v@)[i as int]);
            assert(str_views(v@).skip(i as int).drop_first() =~= str_views(v@).skip(i + 1));
        }
        let uc = upper_vec(&tc);
        let is_hd = vec_eq(&uc, &chars_of("HD")) || (crate::quality::contains_hd_vec(&tc)
            && tc.len() <= 4);
        if is_hd {
            assert(hd_chunk(str_views(v@)[i as int]));
            return true;
        }
        assert(!hd_chunk(str_views(v@)[i as int]));
        i = i + 1;
    }
    assert(str_views(v@).skip(n as int) =~= Seq::<Seq<char>>::empty());
    false
}

/// The first `h3` heading's text, as `h3_text` describes.
fn h3_text_exec(t: &Vec<char>, a: usize, ce: usize) -> (r: Option<String>)
    requires
        a <= t@.len(),
        ce <= t@.len(),
    ensures
        (r matches Some(s) ==> h3_text(t@, a as int, ce as int) == Some(s@)),
        r is None ==> h3_text(t@, a as int, ce as int) is None,
{
    let pat = chars_of("<h3");
    proof {
        reveal_strlit("<h3");
        reveal_strlit("</h3>");
    }
    let i3 = match find_tag(t, &pat, a) {
        Some(i3) => i3,
        None => {
            return None;
        },
    };
    proof {
        lemma_next_tag_some(t@, pat@, a as int, i3 as int);
    }
    if i3 >= ce {
        return None;
    }
    let gt3 = find_tag_close(t, i3);
    let n: usize = t.len();
    if gt3 >= n {
        return None;
    }
    let e3 = match find_sub(t, &chars_of("</h3>"), gt3 + 1) {
        Some(e3) => e3,
        None => {
            return None;
        },
    };
    proof {
        lemma_find_at_some(t@, "</h3>"@, gt3 + 1, e3 as int);
    }
    let raw = collect_text(t, gt3 + 1, e3);
    let (ta, tb) = trim_bounds(&raw);
    Some(string_of_range(&raw, ta, tb))
}

/// The first quality-badge span's text, as `span_quality` describes.
fn span_quality_exec(t: &Vec<char>, from: usize, end: usize) -> (r: Option<String>)
    requires
        from <= t@.len(),
        end <= t@.len(),
    ensures
        (r matches Some(s) ==> span_quality(t@, from as int, end as int) == Some(s@)),
        r is None ==> span_quality(t@, from as int, end as int) is None,
{
    let pat = chars_of("<span");
    proof {
        reveal_strlit("<span");
        reveal_strlit("</span>");
        reveal_strlit("format__text");
    }
    let n: usize = t.len();
    let mut pos: usize = from;
    loop
        invariant
            from <= pos <= n,
            end <= n,
            n == t@.len(),
            pat@ == "<span"@,
            pat@.len() == 5,
            span_quality(t@, from as int, end as int) == span_quality(
                t@,
                pos as int,
                end as int,
            ),
        decreases n - pos,
    {
        match find_tag(t, &pat, pos) {
            None => {
                return None;
            },
            Some(i) => {
                proof {
                    lemma_next_tag_some(t@, pat@, pos as int, i as int);
                }
                if i >= end {
                    return None;
                }
                let gt = find_tag_close(t, i);
                if span_marked_exec(t, i, gt) && gt < n {
                    match find_sub(t, &chars_of("</span>"), gt + 1) {
                        Some(se) => {
                            proof {
                                lemma_find_at_some(t@, "</span>"@, gt + 1, se as int);
                            }
                            let raw = collect_text(t, gt + 1, se);
                            let (ta, tb) = trim_bounds(&raw);
                            let txt = string_of_range(&raw, ta, tb);
                            let tc = chars_of(txt.as_str());
                            if crate::quality::contains_hd_vec(&tc) {
                                return Some(txt);
                            }
                        },
                        None => {},
                    }
                }
                pos = i + 1;
            },
        }
    }
}

/// Badge-marker test matching the spec's `marked` condition.
fn span_marked_exec(t: &Vec<char>, i: usize, gt: usize) -> (r: bool)
    requires
        gt <= t@.len(),
    ensures
        r == ((match attr_val(t@, i as int, gt as int, "class=\""@, '"') {
            Some((cs, ce)) => find_at_within_cls(t@, cs, ce),
            None => false,
        }) || (match attr_val(t@, i as int, gt as int, "class='"@, '\'') {
            Some((cs, ce)) => find_at_within_cls(t@, cs, ce),
            None => false,
        })),
{
    proof {
        reveal_strlit("format__text");
    }
    match find_attr_val(t, i, gt, &chars_of("class=\""), '"') {
        Some((cs, ce)) => {
            if crate::text::contains_within(t, &chars_of("format__text"), cs, ce) {
                return true;
            }
        },
        None => {},
    }
    match find_attr_val(t, i, gt, &chars_of("class='"), '\'') {
        Some((cs, ce)) => crate::text::contains_within(t, &chars_of("format__text"), cs, ce),
        None => false,
    }
}

/// Parses one anchor region as a video card, as `card_at` describes.
fn card_at_exec(t: &Vec<char>, i: usize, end: usize) -> (r: Option<VideoResult>)
    requires
        i < t@.len(),
        end <= t@.len(),
    ensures
        (r matches Some(c) ==> card_at(t@, i as int, end as int) == Some(c@)),
        r is None ==> card_at(t@, i as int, end as int) is None,
{
    proof {
        reveal_strlit("</a>");
        reveal_strlit("https://prehraj.to");
    }
    let n: usize = t.len();
    let gt = find_tag_close(t, i);
    let (hs, he) = match find_href(t, i, gt) {
        Some(p) => p,
        None => {
            return None;
        },
    };
    if gt >= n {
        assert(find_at(t@, "</a>"@, gt + 1) is None);
        return None;
    }
    let href_str = string_of_range(t, hs, he);
    let (slug, id) = match extract_video_info(href_str.as_str()) {
        Some(p) => p,
        None => {
            return None;
        },
    };
    let ce = match find_sub(t, &chars_of("</a>"), gt + 1) {
        Some(x) => x,
        None => {
            return None;
        },
    };
    proof {
        lemma_find_at_some(t@, "</a>"@, gt + 1, ce as int);
    }
    let name = match h3_text_exec(t, gt + 1, ce) {
        Some(s) => s,
        None => {
            return None;
        },
    };
    if name.as_str().is_empty() {
        return None;
    }
    let href_vec = vec_range(t, hs, he);
    let hn: usize = href_vec.len();
    let qp: usize = match find_char(&href_vec, '?', 0, hn) {
        Some(q) => q,
        None => hn,
    };
    proof {
        match char_pos(href_vec@, '?', 0, hn as int) {
            Some(q) => lemma_char_pos_some(href_vec@, '?', 0, hn as int, q),
            None => (),
        }
    }
    let mut url = String::from_str("https://prehraj.to");
    let clipped = string_of_range(&href_vec, 0, qp);
    url.append(clipped.as_str());
    proof {
        assert(href_vec@.subrange(0, qp as int) =~= t@.subrange(hs as int, he as int).take(
            qp as int,
        ));
    }
    let download_url = build_download_url(slug.as_str(), id.as_str());
    let texts = div_texts_exec(t, gt + 1, ce);
    let duration = first_duration_exec(&texts);
    let quality: Option<String> = match span_quality_exec(t, gt + 1, ce) {
        Some(q) => Some(q),
        None => {
            if has_hd_chunk_exec(&texts) {
                Some(String::from_str("HD"))
            } else {
                None
            }
        },
    };
    let file_size = first_size_exec(&texts);
    let c = VideoResult {
        name,
        url,
        video_id: id,
        video_slug: slug,
        download_url,
        duration,
        quality,
        file_size,
    };
    Some(c)
}

/// Parses search-results HTML into the list of video summaries, in
/// document order; a page without a content region or without valid
/// cards yields an empty list, never an error.
pub fn parse_search_results(html: &str) -> (r: Result<Vec<VideoResult>, PrehrajtoError>)
    ensures
        r is Ok,
        (r matches Ok(v) ==> result_views(v@) == search_results_spec(html@)),
{
    let t = chars_of(html);
    let main_pat = chars_of("<main");
    proof {
        reveal_strlit("<main");
        reveal_strlit("</main>");
    }
    let n: usize = t.len();
    let mut out: Vec<VideoResult> = Vec::new();
    let i0 = match find_tag(&t, &main_pat, 0) {
        Some(i0) => i0,
        None => {
            assert(result_views(out@) =~= search_results_spec(html@));
            return Ok(out);
        },
    };
    proof {
        lemma_next_tag_some(t@, main_pat@, 0, i0 as int);
    }
    let g0 = find_tag_close(&t, i0);
    let start: usize = if g0 >= n {
        n
    } else {
        g0 + 1
    };
    let end: usize = match find_sub(&t, &chars_of("</main>"), start) {
        Some(x) => x,
        None => n,
    };
    proof {
        match find_at(t@, "</main>"@, start as int) {
            Some(x) => lemma_find_at_some(t@, "</main>"@, start as int, x),
            None => (),
        }
    }
    let end2: usize = if start <= end {
        end
    } else {
        start
    };
    assert(end2 == end);
    let a_pat = chars_of("<a");
    proof {
        reveal_strlit("<a");
    }
    let mut pos: usize = start;
    assert(result_views(out@) + cards_spec(t@, start as int, end as int) =~= cards_spec(
        t@,
        start as int,
        end as int,
    ));
    loop
        invariant
            start <= pos <= n,
            end <= n,
            n == t@.len(),
            a_pat@ == "<a"@,
            a_pat@.len() == 2,
            t@ == html@,
            search_results_spec(html@) == cards_spec(t@, start as int, end as int),
            cards_spec(t@, start as int, end as int) == result_views(out@) + cards_spec(
                t@,
                pos as int,
                end as int,
            ),
        decreases n - pos,
    {
        match find_tag(&t, &a_pat, pos) {
            None => {
                assert(cards_spec(t@, pos as int, end as int) =~= Seq::<VideoResultView>::empty());
                assert(result_views(out@) =~= cards_spec(t@, start as int, end as int));
                return Ok(out);
            },
            Some(i) => {
                proof {
                    lemma_next_tag_some(t@, a_pat@, pos as int, i as int);
                }
                if i >= end {
                    assert(cards_spec(t@, pos as int, end as int) =~= Seq::<
                        VideoResultView,
                    >::empty());
                    assert(result_views(out@) =~= cards_spec(t@, start as int, end as int));
                    return Ok(out);
                }
                let ghost views0 = result_views(out@);
                match card_at_exec(&t, i, end) {
                    Some(c) => {
                        let ghost cv = c@;
                        out.push(c);
                        assert(result_views(out@) =~= views0.push(cv));
                        assert(cards_spec(t@, pos as int, end as int) == seq![cv] + cards_spec(
                            t@,
                            i + 1,
                            end as int,
                        ));
                        assert(result_views(out@) + cards_spec(t@, i + 1, end as int) =~= views0
                            + cards_spec(t@, pos as int, end as int));
                    },
                    None => {
                        assert(cards_spec(t@, pos as int, end as int) == cards_spec(
                            t@,
                            i + 1,
                            end as int,
                        ));
                    },
                }
                pos = i + 1;
            },
        }
    }
}

} // verus!
