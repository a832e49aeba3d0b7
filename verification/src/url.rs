//! URL building and dissection for the source site, and the
//! percent-encoding bridge used by the search URL and filename handling.
use vstd::prelude::*;
use vstd::string::StringSliceAdditionalSpecFns;
use vstd::utf8::{valid_utf8, decode_utf8};
use crate::text::{matches_at, skip_run, char_pos, chars_of, match_at, skip_char_run, find_char,
    string_of_range};

verus! {

/// The site's base URL.
pub open spec fn base_url_seq() -> Seq<char> {
    "https://prehraj.to"@
}

/// A byte kept verbatim by percent-encoding: ASCII alphanumerics and
/// `-`, `.`, `_`, `~`.
pub open spec fn is_url_safe_byte(b: u8) -> bool {
    (48 <= b <= 57) || (65 <= b <= 90) || (97 <= b <= 122) || b == 45 || b == 46 || b == 95
        || b == 126
}

/// Uppercase hexadecimal digit for a value below 16.
pub open spec fn hex_digit_upper(d: u8) -> char {
    if d < 10 {
        ((48 + d) as u8) as char
    } else {
        ((55 + d) as u8) as char
    }
}

/// Percent-encoding of a byte string: safe bytes verbatim, every other byte
/// as `%` plus two uppercase hexadecimal digits.
pub open spec fn pct_encode_bytes(bs: Seq<u8>) -> Seq<char>
    decreases bs.len(),
{
    if bs.len() == 0 {
        Seq::empty()
    } else {
        let head = if is_url_safe_byte(bs[0]) {
            seq![bs[0] as char]
        } else {
            seq!['%', hex_digit_upper(bs[0] / 16), hex_digit_upper(bs[0] % 16)]
        };
        head + pct_encode_bytes(bs.drop_first())
    }
}

pub open spec fn is_hex_byte(b: u8) -> bool {
    (48 <= b <= 57) || (65 <= b <= 70) || (97 <= b <= 102)
}

pub open spec fn hex_byte_val(b: u8) -> u8 {
    if 48 <= b <= 57 {
        (b - 48) as u8
    } else if 65 <= b <= 70 {
        (b - 55) as u8
    } else {
        (b - 87) as u8
    }
}

/// Percent-decoding of a byte string: `%` followed by two hexadecimal
/// digits becomes one byte; a `%` followed by one hexadecimal digit and a
/// non-digit keeps the `%` and that digit; any other `%` is kept; a
/// trailing short `%` sequence is kept verbatim.
pub open spec fn pct_decode_bytes(bs: Seq<u8>) -> Seq<u8>
    decreases bs.len(),
{
    if bs.len() == 0 {
        Seq::empty()
    } else if bs[0] == 37 {
        if bs.len() >= 3 {
            if is_hex_byte(bs[1]) && is_hex_byte(bs[2]) {
                seq![(hex_byte_val(bs[1]) * 16 + hex_byte_val(bs[2])) as u8] + pct_decode_bytes(
                    bs.skip(3),
                )
            } else if is_hex_byte(bs[1]) {
                seq![37u8, bs[1]] + pct_decode_bytes(bs.skip(2))
            } else {
                seq![37u8] + pct_decode_bytes(bs.skip(1))
            }
        } else {
            bs
        }
    } else {
        seq![bs[0]] + pct_decode_bytes(bs.skip(1))
    }
}

/// Relies on `urlencoding::encode`: percent-encodes every byte of the
/// UTF-8 form except alphanumerics and `-`, `.`, `_`, `~`, with uppercase
/// hexadecimal digits.
#[verifier::external_body]
pub fn encode_component(s: &str) -> (r: String)
    ensures
        r@ == pct_encode_bytes(s.spec_bytes()),
{
    urlencoding::encode(s).into_owned()
}

/// Relies on `urlencoding::decode`: percent-decodes the UTF-8 bytes of `s`
/// and re-reads them as UTF-8, failing exactly when the decoded bytes are
/// not valid UTF-8.
#[verifier::external_body]
pub fn decode_component(s: &str) -> (r: Option<String>)
    ensures
        (r matches Some(t) ==> valid_utf8(pct_decode_bytes(s.spec_bytes())) && t@ == decode_utf8(
            pct_decode_bytes(s.spec_bytes()),
        )),
        r is None ==> !valid_utf8(pct_decode_bytes(s.spec_bytes())),
{
    match urlencoding::decode(s) {
        Ok(t) => Some(t.into_owned()),
        Err(_) => None,
    }
}

/// Builds the full video page URL from slug and identifier.
pub fn build_video_url(slug: &str, id: &str) -> (r: String)
    ensures
        r@ == base_url_seq() + "/"@ + slug@ + "/"@ + id@,
{
    let mut r = String::from_str("https://prehraj.to/");
    r.append(slug);
    r.append("/");
    r.append(id);
    proof {
        reveal_strlit("https://prehraj.to");
        reveal_strlit("https://prehraj.to/");
        reveal_strlit("/");
        assert(r@ =~= base_url_seq() + "/"@ + slug@ + "/"@ + id@);
    }
    r
}

/// Builds the download URL: the video URL with the download query appended.
pub fn build_download_url(slug: &str, id: &str) -> (r: String)
    ensures
        r@ == base_url_seq() + "/"@ + slug@ + "/"@ + id@ + "?do=download"@,
{
    let mut r = build_video_url(slug, id);
    r.append("?do=download");
    r
}

/// Builds the search URL for a query, percent-encoding the query text.
pub fn build_search_url(query: &str) -> (r: String)
    ensures
        r@ == base_url_seq() + "/hledej/"@ + pct_encode_bytes(query.spec_bytes()),
{
    let mut r = String::from_str("https://prehraj.to/hledej/");
    let encoded = encode_component(query);
    r.append(encoded.as_str());
    proof {
        reveal_strlit("https://prehraj.to");
        reveal_strlit("https://prehraj.to/hledej/");
        reveal_strlit("/hledej/");
        assert(r@ =~= base_url_seq() + "/hledej/"@ + pct_encode_bytes(query.spec_bytes()));
    }
    r
}

/// The slug and identifier encoded in a video URL or path: the first two
/// `/`-separated segments of the path, after stripping the base URL, any
/// leading slashes, and everything from the first `?` on. `None` when
/// fewer than two non-empty segments remain.
pub open spec fn video_info_spec(u: Seq<char>) -> Option<(Seq<char>, Seq<char>)> {
    let b: int = if matches_at(u, base_url_seq(), 0) {
        base_url_seq().len() as int
    } else {
        0
    };
    let p = skip_run(u, '/', b);
    let qe: int = match char_pos(u, '?', p, u.len() as int) {
        Some(q) => q,
        None => u.len() as int,
    };
    match char_pos(u, '/', p, qe) {
        None => None,
        Some(s1) => {
            let slug = u.subrange(p, s1);
            let ide: int = match char_pos(u, '/', s1 + 1, qe) {
                Some(s2) => s2,
                None => qe,
            };
            let id = u.subrange(s1 + 1, ide);
            if slug.len() > 0 && id.len() > 0 {
                Some((slug, id))
            } else {
                None
            }
        },
    }
}

/// Extracts the video slug and identifier from a URL or path.
pub fn extract_video_info(url: &str) -> (r: Option<(String, String)>)
    ensures
        (r matches Some(p) ==> video_info_spec(url@) matches Some(q) && p.0@ == q.0 && p.1@
            == q.1),
        r is None ==> video_info_spec(url@) is None,
{
    let t = chars_of(url);
    let base = chars_of("https://prehraj.to");
    let b: usize = if match_at(&t, &base, 0) {
        base.len()
    } else {
        0
    };
    assert(b <= t@.len());
    let p = skip_char_run(&t, '/', b);
    let n: usize = t.len();
    let qe: usize = match find_char(&t, '?', p, n) {
        Some(q) => q,
        None => n,
    };
    proof {
        match char_pos(t@, '?', p as int, n as int) {
            Some(q) => crate::text::lemma_char_pos_some(t@, '?', p as int, n as int, q),
            None => (),
        }
    }
    match find_char(&t, '/', p, qe) {
        None => None,
        Some(s1) => {
            proof {
                crate::text::lemma_char_pos_some(t@, '/', p as int, qe as int, s1 as int);
            }
            let ide: usize = match find_char(&t, '/', s1 + 1, qe) {
                Some(s2) => s2,
                None => qe,
            };
            proof {
                match char_pos(t@, '/', s1 + 1, qe as int) {
                    Some(s2) => crate::text::lemma_char_pos_some(t@, '/', s1 + 1, qe as int, s2),
                    None => (),
                }
            }
            if s1 > p && ide > s1 + 1 {
                let slug = string_of_range(&t, p, s1);
                let id = string_of_range(&t, s1 + 1, ide);
                Some((slug, id))
            } else {
                None
            }
        },
    }
}

} // verus!
