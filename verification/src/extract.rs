//! Scanning raw page markup for media links.
//!
//! The recognized shape is fixed by the source site's URL scheme: a
//! protocol-relative URL `//i[s][digits].(4cdn|4chan).org/<board>/<digits>.<ext>`
//! with `<ext>` one of `jpg`, `png`, `gif`, `webm`. The scanner walks the
//! text left to right, reports every occurrence in order, and resumes after
//! the end of each occurrence found.

use vstd::prelude::*;
use vstd::string::StrSliceExecFns;

verus! {

/// A media link found in page markup: the protocol-relative URL and its
/// trailing filename, extension included.
#[derive(Debug, PartialEq, Eq)]
pub struct MediaLink {
    pub raw_url: String,
    pub filename: String,
}

/// Where one occurrence of the pattern lies in the page text: its first
/// character, the first character of the filename, and one past its last
/// character.
pub struct MatchSpan {
    pub start: int,
    pub fname_start: int,
    pub end: int,
}

/// A decimal digit.
pub open spec fn is_digit(c: char) -> bool {
    48 <= c as u32 && c as u32 <= 57
}

/// A word character, as board names use: letter, digit or underscore.
pub open spec fn is_word_char(c: char) -> bool {
    is_digit(c) || (97 <= c as u32 && c as u32 <= 122) || (65 <= c as u32 && c as u32 <= 90)
        || c as u32 == 95
}

/// The first position at or after `i` that does not hold a digit.
pub open spec fn skip_digits(s: Seq<char>, i: int) -> int
    decreases s.len() - i,
{
    if 0 <= i < s.len() && is_digit(s[i]) {
        skip_digits(s, i + 1)
    } else {
        i
    }
}

/// The first position at or after `i` that does not hold a word character.
pub open spec fn skip_word(s: Seq<char>, i: int) -> int
    decreases s.len() - i,
{
    if 0 <= i < s.len() && is_word_char(s[i]) {
        skip_word(s, i + 1)
    } else {
        i
    }
}

/// `4cdn.org/` stands at position `k`.
pub open spec fn cdn_host_at(s: Seq<char>, k: int) -> bool {
    &&& 0 <= k && k + 9 <= s.len()
    &&& s[k] == '4'
    &&& s[k + 1] == 'c'
    &&& s[k + 2] == 'd'
    &&& s[k + 3] == 'n'
    &&& s[k + 4] == '.'
    &&& s[k + 5] == 'o'
    &&& s[k + 6] == 'r'
    &&& s[k + 7] == 'g'
    &&& s[k + 8] == '/'
}

/// `4chan.org/` stands at position `k`.
pub open spec fn chan_host_at(s: Seq<char>, k: int) -> bool {
    &&& 0 <= k && k + 10 <= s.len()
    &&& s[k] == '4'
    &&& s[k + 1] == 'c'
    &&& s[k + 2] == 'h'
    &&& s[k + 3] == 'a'
    &&& s[k + 4] == 'n'
    &&& s[k + 5] == '.'
    &&& s[k + 6] == 'o'
    &&& s[k + 7] == 'r'
    &&& s[k + 8] == 'g'
    &&& s[k + 9] == '/'
}

/// The length of a recognized extension at position `k`, or -1 when none of
/// `jpg`, `png`, `gif`, `webm` stands there.
pub open spec fn ext_len_at(s: Seq<char>, k: int) -> int {
    if 0 <= k && k + 3 <= s.len() && s[k] == 'j' && s[k + 1] == 'p' && s[k + 2] == 'g' {
        3
    } else if 0 <= k && k + 3 <= s.len() && s[k] == 'p' && s[k + 1] == 'n' && s[k + 2] == 'g' {
        3
    } else if 0 <= k && k + 3 <= s.len() && s[k] == 'g' && s[k + 1] == 'i' && s[k + 2] == 'f' {
        3
    } else if 0 <= k && k + 4 <= s.len() && s[k] == 'w' && s[k + 1] == 'e' && s[k + 2] == 'b'
        && s[k + 3] == 'm' {
        4
    } else {
        -1
    }
}

/// The occurrence of the media-URL pattern that starts at position `i` of
/// `s`, or `None` when none starts there. The pattern is deterministic: each
/// piece ends at the first character its character class refuses, so the
/// span is unique.
pub open spec fn try_match_at(s: Seq<char>, i: int) -> Option<MatchSpan> {
    if !(0 <= i && i + 2 < s.len() && s[i] == '/' && s[i + 1] == '/' && s[i + 2] == 'i') {
        None
    } else {
        let j1 = if i + 3 < s.len() && s[i + 3] == 's' {
            i + 4
        } else {
            i + 3
        };
        let j2 = skip_digits(s, j1);
        if !(j1 <= j2 && j2 < s.len() && s[j2] == '.') {
            None
        } else {
            let k = j2 + 1;
            let b0 = if cdn_host_at(s, k) {
                k + 9
            } else if chan_host_at(s, k) {
                k + 10
            } else {
                -1
            };
            if b0 < 0 {
                None
            } else {
                let b1 = skip_word(s, b0);
                if !(b0 < b1 && b1 < s.len() && s[b1] == '/') {
                    None
                } else {
                    let f0 = b1 + 1;
                    let f1 = skip_digits(s, f0);
                    if !(f0 < f1 && f1 < s.len() && s[f1] == '.') {
                        None
                    } else {
                        let e = ext_len_at(s, f1 + 1);
                        if e < 0 {
                            None
                        } else {
                            Some(
                                MatchSpan { start: i, fname_start: f0, end: f1 + 1 + e },
                            )
                        }
                    }
                }
            }
        }
    }
}

/// Every occurrence of the pattern in `s` at or after position `i`, in text
/// order, each sought again from the end of the one before it.
pub open spec fn scan_matches(s: Seq<char>, i: int) -> Seq<MatchSpan>
    decreases s.len() - i,
{
    if i >= s.len() {
        Seq::empty()
    } else {
        match try_match_at(s, i) {
            Some(m) => seq![m] + scan_matches(s, m.end),
            None => scan_matches(s, i + 1),
        }
    }
}

proof fn lemma_skip_digits_range(s: Seq<char>, i: int)
    ensures
        i <= skip_digits(s, i),
        forall|m: int| i <= m < skip_digits(s, i) ==> is_digit(s[m]),
    decreases s.len() - i,
{
    if 0 <= i < s.len() && is_digit(s[i]) {
        lemma_skip_digits_range(s, i + 1);
    }
}

proof fn lemma_skip_word_range(s: Seq<char>, i: int)
    ensures
        i <= skip_word(s, i),
        forall|m: int| i <= m < skip_word(s, i) ==> is_word_char(s[m]),
    decreases s.len() - i,
{
    if 0 <= i < s.len() && is_word_char(s[i]) {
        lemma_skip_word_range(s, i + 1);
    }
}

/// Two occurrences of the pattern never overlap: within the span of the
/// occurrence starting at `i`, no later position starts one. Past the
/// opening `//`, the span never holds two adjacent slashes, and every
/// occurrence must open with them.
pub proof fn lemma_match_no_overlap(s: Seq<char>, i: int, p: int)
    requires
        try_match_at(s, i) is Some,
        i < p < try_match_at(s, i)->Some_0.end,
    ensures
        try_match_at(s, p) is None,
{
    let m = try_match_at(s, i)->Some_0;
    let j1 = if i + 3 < s.len() && s[i + 3] == 's' {
        i + 4
    } else {
        i + 3
    };
    let j2 = skip_digits(s, j1);
    assert(j1 <= j2 && j2 < s.len() && s[j2] == '.');
    let k = j2 + 1;
    assert(cdn_host_at(s, k) || chan_host_at(s, k));
    let b0 = if cdn_host_at(s, k) {
        k + 9
    } else {
        k + 10
    };
    let b1 = skip_word(s, b0);
    assert(b0 < b1 && b1 < s.len() && s[b1] == '/');
    let f0 = b1 + 1;
    let f1 = skip_digits(s, f0);
    assert(f0 < f1 && f1 < s.len() && s[f1] == '.');
    let e = ext_len_at(s, f1 + 1);
    assert(e == 3 || e == 4);
    assert(m.end == f1 + 1 + e);
    lemma_skip_digits_range(s, j1);
    lemma_skip_word_range(s, b0);
    lemma_skip_digits_range(s, f0);
    assert(!(s[p] == '/' && s[p + 1] == '/')) by {
        if s[p] == '/' && s[p + 1] == '/' {
            if p == i + 1 {
                assert(s[p + 1] == 'i');
            } else if p == i + 2 {
                assert(s[p] == 'i');
            } else if i + 2 < p && p < j1 {
                assert(s[p] == 's');
            } else if j1 <= p && p < j2 {
                assert(is_digit(s[p]));
            } else if p == j2 {
                assert(s[p] == '.');
            } else if k <= p && p < b0 - 1 {
                assert(s[p] != '/');
            } else if p == b0 - 1 {
                assert(is_word_char(s[p + 1]));
            } else if b0 <= p && p < b1 {
                assert(is_word_char(s[p]));
            } else if p == b1 {
                assert(is_digit(s[p + 1]));
            } else if f0 <= p && p < f1 {
                assert(is_digit(s[p]));
            } else if p == f1 {
                assert(s[p] == '.');
            } else {
                assert(f1 + 1 <= p && p < f1 + 1 + e);
                assert(s[p] != '/');
            }
        }
    }
}

/// Every span the scan reports is a genuine occurrence of the pattern at
/// its start position, and the spans come in strictly increasing text
/// order.
pub proof fn lemma_scan_sound(s: Seq<char>, i: int)
    requires
        0 <= i,
    ensures
        forall|k: int|
            0 <= k < scan_matches(s, i).len() ==> try_match_at(
                s,
                (#[trigger] scan_matches(s, i)[k]).start,
            ) == Some(scan_matches(s, i)[k]) && scan_matches(s, i)[k].start >= i,
        forall|k1: int, k2: int|
            0 <= k1 < k2 < scan_matches(s, i).len() ==> scan_matches(s, i)[k1].start
                < scan_matches(s, i)[k2].start,
    decreases s.len() - i,
{
    if i >= s.len() {
    } else {
        match try_match_at(s, i) {
            Some(m) => {
                assert(m.start == i);
                assert(i < m.end);
                lemma_scan_sound(s, m.end);
            },
            None => {
                lemma_scan_sound(s, i + 1);
            },
        }
    }
}

/// The scan misses nothing: every position where the pattern occurs is the
/// start of one of the reported spans. Occurrences cannot overlap, so
/// resuming after the end of each found occurrence loses none.
pub proof fn lemma_scan_complete(s: Seq<char>, i: int, p: int)
    requires
        0 <= i <= p,
        try_match_at(s, p) is Some,
    ensures
        exists|k: int|
            0 <= k < scan_matches(s, i).len() && #[trigger] scan_matches(s, i)[k]
                == try_match_at(s, p)->Some_0,
    decreases s.len() - i,
{
    assert(p + 2 < s.len());
    if p == i {
        let m = try_match_at(s, i)->Some_0;
        assert(scan_matches(s, i)[0] == m);
    } else {
        match try_match_at(s, i) {
            Some(m) => {
                if p < m.end {
                    lemma_match_no_overlap(s, i, p);
                    assert(false);
                } else {
                    lemma_scan_complete(s, m.end, p);
                    let k0 = choose|k: int|
                        0 <= k < scan_matches(s, m.end).len() && #[trigger] scan_matches(
                            s,
                            m.end,
                        )[k] == try_match_at(s, p)->Some_0;
                    assert(scan_matches(s, i)[k0 + 1] == try_match_at(s, p)->Some_0);
                }
            },
            None => {
                lemma_scan_complete(s, i + 1, p);
                let k0 = choose|k: int|
                    0 <= k < scan_matches(s, i + 1).len() && #[trigger] scan_matches(s, i + 1)[k]
                        == try_match_at(s, p)->Some_0;
                assert(scan_matches(s, i)[k0] == try_match_at(s, p)->Some_0);
            },
        }
    }
}

/// `links` lists, in order, the text of every occurrence the scan finds in
/// `s`: for each span, the full protocol-relative URL and the filename part.
pub open spec fn links_match(links: Seq<MediaLink>, s: Seq<char>) -> bool {
    let ms = scan_matches(s, 0);
    &&& links.len() == ms.len()
    &&& forall|k: int|
        0 <= k < ms.len() ==> links[k].raw_url@ == s.subrange(ms[k].start, ms[k].end)
            && links[k].filename@ == s.subrange(ms[k].fname_start, ms[k].end)
}

/// Extraction is a pure function of the page text: any two results drawn
/// from the same text carry the same matches, in the same order, so
/// extracting twice changes nothing.
pub proof fn lemma_extract_idempotent(s: Seq<char>, links1: Seq<MediaLink>, links2: Seq<MediaLink>)
    requires
        links_match(links1, s),
        links_match(links2, s),
    ensures
        links1.len() == links2.len(),
        forall|k: int|
            0 <= k < links1.len() ==> links1[k].raw_url@ == links2[k].raw_url@
                && links1[k].filename@ == links2[k].filename@,
{
}

fn is_digit_exec(c: char) -> (r: bool)
    ensures
        r == is_digit(c),
{
    let u: u32 = c as u32;
    48 <= u && u <= 57
}

fn is_word_char_exec(c: char) -> (r: bool)
    ensures
        r == is_word_char(c),
{
    let u: u32 = c as u32;
    (48 <= u && u <= 57) || (97 <= u && u <= 122) || (65 <= u && u <= 90) || u == 95
}

/// Whether position `j` exists and holds `c`.
fn has_char_at(s: &str, n: usize, j: usize, c: char) -> (r: bool)
    requires
        n == s@.len(),
    ensures
        r == (j < s@.len() && s@[j as int] == c),
{
    j < n && s.get_char(j) == c
}

fn skip_digits_exec(s: &str, n: usize, j: usize) -> (r: usize)
    requires
        n == s@.len(),
        j <= n,
    ensures
        r as int == skip_digits(s@, j as int),
        j <= r <= n,
    decreases n - j,
{
    if j < n {
        let c = s.get_char(j);
        if is_digit_exec(c) {
            return skip_digits_exec(s, n, j + 1);
        }
    }
    j
}

fn skip_word_exec(s: &str, n: usize, j: usize) -> (r: usize)
    requires
        n == s@.len(),
        j <= n,
    ensures
        r as int == skip_word(s@, j as int),
        j <= r <= n,
    decreases n - j,
{
    if j < n {
        let c = s.get_char(j);
        if is_word_char_exec(c) {
            return skip_word_exec(s, n, j + 1);
        }
    }
    j
}

/// The occurrence starting at `i` is exactly the span from `i` to `end`,
/// with the filename starting at `f0`.
pub open spec fn match_spans_to(s: Seq<char>, i: int, f0: int, end: int) -> bool {
    try_match_at(s, i) == Some(MatchSpan { start: i, fname_start: f0, end: end })
}

/// Seeks one occurrence of the pattern starting exactly at position `i`;
/// returns the filename start and the span end.
fn try_match(s: &str, n: usize, i: usize) -> (r: Option<(usize, usize)>)
    requires
        n == s@.len(),
        i <= n,
    ensures
        match r {
            Some(fe) => {
                &&& match_spans_to(s@, i as int, fe.0 as int, fe.1 as int)
                &&& i < fe.1
                &&& fe.0 < fe.1
                &&& fe.1 <= n
            },
            None => try_match_at(s@, i as int) is None,
        },
{
    if !has_char_at(s, n, i, '/') {
        return None;
    }
    if !has_char_at(s, n, i + 1, '/') {
        return None;
    }
    if !has_char_at(s, n, i + 2, 'i') {
        return None;
    }
    let mut j1: usize = i + 3;
    if has_char_at(s, n, j1, 's') {
        j1 = j1 + 1;
    }
    let j2 = skip_digits_exec(s, n, j1);
    if !has_char_at(s, n, j2, '.') {
        return None;
    }
    let k: usize = j2 + 1;
    if !has_char_at(s, n, k, '4') {
        return None;
    }
    if !has_char_at(s, n, k + 1, 'c') {
        return None;
    }
    let b0: usize;
    if has_char_at(s, n, k + 2, 'd') {
        if !has_char_at(s, n, k + 3, 'n') {
            return None;
        }
        if !has_char_at(s, n, k + 4, '.') {
            return None;
        }
        if !has_char_at(s, n, k + 5, 'o') {
            return None;
        }
        if !has_char_at(s, n, k + 6, 'r') {
            return None;
        }
        if !has_char_at(s, n, k + 7, 'g') {
            return None;
        }
        if !has_char_at(s, n, k + 8, '/') {
            return None;
        }
        b0 = k + 9;
    } else if has_char_at(s, n, k + 2, 'h') {
        if !has_char_at(s, n, k + 3, 'a') {
            return None;
        }
        if !has_char_at(s, n, k + 4, 'n') {
            return None;
        }
        if !has_char_at(s, n, k + 5, '.') {
            return None;
        }
        if !has_char_at(s, n, k + 6, 'o') {
            return None;
        }
        if !has_char_at(s, n, k + 7, 'r') {
            return None;
        }
        if !has_char_at(s, n, k + 8, 'g') {
            return None;
        }
        if !has_char_at(s, n, k + 9, '/') {
            return None;
        }
        b0 = k + 10;
    } else {
        return None;
    }
    let b1 = skip_word_exec(s, n, b0);
    if b1 == b0 {
        return None;
    }
    if !has_char_at(s, n, b1, '/') {
        return None;
    }
    let f0: usize = b1 + 1;
    let f1 = skip_digits_exec(s, n, f0);
    if f1 == f0 {
        return None;
    }
    if !has_char_at(s, n, f1, '.') {
        return None;
    }
    let e0: usize = f1 + 1;
    if has_char_at(s, n, e0, 'j') {
        if !has_char_at(s, n, e0 + 1, 'p') {
            return None;
        }
        if !has_char_at(s, n, e0 + 2, 'g') {
            return None;
        }
        Some((f0, e0 + 3))
    } else if has_char_at(s, n, e0, 'p') {
        if !has_char_at(s, n, e0 + 1, 'n') {
            return None;
        }
        if !has_char_at(s, n, e0 + 2, 'g') {
            return None;
        }
        Some((f0, e0 + 3))
    } else if has_char_at(s, n, e0, 'g') {
        if !has_char_at(s, n, e0 + 1, 'i') {
            return None;
        }
        if !has_char_at(s, n, e0 + 2, 'f') {
            return None;
        }
        Some((f0, e0 + 3))
    } else if has_char_at(s, n, e0, 'w') {
        if !has_char_at(s, n, e0 + 1, 'e') {
            return None;
        }
        if !has_char_at(s, n, e0 + 2, 'b') {
            return None;
        }
        if !has_char_at(s, n, e0 + 3, 'm') {
            return None;
        }
        Some((f0, e0 + 4))
    } else {
        None
    }
}

/// Scans the page text and returns every occurrence of the media-URL
/// pattern, in text order, together with the number of distinct links. The
/// page markup holds each link twice (thumbnail and full-size anchor), so
/// the reported count is half the raw occurrence count; the returned
/// sequence itself still carries every raw occurrence.
pub fn get_image_links(page_content: &str) -> (r: (Vec<MediaLink>, usize))
    ensures
        links_match(r.0@, page_content@),
        r.1 == scan_matches(page_content@, 0).len() / 2,
{
    let ghost s = page_content@;
    let n = page_content.unicode_len();
    let mut links: Vec<MediaLink> = Vec::new();
    let ghost mut spans: Seq<MatchSpan> = Seq::empty();
    let mut i: usize = 0;
    while i < n
        invariant
            n == s.len(),
            s == page_content@,
            i <= n,
            scan_matches(s, 0) == spans + scan_matches(s, i as int),
            links@.len() == spans.len(),
            forall|k: int|
                0 <= k < spans.len() ==> links@[k].raw_url@ == s.subrange(
                    spans[k].start,
                    spans[k].end,
                ) && links@[k].filename@ == s.subrange(spans[k].fname_start, spans[k].end),
        decreases n - i,
    {
        match try_match(page_content, n, i) {
            Some(fe) => {
                let ghost m = MatchSpan {
                    start: i as int,
                    fname_start: fe.0 as int,
                    end: fe.1 as int,
                };
                proof {
                    assert(try_match_at(s, i as int) == Some(m));
                    assert(scan_matches(s, i as int) == seq![m] + scan_matches(s, fe.1 as int));
                }
                let url = page_content.substring_char(i, fe.1).to_owned();
                let name = page_content.substring_char(fe.0, fe.1).to_owned();
                links.push(MediaLink { raw_url: url, filename: name });
                proof {
                    let sp0 = spans;
                    spans = spans.push(m);
                    assert(spans =~= sp0 + seq![m]);
                    assert((sp0 + seq![m]) + scan_matches(s, fe.1 as int) =~= sp0 + (seq![m]
                        + scan_matches(s, fe.1 as int)));
                }
                i = fe.1;
            },
            None => {
                proof {
                    assert(scan_matches(s, i as int) == scan_matches(s, i + 1));
                }
                i += 1;
            },
        }
    }
    proof {
        assert(scan_matches(s, i as int) =~= Seq::<MatchSpan>::empty());
        assert(scan_matches(s, 0) =~= spans);
    }
    let count = links.len() / 2;
    (links, count)
}

} // verus!
