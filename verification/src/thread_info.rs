//! Reading the board name and thread id off a thread URL.

use vstd::prelude::*;
use crate::errors::DownloadError;
use crate::segments::{
    count_occ, lemma_count_push, lemma_split_len, lemma_split_segment, split_on,
};
use vstd::string::StrSliceExecFns;

verus! {

/// The identity of a thread, read off its URL: the board name and the
/// thread id. It only names the output directory; fetching uses the raw URL.
#[derive(Debug, PartialEq, Eq)]
pub struct ThreadRef {
    pub board: String,
    pub thread_id: String,
}

/// The position of the first occurrence of `c` in `s`, or the length of `s`
/// when `c` does not occur.
fn find_char(s: &str, c: char) -> (r: usize)
    ensures
        r <= s@.len(),
        forall|m: int| 0 <= m < r ==> s@[m] != c,
        r < s@.len() ==> s@[r as int] == c,
{
    let n = s.unicode_len();
    let mut h: usize = 0;
    while h < n
        invariant
            n == s@.len(),
            h <= n,
            forall|m: int| 0 <= m < h ==> s@[m] != c,
        decreases n - h,
    {
        if s.get_char(h) == c {
            return h;
        }
        h += 1;
    }
    h
}

/// Splits the URL on `/` and returns segment 3 as the board and segment 5,
/// with any `#`-anchor stripped, as the thread id. A URL with fewer than six
/// segments is rejected as malformed.
pub fn get_thread_infos(url: &str) -> (r: Result<ThreadRef, DownloadError>)
    ensures
        match r {
            Ok(t) => {
                &&& split_on(url@, '/').len() >= 6
                &&& t.board@ == split_on(url@, '/')[3]
                &&& t.thread_id@ == split_on(split_on(url@, '/')[5], '#')[0]
            },
            Err(e) => e is MalformedUrl && split_on(url@, '/').len() < 6,
        },
{
    let n = url.unicode_len();
    let mut pos: Vec<usize> = Vec::new();
    let mut i: usize = 0;
    while i < n
        invariant
            n == url@.len(),
            i <= n,
            forall|k: int| 0 <= k < pos@.len() ==> pos@[k] < i && url@[pos@[k] as int] == '/',
            forall|k1: int, k2: int| 0 <= k1 < k2 < pos@.len() ==> pos@[k1] < pos@[k2],
            forall|m: int|
                0 <= m < i && url@[m] == '/' ==> exists|k: int|
                    0 <= k < pos@.len() && pos@[k] == m,
            count_occ(url@.subrange(0, i as int), '/') == pos@.len(),
            forall|k: int|
                0 <= k < pos@.len() ==> count_occ(url@.subrange(0, pos@[k] as int), '/') == k,
        decreases n - i,
    {
        let c = url.get_char(i);
        proof {
            assert(url@.subrange(0, i + 1) =~= url@.subrange(0, i as int).push(url@[i as int]));
            lemma_count_push(url@.subrange(0, i as int), url@[i as int], '/');
        }
        if c == '/' {
            let ghost prev = pos@;
            pos.push(i);
            proof {
                assert(pos@ =~= prev.push(i));
                assert(pos@[pos@.len() - 1] == i);
                assert forall|m: int| 0 <= m < i + 1 && url@[m] == '/' implies exists|k: int|
                    0 <= k < pos@.len() && pos@[k] == m by {
                    if m == i {
                        assert(pos@[pos@.len() - 1] == m);
                    } else {
                        let k0 = choose|k: int| 0 <= k < prev.len() && prev[k] == m;
                        assert(pos@[k0] == m);
                    }
                }
            }
        }
        i += 1;
    }
    proof {
        assert(url@.subrange(0, n as int) =~= url@);
        lemma_split_len(url@, '/');
    }
    if pos.len() < 5 {
        return Err(DownloadError::MalformedUrl);
    }
    let p2 = pos[2];
    let p3 = pos[3];
    let p4 = pos[4];
    let b5: usize = if pos.len() > 5 {
        pos[5]
    } else {
        n
    };
    proof {
        // one past a recorded separator, the count is its index plus one
        assert(url@.subrange(0, p2 + 1) =~= url@.subrange(0, p2 as int).push(url@[p2 as int]));
        lemma_count_push(url@.subrange(0, p2 as int), url@[p2 as int], '/');
        assert(count_occ(url@.subrange(0, p2 + 1), '/') == 3);
        assert(url@.subrange(0, p4 + 1) =~= url@.subrange(0, p4 as int).push(url@[p4 as int]));
        lemma_count_push(url@.subrange(0, p4 as int), url@[p4 as int], '/');
        assert(count_occ(url@.subrange(0, p4 + 1), '/') == 5);
        // every separator position is recorded, so the gaps hold none
        assert forall|m: int| p2 + 1 <= m < p3 implies url@[m] != '/' by {
            if url@[m] == '/' {
                let k = choose|k: int| 0 <= k < pos@.len() && pos@[k] == m;
                if k <= 2 {
                    assert(pos@[k] <= pos@[2]);
                } else {
                    assert(pos@[3] <= pos@[k]);
                }
            }
        }
        lemma_split_segment(url@, '/', 3, p2 + 1, p3 as int);
        assert forall|m: int| p4 + 1 <= m < b5 implies url@[m] != '/' by {
            if url@[m] == '/' {
                let k = choose|k: int| 0 <= k < pos@.len() && pos@[k] == m;
                if k <= 4 {
                    assert(pos@[k] <= pos@[4]);
                } else {
                    assert(pos@[5] <= pos@[k]);
                }
            }
        }
        lemma_split_segment(url@, '/', 5, p4 + 1, b5 as int);
    }
    let board = url.substring_char(p2 + 1, p3).to_owned();
    let tseg = url.substring_char(p4 + 1, b5);
    let h = find_char(tseg, '#');
    proof {
        assert(count_occ(tseg@.subrange(0, 0), '#') == 0) by {
            assert(tseg@.subrange(0, 0) =~= Seq::<char>::empty());
        }
        lemma_split_segment(tseg@, '#', 0, 0, h as int);
    }
    let thread_id = tseg.substring_char(0, h).to_owned();
    Ok(ThreadRef { board, thread_id })
}

} // verus!
