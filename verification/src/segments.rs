//! Splitting a sequence of characters on a separator, as `str::split` does:
//! the spec function `split_on`, and lemmas that tie a segment of the split
//! to the separator positions that an implementation finds by scanning.

use vstd::prelude::*;

verus! {

/// How many times `c` occurs in `s`.
pub open spec fn count_occ(s: Seq<char>, c: char) -> nat
    decreases s.len(),
{
    if s.len() == 0 {
        0
    } else {
        (if s[0] == c {
            1nat
        } else {
            0nat
        }) + count_occ(s.drop_first(), c)
    }
}

/// The segments of `s` delimited by `sep`, in order, as `str::split` yields
/// them: always at least one segment, and an empty segment between two
/// adjacent separators or at either end.
pub open spec fn split_on(s: Seq<char>, sep: char) -> Seq<Seq<char>>
    decreases s.len(),
{
    if s.len() == 0 {
        seq![Seq::<char>::empty()]
    } else if s[0] == sep {
        seq![Seq::<char>::empty()] + split_on(s.drop_first(), sep)
    } else {
        let rest = split_on(s.drop_first(), sep);
        seq![seq![s[0]] + rest[0]] + rest.drop_first()
    }
}

/// Appending one character changes the occurrence count by one exactly when
/// that character is the one counted.
pub proof fn lemma_count_push(s: Seq<char>, x: char, c: char)
    ensures
        count_occ(s.push(x), c) == count_occ(s, c) + (if x == c {
            1nat
        } else {
            0nat
        }),
    decreases s.len(),
{
    if s.len() == 0 {
        assert(s.push(x).len() == 1);
        assert(s.push(x)[0] == x);
        assert(s.push(x).drop_first() =~= Seq::<char>::empty());
        assert(count_occ(s.push(x).drop_first(), c) == 0);
        assert(count_occ(s, c) == 0);
    } else {
        assert(s.push(x)[0] == s[0]);
        assert(s.push(x).drop_first() =~= s.drop_first().push(x));
        lemma_count_push(s.drop_first(), x, c);
        assert(count_occ(s.push(x), c) == (if s[0] == c {
            1nat
        } else {
            0nat
        }) + count_occ(s.drop_first().push(x), c));
    }
}

/// A split has one more segment than the text has separators.
pub proof fn lemma_split_len(s: Seq<char>, sep: char)
    ensures
        split_on(s, sep).len() == count_occ(s, sep) + 1,
    decreases s.len(),
{
    if s.len() == 0 {
    } else {
        lemma_split_len(s.drop_first(), sep);
    }
}

/// Segment `j` of the split is exactly the characters between the `j`-th and
/// the `j+1`-st separator: if `a` sits right after `j` separators (at the
/// start, or preceded by a separator), and `[a, b)` is separator-free and
/// ends at a separator or at the end of the text, then that range is
/// segment `j`.
pub proof fn lemma_split_segment(s: Seq<char>, sep: char, j: int, a: int, b: int)
    requires
        0 <= a <= b <= s.len(),
        count_occ(s.subrange(0, a), sep) == j,
        a == 0 || s[a - 1] == sep,
        forall|m: int| a <= m < b ==> s[m] != sep,
        b == s.len() || s[b] == sep,
    ensures
        0 <= j < split_on(s, sep).len(),
        split_on(s, sep)[j] == s.subrange(a, b),
    decreases s.len(),
{
    if s.len() == 0 {
        assert(s.subrange(0, a) =~= Seq::<char>::empty());
        assert(s.subrange(a, b) =~= Seq::<char>::empty());
    } else {
        let t = s.drop_first();
        if s[0] == sep {
            if a == 0 {
                assert(s.subrange(0, 0) =~= Seq::<char>::empty());
                assert(j == 0);
                // b cannot reach past position 0, which holds a separator
                assert(b == 0);
                assert(s.subrange(0, 0) =~= Seq::<char>::empty());
            } else {
                assert(s.subrange(0, a)[0] == sep);
                assert(s.subrange(0, a).drop_first() =~= t.subrange(0, a - 1));
                assert(count_occ(t.subrange(0, a - 1), sep) == j - 1);
                assert(forall|m: int| a - 1 <= m < b - 1 ==> t[m] != sep);
                lemma_split_segment(t, sep, j - 1, a - 1, b - 1);
                assert(t.subrange(a - 1, b - 1) =~= s.subrange(a, b));
                assert(split_on(s, sep)[j] == split_on(t, sep)[j - 1]);
            }
        } else {
            let rest = split_on(t, sep);
            if a == 0 {
                assert(s.subrange(0, 0) =~= Seq::<char>::empty());
                assert(j == 0);
                // position 0 is not a separator, so b is at least 1
                assert(b >= 1);
                assert(s.subrange(0, 1int).drop_first() =~= Seq::<char>::empty());
                assert(count_occ(t.subrange(0, 0), sep) == 0) by {
                    assert(t.subrange(0, 0) =~= Seq::<char>::empty());
                }
                assert(forall|m: int| 0 <= m < b - 1 ==> t[m] != sep);
                lemma_split_segment(t, sep, 0, 0, b - 1);
                assert(rest[0] == t.subrange(0, b - 1));
                assert(seq![s[0]] + t.subrange(0, b - 1) =~= s.subrange(0, b));
                assert(split_on(s, sep)[0] == seq![s[0]] + rest[0]);
            } else {
                // a separator stands at a - 1, and position 0 is none, so a >= 2
                assert(a >= 2);
                assert(s.subrange(0, a)[0] == s[0]);
                assert(s.subrange(0, a).drop_first() =~= t.subrange(0, a - 1));
                assert(count_occ(t.subrange(0, a - 1), sep) == j);
                // the separator at a - 1 makes the count, hence j, positive
                assert(j >= 1) by {
                    lemma_count_contains(s.subrange(0, a), sep, a - 1);
                }
                assert(forall|m: int| a - 1 <= m < b - 1 ==> t[m] != sep);
                lemma_split_segment(t, sep, j, a - 1, b - 1);
                assert(t.subrange(a - 1, b - 1) =~= s.subrange(a, b));
                assert(split_on(s, sep)[j] == rest.drop_first()[j - 1]);
                assert(rest.drop_first()[j - 1] == rest[j]);
            }
        }
    }
}

/// A sequence that holds `c` at some position counts it at least once.
pub proof fn lemma_count_contains(s: Seq<char>, c: char, m: int)
    requires
        0 <= m < s.len(),
        s[m] == c,
    ensures
        count_occ(s, c) >= 1,
    decreases s.len(),
{
    if m == 0 {
    } else {
        lemma_count_contains(s.drop_first(), c, m - 1);
    }
}

} // verus!
