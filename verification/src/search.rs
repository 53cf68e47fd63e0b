//! Literal substring search over a plain text, marking every non-overlapping
//! occurrence in the styled text whose plain projection it is. Matching is
//! by character, so multi-byte text is marked at character positions.

use vstd::prelude::*;

use crate::style::Style;
use crate::termtext::{mk_char, plain_of, Text};
use crate::unicode::str_to_chars;

verus! {

/// Whether `needle` occurs in `hay` at character position `i`.
pub open spec fn matches_at(hay: Seq<char>, needle: Seq<char>, i: int) -> bool {
    0 <= i && i + needle.len() <= hay.len() && hay.subrange(i, i + needle.len()) == needle
}

/// The first position at or after `from` where `needle` occurs in `hay`.
pub open spec fn next_match(hay: Seq<char>, needle: Seq<char>, from: int) -> Option<int>
    decreases hay.len() - from,
{
    if from < 0 || needle.len() == 0 || from + needle.len() > hay.len() {
        None
    } else if matches_at(hay, needle, from) {
        Some(from)
    } else {
        next_match(hay, needle, from + 1)
    }
}

/// The starts of the non-overlapping occurrences of `needle` in `hay` from
/// position `from` on, each found as early as possible and the next search
/// resuming right after the previous occurrence.
pub open spec fn match_starts(hay: Seq<char>, needle: Seq<char>, from: int) -> Seq<int>
    decreases hay.len() - from,
        when from >= 0
        via match_starts_decreases
{
    match next_match(hay, needle, from) {
        None => Seq::empty(),
        Some(i) => seq![i] + match_starts(hay, needle, i + needle.len() as int),
    }
}

#[via_fn]
proof fn match_starts_decreases(hay: Seq<char>, needle: Seq<char>, from: int) {
    lemma_next_match_ge(hay, needle, from);
    if next_match(hay, needle, from) is Some {
        lemma_next_match_some_nonempty(hay, needle, from);
    }
}

proof fn lemma_next_match_some_nonempty(hay: Seq<char>, needle: Seq<char>, from: int)
    ensures
        next_match(hay, needle, from) is Some ==> needle.len() > 0,
    decreases hay.len() - from,
{
    if !(from < 0 || needle.len() == 0 || from + needle.len() > hay.len()) && !matches_at(
        hay,
        needle,
        from,
    ) {
        lemma_next_match_some_nonempty(hay, needle, from + 1);
    }
}

/// Whether position `k` lies inside one of the occurrences that start at
/// `starts` and have length `qlen`.
pub open spec fn in_any_match(starts: Seq<int>, qlen: nat, k: int) -> bool {
    exists|j: int| 0 <= j < starts.len() && (#[trigger] starts[j]) <= k < starts[j] + qlen
}

proof fn lemma_next_match_ge(hay: Seq<char>, needle: Seq<char>, from: int)
    ensures
        next_match(hay, needle, from) matches Some(i) ==> i >= from && matches_at(
            hay,
            needle,
            i,
        ),
    decreases hay.len() - from,
{
    if !(from < 0 || needle.len() == 0 || from + needle.len() > hay.len()) && !matches_at(
        hay,
        needle,
        from,
    ) {
        lemma_next_match_ge(hay, needle, from + 1);
    }
}

/// Marks every non-overlapping occurrence of `query` in `string` inside
/// `text`, whose plain projection must equal `string`. An empty query marks
/// nothing; every character inside an occurrence gets `style`, every other
/// character is untouched.
pub fn search_and_mark(string: &str, text: &mut Text, query: &str, style: Style)
    requires
        plain_of(old(text)@) == string@,
    ensures
        final(text)@.len() == old(text)@.len(),
        forall|k: int|
            0 <= k < old(text)@.len() ==> #[trigger] final(text)@[k] == (if query@.len() > 0
                && in_any_match(match_starts(string@, query@, 0), query@.len(), k) {
                mk_char(old(text)@[k].c, style)
            } else {
                old(text)@[k]
            }),
{
    let hay = str_to_chars(string);
    let q = str_to_chars(query);
    if q.len() == 0 {
        return ;
    }
    let qlen = q.len();
    if qlen > hay.len() {
        proof {
            assert(match_starts(string@, query@, 0) =~= Seq::<int>::empty());
        }
        return ;
    }
    let hay_len = hay.len();
    let ghost starts = match_starts(string@, query@, 0);
    let mut p: usize = 0;
    let ghost mut idx: int = 0;
    proof {
        assert(starts.skip(0) =~= starts);
    }
    while p <= hay.len() - qlen
        invariant
            qlen == query@.len(),
            qlen > 0,
            qlen <= hay@.len(),
            hay@.len() <= usize::MAX,
            hay@ == string@,
            q@ == query@,
            0 <= p <= hay@.len(),
            0 <= idx <= starts.len(),
            starts == match_starts(string@, query@, 0),
            match_starts(string@, query@, p as int) == starts.skip(idx),
            text@.len() == old(text)@.len(),
            plain_of(old(text)@) == string@,
            forall|k: int|
                0 <= k < old(text)@.len() ==> #[trigger] text@[k] == (if in_any_match(
                    starts.take(idx),
                    qlen as nat,
                    k,
                ) {
                    mk_char(old(text)@[k].c, style)
                } else {
                    old(text)@[k]
                }),
        decreases hay@.len() - p,
    {
        let mut j: usize = 0;
        let mut is_match = true;
        proof {
            assert(hay@.subrange(p as int, p as int) =~= Seq::<char>::empty());
            assert(q@.subrange(0, 0) =~= Seq::<char>::empty());
        }
        while j < qlen
            invariant
                j <= qlen,
                qlen == q@.len(),
                p + qlen <= hay@.len(),
                hay@.len() <= usize::MAX,
                is_match == (hay@.subrange(p as int, p + j) == q@.subrange(0, j as int)),
            decreases qlen - j,
        {
            let ghost pre = is_match;
            if hay[p + j] != q[j] {
                is_match = false;
                proof {
                    if hay@.subrange(p as int, p + j + 1) == q@.subrange(0, j + 1) {
                        assert(hay@.subrange(p as int, p + j + 1)[j as int] == hay@[p + j]);
                        assert(q@.subrange(0, j + 1)[j as int] == q@[j as int]);
                    }
                }
            } else {
                proof {
                    if pre {
                        assert(hay@.subrange(p as int, p + j + 1) =~= hay@.subrange(
                            p as int,
                            p + j,
                        ).push(hay@[p + j]));
                        assert(q@.subrange(0, j + 1) =~= q@.subrange(0, j as int).push(
                            q@[j as int],
                        ));
                    } else {
                        if hay@.subrange(p as int, p + j + 1) == q@.subrange(0, j + 1) {
                            assert(hay@.subrange(p as int, p + j) =~= hay@.subrange(
                                p as int,
                                p + j + 1,
                            ).subrange(0, j as int));
                            assert(q@.subrange(0, j as int) =~= q@.subrange(
                                0,
                                j + 1,
                            ).subrange(0, j as int));
                        }
                    }
                }
            }
            j = j + 1;
        }
        proof {
            assert(hay@.subrange(p as int, p + qlen) == q@ <==> is_match) by {
                if is_match {
                    assert(hay@.subrange(p as int, p + qlen) == q@.subrange(
                        0,
                        qlen as int,
                    ));
                    assert(q@.subrange(0, qlen as int) =~= q@);
                } else {
                    assert(q@.subrange(0, qlen as int) =~= q@);
                }
            }
        }
        if is_match {
            proof {
                assert(matches_at(string@, query@, p as int));
                assert(next_match(string@, query@, p as int) == Some(p as int));
                assert(match_starts(string@, query@, p as int) == seq![p as int]
                    + match_starts(string@, query@, p + qlen));
                assert(starts.skip(idx).len() > 0);
                assert(starts.skip(idx)[0] == starts[idx]);
                assert((seq![p as int] + match_starts(string@, query@, p + qlen))[0] == p as int);
                assert(starts[idx] == p as int);
                assert(starts.skip(idx).skip(1) =~= starts.skip(idx + 1));
                assert((seq![p as int] + match_starts(string@, query@, p + qlen)).skip(1)
                    =~= match_starts(string@, query@, p + qlen));
                assert(match_starts(string@, query@, p + qlen) == starts.skip(idx + 1));
            }
            text.mark_text(p, p + qlen, style);
            proof {
                assert(starts.take(idx + 1) =~= starts.take(idx).push(p as int));
                assert(starts.take(idx + 1)[idx] == p as int);
                assert(forall|jj: int|
                    0 <= jj < idx ==> #[trigger] starts.take(idx + 1)[jj] == starts.take(
                        idx,
                    )[jj]);
                assert forall|k: int| in_any_match(starts.take(idx + 1), qlen as nat, k)
                    <==> in_any_match(starts.take(idx), qlen as nat, k) || (p <= k < p
                    + qlen) by {
                    if in_any_match(starts.take(idx + 1), qlen as nat, k) {
                        let jj = choose|jj: int|
                            0 <= jj < starts.take(idx + 1).len() && (#[trigger] starts.take(
                                idx + 1,
                            )[jj]) <= k < starts.take(idx + 1)[jj] + qlen;
                        if jj < idx {
                            assert(0 <= jj < starts.take(idx).len() && starts.take(idx)[jj]
                                <= k < starts.take(idx)[jj] + qlen);
                        }
                    }
                    if in_any_match(starts.take(idx), qlen as nat, k) {
                        let jj = choose|jj: int|
                            0 <= jj < starts.take(idx).len() && (#[trigger] starts.take(
                                idx,
                            )[jj]) <= k < starts.take(idx)[jj] + qlen;
                        assert(0 <= jj < starts.take(idx + 1).len() && starts.take(
                            idx + 1,
                        )[jj] <= k < starts.take(idx + 1)[jj] + qlen);
                    }
                    if p <= k < p + qlen {
                        assert(0 <= idx < starts.take(idx + 1).len() && starts.take(
                            idx + 1,
                        )[idx] <= k < starts.take(idx + 1)[idx] + qlen);
                    }
                }
                idx = idx + 1;
            }
            p = p + qlen;
        } else {
            proof {
                assert(!matches_at(string@, query@, p as int));
                assert(match_starts(string@, query@, p as int) == match_starts(
                    string@,
                    query@,
                    p + 1,
                ));
            }
            p = p + 1;
        }
    }
    proof {
        assert(next_match(string@, query@, p as int) is None);
        assert(match_starts(string@, query@, p as int) =~= Seq::<int>::empty());
        assert(idx == starts.len());
        assert(starts.take(idx) =~= starts);
    }
}

} // verus!
