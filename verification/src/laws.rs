//! The library's general guarantees, stated and proved once over the
//! mathematical model that the search contracts use.

use vstd::prelude::*;

use crate::search::{
    enumerate_lines, insens_pred, results_match, sens_pred, spec_search, spec_search_ci,
};
use crate::text::{contains_seq, lower_of, spec_lines};

verus! {

/// An element of a filtered sequence is an element of the source sequence
/// and satisfies the predicate.
proof fn lemma_filter_in_source<A>(s: Seq<A>, pred: spec_fn(A) -> bool, x: A)
    requires
        s.filter(pred).contains(x),
    ensures
        s.contains(x),
        pred(x),
    decreases s.len(),
{
    reveal(Seq::filter);
    if s.len() == 0 {
    } else {
        let sub = s.drop_last().filter(pred);
        if pred(s.last()) && x == s.last() {
            assert(s[s.len() - 1] == x);
        } else {
            assert(sub.contains(x)) by {
                if pred(s.last()) {
                    let j = choose|j: int|
                        0 <= j < s.filter(pred).len() && s.filter(pred)[j] == x;
                    assert(sub.push(s.last())[j] == x);
                    assert(j < sub.len());
                }
            }
            lemma_filter_in_source(s.drop_last(), pred, x);
            let j = choose|j: int| 0 <= j < s.drop_last().len() && s.drop_last()[j] == x;
            assert(s[j] == x);
        }
    }
}

/// Filtering a sequence whose first components ascend strictly leaves them
/// ascending strictly.
proof fn lemma_filter_ascending(s: Seq<(int, Seq<char>)>, pred: spec_fn((int, Seq<char>)) -> bool)
    requires
        forall|i: int, j: int| 0 <= i < j < s.len() ==> (#[trigger] s[i]).0 < (#[trigger] s[j]).0,
    ensures
        forall|i: int, j: int|
            0 <= i < j < s.filter(pred).len() ==> (#[trigger] s.filter(pred)[i]).0
                < (#[trigger] s.filter(pred)[j]).0,
    decreases s.len(),
{
    reveal(Seq::filter);
    if s.len() > 0 {
        let sd = s.drop_last();
        assert forall|i: int, j: int| 0 <= i < j < sd.len() implies (#[trigger] sd[i]).0
            < (#[trigger] sd[j]).0 by {
            assert(sd[i] == s[i] && sd[j] == s[j]);
        }
        lemma_filter_ascending(sd, pred);
        let f = sd.filter(pred);
        if pred(s.last()) {
            assert forall|i: int| 0 <= i < f.len() implies (#[trigger] f[i]).0 < s.last().0 by {
                assert(f.contains(f[i]));
                lemma_filter_in_source(sd, pred, f[i]);
                let j = choose|j: int| 0 <= j < sd.len() && sd[j] == f[i];
                assert(s[j] == f[i]);
                assert(s[j].0 < s[s.len() - 1].0);
            }
        }
    }
}

/// Line numbering is 1-based and bounded: every line number a search
/// returns lies between 1 and the number of lines of the text, the numbers
/// ascend strictly with the position in the result, and so no two entries
/// of a result ever share a line number.
pub proof fn lemma_result_line_numbers(query: Seq<char>, contents: Seq<char>)
    ensures
        forall|k: int|
            0 <= k < spec_search(query, contents).len() ==> 1 <= (#[trigger] spec_search(
                query,
                contents,
            )[k]).0 <= spec_lines(contents).len(),
        forall|i: int, j: int|
            0 <= i < j < spec_search(query, contents).len() ==> (#[trigger] spec_search(
                query,
                contents,
            )[i]).0 < (#[trigger] spec_search(query, contents)[j]).0,
        forall|k: int|
            0 <= k < spec_search_ci(query, contents).len() ==> 1 <= (#[trigger] spec_search_ci(
                query,
                contents,
            )[k]).0 <= spec_lines(contents).len(),
        forall|i: int, j: int|
            0 <= i < j < spec_search_ci(query, contents).len() ==> (#[trigger] spec_search_ci(
                query,
                contents,
            )[i]).0 < (#[trigger] spec_search_ci(query, contents)[j]).0,
{
    let m = enumerate_lines(contents);
    assert(forall|i: int| 0 <= i < m.len() ==> (#[trigger] m[i]).0 == i + 1);
    lemma_filter_ascending(m, sens_pred(query));
    lemma_filter_ascending(m, insens_pred(query));
    assert forall|k: int| 0 <= k < spec_search(query, contents).len() implies 1
        <= (#[trigger] spec_search(query, contents)[k]).0 <= spec_lines(contents).len() by {
        let x = spec_search(query, contents)[k];
        assert(spec_search(query, contents).contains(x));
        lemma_filter_in_source(m, sens_pred(query), x);
        let j = choose|j: int| 0 <= j < m.len() && m[j] == x;
        assert(m[j].0 == j + 1);
    }
    assert forall|k: int| 0 <= k < spec_search_ci(query, contents).len() implies 1
        <= (#[trigger] spec_search_ci(query, contents)[k]).0 <= spec_lines(contents).len() by {
        let x = spec_search_ci(query, contents)[k];
        assert(spec_search_ci(query, contents).contains(x));
        lemma_filter_in_source(m, insens_pred(query), x);
        let j = choose|j: int| 0 <= j < m.len() && m[j] == x;
        assert(m[j].0 == j + 1);
    }
}

/// Case-sensitive matches are a subset of case-insensitive matches for the
/// same query, with the same line numbers and the same line text — on every
/// text whose lines keep containing the lowercased query once both are
/// lowercased.  (Lowercasing a string is not character-wise for every
/// Unicode text, so that premise is stated rather than claimed of
/// `lower_of` in general.)
pub proof fn lemma_sensitive_subset_of_insensitive(query: Seq<char>, contents: Seq<char>)
    requires
        forall|k: int|
            0 <= k < spec_lines(contents).len() && contains_seq(
                #[trigger] spec_lines(contents)[k],
                query,
            ) ==> contains_seq(lower_of(spec_lines(contents)[k]), lower_of(query)),
    ensures
        forall|p: (int, Seq<char>)| #[trigger]
            spec_search(query, contents).contains(p) ==> spec_search_ci(
                query,
                contents,
            ).contains(p),
{
    let m = enumerate_lines(contents);
    assert forall|p: (int, Seq<char>)| #[trigger]
        spec_search(query, contents).contains(p) implies spec_search_ci(
        query,
        contents,
    ).contains(p) by {
        lemma_filter_in_source(m, sens_pred(query), p);
        let j = choose|j: int| 0 <= j < m.len() && m[j] == p;
        assert(m[j].1 == spec_lines(contents)[j]);
        assert(contains_seq(spec_lines(contents)[j], query));
        assert(insens_pred(query)(m[j]));
        m.lemma_filter_contains(insens_pred(query), j);
    }
}

/// An empty text yields an empty result for both search variants, whatever
/// the query — including the empty query.
pub proof fn lemma_empty_contents(query: Seq<char>)
    ensures
        spec_search(query, Seq::<char>::empty()) == Seq::<(int, Seq<char>)>::empty(),
        spec_search_ci(query, Seq::<char>::empty()) == Seq::<(int, Seq<char>)>::empty(),
{
    reveal(Seq::filter);
    assert(spec_lines(Seq::<char>::empty()) =~= Seq::<Seq<char>>::empty());
    assert(enumerate_lines(Seq::<char>::empty()) =~= Seq::<(int, Seq<char>)>::empty());
    assert(spec_search(query, Seq::<char>::empty()) =~= Seq::<(int, Seq<char>)>::empty());
    assert(spec_search_ci(query, Seq::<char>::empty()) =~= Seq::<(int, Seq<char>)>::empty());
}

/// Searching is purely functional: any two executable results that agree
/// with the same mathematical result — as two calls of the same search
/// variant on identical inputs must — are deep-equal, entry by entry.
pub proof fn lemma_results_agree(
    m: Seq<(int, Seq<char>)>,
    r1: Seq<(usize, &str)>,
    r2: Seq<(usize, &str)>,
)
    requires
        results_match(r1, m),
        results_match(r2, m),
    ensures
        r1.len() == r2.len(),
        forall|k: int|
            0 <= k < r1.len() ==> (#[trigger] r1[k]).0 == r2[k].0 && r1[k].1@ == r2[k].1@,
{
}

} // verus!
