//! The search engine: line enumeration and the two search variants.
//!
//! Both variants enumerate the same lines with the same 1-based numbers and
//! differ only in the predicate they filter with, so switching case
//! sensitivity can never change which lines exist or how they are numbered.

use vstd::prelude::*;

use crate::text::{contains_seq, contains_substr, lines_from, lower_of, spec_lines, strip_cr, to_lower};

verus! {

/// The lines of a text paired with their 1-based line numbers.
pub open spec fn enumerate_lines(s: Seq<char>) -> Seq<(int, Seq<char>)> {
    spec_lines(s).map(|k: int, l: Seq<char>| (k + 1, l))
}

/// The predicate of the case-sensitive variant: the line contains the query
/// as a literal substring.
pub open spec fn sens_pred(query: Seq<char>) -> spec_fn((int, Seq<char>)) -> bool {
    |p: (int, Seq<char>)| contains_seq(p.1, query)
}

/// The predicate of the case-insensitive variant: the lowercased line
/// contains the lowercased query.
pub open spec fn insens_pred(query: Seq<char>) -> spec_fn((int, Seq<char>)) -> bool {
    |p: (int, Seq<char>)| contains_seq(lower_of(p.1), lower_of(query))
}

/// What the case-sensitive search returns: the numbered lines whose text
/// contains the query, in document order.
pub open spec fn spec_search(query: Seq<char>, contents: Seq<char>) -> Seq<(int, Seq<char>)> {
    enumerate_lines(contents).filter(sens_pred(query))
}

/// What the case-insensitive search returns: the numbered lines whose
/// lowercased text contains the lowercased query, in document order.
pub open spec fn spec_search_ci(query: Seq<char>, contents: Seq<char>) -> Seq<(int, Seq<char>)> {
    enumerate_lines(contents).filter(insens_pred(query))
}

/// An executable result agrees, entry by entry, with a mathematical one:
/// same length, same line numbers, same line text.
pub open spec fn results_match(r: Seq<(usize, &str)>, m: Seq<(int, Seq<char>)>) -> bool {
    &&& r.len() == m.len()
    &&& forall|k: int|
        0 <= k < r.len() ==> (#[trigger] r[k]).0 as int == m[k].0 && r[k].1@ == m[k].1
}

/// Enumerate the lines of `contents`: every line of the text, paired with
/// its 1-based line number, in document order.
pub fn search_iter<'a>(contents: &'a str) -> (r: Vec<(usize, &'a str)>)
    ensures
        results_match(r@, enumerate_lines(contents@)),
{
    let n = contents.unicode_len();
    let mut r: Vec<(usize, &'a str)> = Vec::new();
    let mut start: usize = 0;
    let mut i: usize = 0;
    proof {
        assert(contents@.skip(0) =~= contents@);
        assert(contents@.subrange(0, 0) =~= Seq::<char>::empty());
        assert(r@.map_values(|p: (usize, &'a str)| p.1@) + spec_lines(contents@)
            =~= spec_lines(contents@));
    }
    while i < n
        invariant
            n == contents@.len(),
            start <= i <= n,
            r@.len() <= start,
            forall|k: int| 0 <= k < r@.len() ==> (#[trigger] r@[k]).0 as int == k + 1,
            r@.map_values(|p: (usize, &'a str)| p.1@) + lines_from(
                contents@.skip(i as int),
                contents@.subrange(start as int, i as int),
            ) == spec_lines(contents@),
        decreases n - i,
    {
        let ghost s = contents@;
        let ghost cur = s.subrange(start as int, i as int);
        let c = contents.get_char(i);
        proof {
            assert(s.skip(i as int)[0] == s[i as int]);
            assert(s.skip(i as int).drop_first() =~= s.skip(i + 1));
        }
        if c == '\n' {
            let end = if i > start && contents.get_char(i - 1) == '\r' {
                i - 1
            } else {
                i
            };
            proof {
                if i > start && s[i - 1] == '\r' {
                    assert(cur.last() == s[i - 1]);
                    assert(cur.drop_last() =~= s.subrange(start as int, i - 1));
                } else if i > start {
                    assert(cur.last() == s[i - 1]);
                }
                assert(s.subrange(start as int, end as int) == strip_cr(cur));
                assert(lines_from(s.skip(i as int), cur) == seq![strip_cr(cur)]
                    + lines_from(s.skip(i + 1), Seq::empty()));
                assert(s.subrange(i + 1, i + 1) =~= Seq::<char>::empty());
            }
            let line = contents.substring_char(start, end);
            let num = r.len() + 1;
            let ghost old_r = r@;
            r.push((num, line));
            start = i + 1;
            proof {
                assert(r@.map_values(|p: (usize, &'a str)| p.1@) =~= old_r.map_values(
                    |p: (usize, &'a str)| p.1@,
                ).push(line@));
                assert(old_r.map_values(|p: (usize, &'a str)| p.1@).push(strip_cr(cur))
                    + lines_from(s.skip(i + 1), Seq::empty()) =~= old_r.map_values(
                    |p: (usize, &'a str)| p.1@,
                ) + (seq![strip_cr(cur)] + lines_from(s.skip(i + 1), Seq::empty())));
            }
        } else {
            proof {
                assert(cur.push(s[i as int]) =~= s.subrange(start as int, i + 1));
                assert(lines_from(s.skip(i as int), cur) == lines_from(
                    s.skip(i + 1),
                    cur.push(s[i as int]),
                ));
            }
        }
        i += 1;
    }
    let ghost s = contents@;
    proof {
        assert(s.skip(n as int) =~= Seq::<char>::empty());
    }
    if start < n {
        let line = contents.substring_char(start, n);
        let ghost cur = s.subrange(start as int, n as int);
        let ghost old_r = r@;
        proof {
            assert(lines_from(s.skip(n as int), cur) == seq![cur]);
        }
        let num = r.len() + 1;
        r.push((num, line));
        proof {
            assert(r@.map_values(|p: (usize, &'a str)| p.1@) =~= old_r.map_values(
                |p: (usize, &'a str)| p.1@,
            ).push(line@));
            assert(old_r.map_values(|p: (usize, &'a str)| p.1@).push(cur) =~= old_r.map_values(
                |p: (usize, &'a str)| p.1@,
            ) + seq![cur]);
        }
    } else {
        proof {
            assert(lines_from(s.skip(n as int), s.subrange(start as int, n as int))
                =~= Seq::<Seq<char>>::empty());
        }
    }
    proof {
        let views = r@.map_values(|p: (usize, &'a str)| p.1@);
        assert(views + Seq::<Seq<char>>::empty() =~= views);
        assert(views == spec_lines(s));
        assert forall|k: int| 0 <= k < r@.len() implies (#[trigger] r@[k]).0 as int
            == enumerate_lines(s)[k].0 && r@[k].1@ == enumerate_lines(s)[k].1 by {
            assert(views[k] == r@[k].1@);
        }
    }
    r
}

/// Case-sensitive search: the numbered lines of `contents` that contain
/// `query` as a literal substring, in ascending line order.
pub fn search<'a>(query: &str, contents: &'a str) -> (r: Vec<(usize, &'a str)>)
    ensures
        results_match(r@, spec_search(query@, contents@)),
{
    let lines = search_iter(contents);
    let ghost m = enumerate_lines(contents@);
    let ghost pred = sens_pred(query@);
    let mut r: Vec<(usize, &'a str)> = Vec::new();
    let mut k: usize = 0;
    proof {
        assert(m.take(0) =~= Seq::<(int, Seq<char>)>::empty());
        Seq::<(int, Seq<char>)>::empty().lemma_filter_len(pred);
    }
    while k < lines.len()
        invariant
            m == enumerate_lines(contents@),
            pred == sens_pred(query@),
            results_match(lines@, m),
            k <= lines@.len(),
            results_match(r@, m.take(k as int).filter(pred)),
        decreases lines@.len() - k,
    {
        let p = lines[k];
        let matched = contains_substr(p.1, query);
        proof {
            assert(m.take(k + 1) =~= m.take(k as int).push(m[k as int]));
            m.take(k as int).lemma_filter_push(m[k as int], pred);
            assert(pred(m[k as int]) == matched);
        }
        if matched {
            r.push(p);
        }
        k += 1;
    }
    proof {
        assert(m.take(lines@.len() as int) =~= m);
    }
    r
}

/// Case-insensitive search: the numbered lines of `contents` whose
/// lowercased text contains the lowercased `query`, in ascending line
/// order.  The returned text is the original line, not the lowered copy.
pub fn search_case_insensitive<'a>(query: &str, contents: &'a str) -> (r: Vec<(usize, &'a str)>)
    ensures
        results_match(r@, spec_search_ci(query@, contents@)),
{
    let lower_query = to_lower(query);
    let lines = search_iter(contents);
    let ghost m = enumerate_lines(contents@);
    let ghost pred = insens_pred(query@);
    let mut r: Vec<(usize, &'a str)> = Vec::new();
    let mut k: usize = 0;
    proof {
        assert(m.take(0) =~= Seq::<(int, Seq<char>)>::empty());
        Seq::<(int, Seq<char>)>::empty().lemma_filter_len(pred);
    }
    while k < lines.len()
        invariant
            m == enumerate_lines(contents@),
            pred == insens_pred(query@),
            lower_query@ == lower_of(query@),
            results_match(lines@, m),
            k <= lines@.len(),
            results_match(r@, m.take(k as int).filter(pred)),
        decreases lines@.len() - k,
    {
        let p = lines[k];
        let lower_line = to_lower(p.1);
        let matched = contains_substr(lower_line.as_str(), lower_query.as_str());
        proof {
            assert(m.take(k + 1) =~= m.take(k as int).push(m[k as int]));
            m.take(k as int).lemma_filter_push(m[k as int], pred);
            assert(pred(m[k as int]) == matched);
        }
        if matched {
            r.push(p);
        }
        k += 1;
    }
    proof {
        assert(m.take(lines@.len() as int) =~= m);
    }
    r
}

} // verus!
