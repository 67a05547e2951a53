//! The mathematical model of texts: how a text splits into lines, what it
//! means for one string to contain another, and the executable primitives
//! (substring test, character-wise string equality, lowercasing) that the
//! search functions are built on.

use vstd::prelude::*;

verus! {

/// A line that was terminated by a newline loses one trailing carriage
/// return, so that texts with `\r\n` line endings compare like texts with
/// plain `\n` endings.
pub open spec fn strip_cr(line: Seq<char>) -> Seq<char> {
    if line.len() > 0 && line.last() == '\r' {
        line.drop_last()
    } else {
        line
    }
}

/// The lines still to be produced, given that `rest` is the unread tail of
/// the text and `cur` holds the characters of the current line read so far.
/// A newline ends the current line; a final line that no newline terminates
/// is kept as it stands (no carriage return is stripped from it), and a
/// trailing newline does not open an empty last line.
pub open spec fn lines_from(rest: Seq<char>, cur: Seq<char>) -> Seq<Seq<char>>
    decreases rest.len(),
{
    if rest.len() == 0 {
        if cur.len() == 0 {
            Seq::empty()
        } else {
            seq![cur]
        }
    } else if rest[0] == '\n' {
        seq![strip_cr(cur)] + lines_from(rest.drop_first(), Seq::empty())
    } else {
        lines_from(rest.drop_first(), cur.push(rest[0]))
    }
}

/// The lines of a text, split at `\n`, with a carriage return stripped from
/// the end of every newline-terminated line.
pub open spec fn spec_lines(s: Seq<char>) -> Seq<Seq<char>> {
    lines_from(s, Seq::empty())
}

/// `needle` occurs in `hay` starting at position `i`.
pub open spec fn contains_at(hay: Seq<char>, needle: Seq<char>, i: int) -> bool {
    &&& 0 <= i
    &&& i + needle.len() <= hay.len()
    &&& hay.subrange(i, i + needle.len()) == needle
}

/// `needle` occurs somewhere in `hay` as a contiguous run of characters.
/// The empty sequence is contained in every sequence.
pub open spec fn contains_seq(hay: Seq<char>, needle: Seq<char>) -> bool {
    exists|i: int| contains_at(hay, needle, i)
}

/// The lowercase form of a text, as `str::to_lowercase` computes it: a pure
/// function of the characters alone.
pub uninterp spec fn lower_of(s: Seq<char>) -> Seq<char>;

/// Relies on `str::to_lowercase`, whose result depends only on the
/// characters of `s`.
#[verifier::external_body]
pub(crate) fn to_lower(s: &str) -> (r: String)
    ensures
        r@ == lower_of(s@),
{
    s.to_lowercase()
}

/// `needle` matches the characters of `hay` starting at position `i`.
fn match_at(hay: &str, needle: &str, i: usize, nn: usize) -> (b: bool)
    requires
        nn == needle@.len(),
        i + nn <= hay@.len(),
        hay@.len() <= usize::MAX,
    ensures
        b == contains_at(hay@, needle@, i as int),
{
    let mut j: usize = 0;
    while j < nn
        invariant
            j <= nn,
            nn == needle@.len(),
            i + nn <= hay@.len(),
            hay@.len() <= usize::MAX,
            forall|t: int| 0 <= t < j ==> hay@[i + t] == needle@[t],
        decreases nn - j,
    {
        if hay.get_char(i + j) != needle.get_char(j) {
            proof {
                assert(!contains_at(hay@, needle@, i as int)) by {
                    if hay@.subrange(i as int, i + needle@.len()) == needle@ {
                        assert(hay@.subrange(i as int, i + needle@.len())[j as int]
                            == needle@[j as int]);
                    }
                }
            }
            return false;
        }
        j += 1;
    }
    proof {
        assert(hay@.subrange(i as int, i + needle@.len()) =~= needle@);
    }
    true
}

/// Whether `needle` occurs in `hay` as a literal substring.
pub fn contains_substr(hay: &str, needle: &str) -> (b: bool)
    ensures
        b == contains_seq(hay@, needle@),
{
    let hn = hay.unicode_len();
    let nn = needle.unicode_len();
    if nn > hn {
        proof {
            assert(forall|i: int| !contains_at(hay@, needle@, i));
        }
        return false;
    }
    let lim = hn - nn;
    let mut i: usize = 0;
    loop
        invariant
            hn == hay@.len(),
            nn == needle@.len(),
            nn <= hn,
            lim == hn - nn,
            i <= lim,
            forall|j: int| 0 <= j < i ==> !contains_at(hay@, needle@, j),
        decreases lim - i,
    {
        if match_at(hay, needle, i, nn) {
            return true;
        }
        if i == lim {
            proof {
                assert(forall|j: int| contains_at(hay@, needle@, j) ==> 0 <= j <= lim);
            }
            return false;
        }
        i += 1;
    }
}

/// Whether two strings hold the same characters.
pub fn str_eq(a: &str, b: &str) -> (r: bool)
    ensures
        r == (a@ == b@),
{
    let an = a.unicode_len();
    let bn = b.unicode_len();
    if an != bn {
        return false;
    }
    let mut i: usize = 0;
    while i < an
        invariant
            i <= an,
            an == a@.len(),
            an == b@.len(),
            forall|j: int| 0 <= j < i ==> a@[j] == b@[j],
        decreases an - i,
    {
        if a.get_char(i) != b.get_char(i) {
            return false;
        }
        i += 1;
    }
    proof {
        assert(a@ =~= b@);
    }
    true
}

} // verus!
