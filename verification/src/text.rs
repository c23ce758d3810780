//! Parsing of the free-text answers the user types: the list of source
//! extensions, and yes/no confirmations.
//!
//! The extension list is split at every non-alphabetic character and empty
//! pieces are dropped, so `split_from` returns exactly the maximal runs of
//! alphabetic characters. Which characters count as alphabetic or as white
//! space is left to the standard library, behind the names `is_alpha` and
//! `is_space`.

use vstd::prelude::*;
use vstd::string::*;

verus! {

pub uninterp spec fn is_alpha(c: char) -> bool;

pub uninterp spec fn is_space(c: char) -> bool;

/// Relies on char::is_alphabetic: the result depends on the character alone.
#[verifier::external_body]
fn char_is_alphabetic(c: char) -> (r: bool)
    ensures
        r == is_alpha(c),
{
    c.is_alphabetic()
}

/// Relies on char::is_whitespace: the result depends on the character alone.
#[verifier::external_body]
fn char_is_whitespace(c: char) -> (r: bool)
    ensures
        r == is_space(c),
{
    c.is_whitespace()
}

/// The first index at or after `i` whose character is not alphabetic, or the
/// end of `s`: the end of the alphabetic run starting at `i`.
pub open spec fn run_end(s: Seq<char>, i: int) -> int
    decreases s.len() - i,
{
    if i < 0 || i >= s.len() || !is_alpha(s[i]) {
        i
    } else {
        run_end(s, i + 1)
    }
}

pub proof fn lemma_run_end_bounds(s: Seq<char>, i: int)
    requires
        0 <= i <= s.len(),
    ensures
        i <= run_end(s, i) <= s.len(),
    decreases s.len() - i,
{
    if i < s.len() && is_alpha(s[i]) {
        lemma_run_end_bounds(s, i + 1);
    }
}

/// The maximal runs of alphabetic characters in `s` from index `i` on.
pub open spec fn alpha_words_from(s: Seq<char>, i: int) -> Seq<Seq<char>>
    decreases s.len() - i,
    via alpha_words_from_decreases
{
    if i < 0 || i >= s.len() {
        Seq::empty()
    } else if !is_alpha(s[i]) {
        alpha_words_from(s, i + 1)
    } else {
        seq![s.subrange(i, run_end(s, i))] + alpha_words_from(s, run_end(s, i))
    }
}

#[via_fn]
proof fn alpha_words_from_decreases(s: Seq<char>, i: int) {
    if 0 <= i < s.len() && is_alpha(s[i]) {
        lemma_run_end_bounds(s, i + 1);
    }
}

/// The maximal runs of alphabetic characters in `s`, in order.
pub open spec fn alpha_words(s: Seq<char>) -> Seq<Seq<char>> {
    alpha_words_from(s, 0)
}

/// Splits the user's extension list at every non-alphabetic character,
/// returning exactly the maximal alphabetic runs, in order.
pub fn split_from<'a>(from_str: &'a str) -> (r: Vec<&'a str>)
    ensures
        r@.len() == alpha_words(from_str@).len(),
        forall|k: int| 0 <= k < r@.len() ==> r@[k]@ == alpha_words(from_str@)[k],
{
    let n = from_str.unicode_len();
    let mut r: Vec<&'a str> = Vec::new();
    let mut i: usize = 0;
    while i < n
        invariant
            i <= n,
            n == from_str@.len(),
            r@.len() <= alpha_words(from_str@).len(),
            forall|k: int| 0 <= k < r@.len() ==> r@[k]@ == alpha_words(from_str@)[k],
            alpha_words_from(from_str@, i as int) == alpha_words(from_str@).skip(
                r@.len() as int,
            ),
        decreases n - i,
    {
        let ghost s = from_str@;
        let c = from_str.get_char(i);
        if char_is_alphabetic(c) {
            let start = i;
            i = i + 1;
            while i < n
                invariant
                    start < i <= n,
                    n == from_str@.len(),
                    forall|k: int| start <= k < i ==> is_alpha(from_str@[k]),
                ensures
                    start < i <= n,
                    n == from_str@.len(),
                    forall|k: int| start <= k < i ==> is_alpha(from_str@[k]),
                    i == n || !is_alpha(from_str@[i as int]),
                decreases n - i,
            {
                let c2 = from_str.get_char(i);
                if !char_is_alphabetic(c2) {
                    break;
                }
                i = i + 1;
            }
            proof {
                lemma_run_end_exact(s, start as int, i as int);
                let total = alpha_words(s);
                let len0 = r@.len() as int;
                assert(alpha_words_from(s, start as int) == seq![
                    s.subrange(start as int, i as int),
                ] + alpha_words_from(s, i as int));
                assert(total.skip(len0)[0] == s.subrange(start as int, i as int));
                assert(total[len0] == s.subrange(start as int, i as int));
                assert(total.skip(len0).skip(1) =~= total.skip(len0 + 1));
                assert(alpha_words_from(s, i as int) =~= total.skip(len0 + 1));
            }
            let word = from_str.substring_char(start, i);
            r.push(word);
        } else {
            i = i + 1;
        }
    }
    proof {
        let total = alpha_words(from_str@);
        assert(total.skip(r@.len() as int).len() == 0);
    }
    r
}

/// When every character in `[start, stop)` is alphabetic and `stop` is the
/// end of `s` or holds a non-alphabetic character, the run starting at
/// `start` ends exactly at `stop`.
proof fn lemma_run_end_exact(s: Seq<char>, start: int, stop: int)
    requires
        0 <= start <= stop <= s.len(),
        forall|k: int| start <= k < stop ==> is_alpha(s[k]),
        stop == s.len() || !is_alpha(s[stop]),
    ensures
        run_end(s, start) == stop,
    decreases stop - start,
{
    if start < stop {
        lemma_run_end_exact(s, start + 1, stop);
    }
}

/// `s` with its leading white space dropped.
pub open spec fn trim_front(s: Seq<char>) -> Seq<char>
    decreases s.len(),
{
    if s.len() > 0 && is_space(s[0]) {
        trim_front(s.drop_first())
    } else {
        s
    }
}

/// `s` with its trailing white space dropped.
pub open spec fn trim_back(s: Seq<char>) -> Seq<char>
    decreases s.len(),
{
    if s.len() > 0 && is_space(s.last()) {
        trim_back(s.drop_last())
    } else {
        s
    }
}

/// `s` with leading and trailing white space dropped.
pub open spec fn trimmed(s: Seq<char>) -> Seq<char> {
    trim_back(trim_front(s))
}

/// How a line answers a yes/no question: the empty (trimmed) line takes the
/// default, a single `y` or `Y` means yes, a single `n` or `N` means no, and
/// anything else is no answer at all.
pub open spec fn answer_of(s: Seq<char>, default: bool) -> Option<bool> {
    let t = trimmed(s);
    if t.len() == 0 {
        Some(default)
    } else if t.len() == 1 && (t[0] == 'y' || t[0] == 'Y') {
        Some(true)
    } else if t.len() == 1 && (t[0] == 'n' || t[0] == 'N') {
        Some(false)
    } else {
        None
    }
}

/// Reads `line` as the answer to a yes/no question with the given default.
pub fn parse_yes_no(line: &str, default: bool) -> (r: Option<bool>)
    ensures
        r == answer_of(line@, default),
{
    let ghost s = line@;
    let n = line.unicode_len();
    let mut a: usize = 0;
    proof {
        assert(s.skip(0) =~= s);
    }
    while a < n
        invariant
            a <= n,
            n == s.len(),
            s == line@,
            trim_front(s) == trim_front(s.skip(a as int)),
        ensures
            a <= n,
            trim_front(s) == trim_front(s.skip(a as int)),
            a == n || !is_space(s[a as int]),
        decreases n - a,
    {
        let c = line.get_char(a);
        if !char_is_whitespace(c) {
            break;
        }
        proof {
            assert(s.skip(a as int).drop_first() =~= s.skip(a as int + 1));
        }
        a = a + 1;
    }
    proof {
        if a == n {
            assert(s.skip(a as int) =~= Seq::<char>::empty());
        }
        assert(trim_front(s) == s.skip(a as int));
    }
    let ghost t0 = s.skip(a as int);
    let mut j: usize = n - a;
    proof {
        assert(t0.take(j as int) =~= t0);
    }
    while j > 0
        invariant
            a <= n,
            n == s.len(),
            s == line@,
            j <= n - a,
            t0 == s.skip(a as int),
            trim_back(t0) == trim_back(t0.take(j as int)),
        ensures
            j <= n - a,
            trim_back(t0) == trim_back(t0.take(j as int)),
            j == 0 || !is_space(t0[j as int - 1]),
        decreases j,
    {
        let c = line.get_char(a + j - 1);
        proof {
            assert(t0.take(j as int).last() == s[a + j - 1]);
        }
        if !char_is_whitespace(c) {
            break;
        }
        proof {
            assert(t0.take(j as int).drop_last() =~= t0.take(j as int - 1));
        }
        j = j - 1;
    }
    proof {
        if j == 0 {
            assert(t0.take(0) =~= Seq::<char>::empty());
        }
        assert(trimmed(s) == t0.take(j as int));
    }
    if j == 0 {
        return Some(default);
    }
    if j == 1 {
        let c = line.get_char(a);
        proof {
            assert(t0.take(1)[0] == s[a as int]);
        }
        if c == 'y' || c == 'Y' {
            return Some(true);
        }
        if c == 'n' || c == 'N' {
            return Some(false);
        }
        return None;
    }
    None
}

} // verus!
