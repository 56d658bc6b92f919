//! Replacement of every occurrence of a pattern, literally or ignoring ASCII
//! case.
//!
//! Only the comparison ignores case: what lies between the occurrences is
//! copied as it stands.
use vstd::prelude::*;
use crate::text::{
    from_chars, is_match_at, is_single_line, lemma_matches_at_skip, matches_at, occurs_in,
    push_str, to_chars,
};

verus! {

/// `s` with every occurrence of `pat` replaced by `to`, the occurrences taken
/// from the left and not overlapping. With `fold`, an occurrence may differ
/// from `pat` in ASCII case.
///
/// The empty pattern occurs before every character and at the end.
pub open spec fn replaced(s: Seq<char>, pat: Seq<char>, to: Seq<char>, fold: bool) -> Seq<char>
    decreases s.len(),
{
    if s.len() == 0 {
        if pat.len() == 0 {
            to
        } else {
            s
        }
    } else if pat.len() == 0 {
        to + seq![s[0]] + replaced(s.drop_first(), pat, to, fold)
    } else if matches_at(s, 0, pat, fold) {
        to + replaced(s.skip(pat.len() as int), pat, to, fold)
    } else {
        seq![s[0]] + replaced(s.drop_first(), pat, to, fold)
    }
}

/// `s` with every backslash turned into a forward slash.
pub open spec fn slashed(s: Seq<char>) -> Seq<char> {
    Seq::new(
        s.len(),
        |i: int|
            if s[i] == '\\' {
                '/'
            } else {
                s[i]
            },
    )
}

/// Replacing a pattern that occurs nowhere leaves the text unchanged.
pub proof fn lemma_replaced_absent(s: Seq<char>, pat: Seq<char>, to: Seq<char>, fold: bool)
    requires
        !occurs_in(s, pat, fold),
    ensures
        replaced(s, pat, to, fold) == s,
    decreases s.len(),
{
    assert(pat.len() > 0) by {
        if pat.len() == 0 {
            assert(matches_at(s, 0, pat, fold));
        }
    }
    if s.len() > 0 {
        assert(!matches_at(s, 0, pat, fold));
        let rest = s.drop_first();
        assert forall|at: int| !matches_at(rest, at, pat, fold) by {
            lemma_matches_at_skip(s, 1, at, pat, fold);
        }
        lemma_replaced_absent(rest, pat, to, fold);
        assert(seq![s[0]] + rest == s);
    }
}

/// Replacing within a single line by text without a line feed leaves a single
/// line.
pub proof fn lemma_replaced_single_line(s: Seq<char>, pat: Seq<char>, to: Seq<char>, fold: bool)
    requires
        is_single_line(s),
        is_single_line(to),
    ensures
        is_single_line(replaced(s, pat, to, fold)),
    decreases s.len(),
{
    if s.len() == 0 {
    } else if pat.len() > 0 && matches_at(s, 0, pat, fold) {
        lemma_replaced_single_line(s.skip(pat.len() as int), pat, to, fold);
    } else {
        lemma_replaced_single_line(s.drop_first(), pat, to, fold);
    }
}

/// `s` with every occurrence of `pat` replaced by the literal `to`.
pub fn replace_all(s: &[char], pat: &[char], to: &str, fold: bool) -> (out: Vec<char>)
    ensures
        out@ == replaced(s@, pat@, to@, fold),
{
    let mut out: Vec<char> = Vec::new();
    let mut i: usize = 0;
    assert(s@.skip(0) == s@);
    while i < s.len()
        invariant
            i <= s.len(),
            out@ + replaced(s@.skip(i as int), pat@, to@, fold) == replaced(s@, pat@, to@, fold),
        decreases s.len() - i,
    {
        let ghost rest = s@.skip(i as int);
        let ghost before = out@;
        if pat.len() == 0 {
            push_str(&mut out, to);
            out.push(s[i]);
            proof {
                assert(rest.drop_first() == s@.skip(i + 1));
                assert(out@ == before + (to@ + seq![rest[0]]));
            }
            i += 1;
        } else if is_match_at(s, i, pat, fold) {
            push_str(&mut out, to);
            proof {
                lemma_matches_at_skip(s@, i as int, 0, pat@, fold);
                assert(rest.skip(pat@.len() as int) == s@.skip(i + pat@.len()));
            }
            i += pat.len();
        } else {
            out.push(s[i]);
            proof {
                lemma_matches_at_skip(s@, i as int, 0, pat@, fold);
                assert(rest.drop_first() == s@.skip(i + 1));
                assert(out@ == before + seq![rest[0]]);
            }
            i += 1;
        }
    }
    if pat.len() == 0 {
        push_str(&mut out, to);
    }
    out
}

/// `text` with every occurrence of `from`, whatever its ASCII case, replaced
/// by `to`.
pub fn replace_case_insensitive(text: &str, from: &str, to: &str) -> (out: String)
    ensures
        out@ == replaced(text@, from@, to@, true),
{
    from_chars(&replace_all(&to_chars(text), &to_chars(from), to, true))
}

/// `s` with every backslash turned into a forward slash.
pub fn to_forward_slashes(s: &[char]) -> (out: Vec<char>)
    ensures
        out@ == slashed(s@),
{
    let mut out: Vec<char> = Vec::new();
    let mut i: usize = 0;
    while i < s.len()
        invariant
            i <= s.len(),
            out@ == slashed(s@).take(i as int),
        decreases s.len() - i,
    {
        out.push(
            if s[i] == '\\' {
                '/'
            } else {
                s[i]
            },
        );
        i += 1;
    }
    out
}

} // verus!
