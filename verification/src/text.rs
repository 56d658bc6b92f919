//! Character classes and the basic operations on character sequences:
//! conversion from and to strings, matching at a position, searching and
//! trimming.
//!
//! Text is handled as a sequence of Unicode scalar values, so that a position
//! is always a character boundary. Each executable function is specified by a
//! spec function over `Seq<char>`.
use vstd::prelude::*;

verus! {

/// Whether `c` has the Unicode `White_Space` property.
pub open spec fn spec_is_whitespace(c: char) -> bool {
    let u = c as u32;
    ||| 0x09 <= u <= 0x0D
    ||| u == 0x20
    ||| u == 0x85
    ||| u == 0xA0
    ||| u == 0x1680
    ||| 0x2000 <= u <= 0x200A
    ||| u == 0x2028
    ||| u == 0x2029
    ||| u == 0x202F
    ||| u == 0x205F
    ||| u == 0x3000
}

/// Whether `c` has the Unicode `White_Space` property.
#[verifier::when_used_as_spec(spec_is_whitespace)]
pub fn is_whitespace(c: char) -> (r: bool)
    ensures
        r == spec_is_whitespace(c),
{
    let u: u32 = c as u32;
    (0x09 <= u && u <= 0x0D) || u == 0x20 || u == 0x85 || u == 0xA0 || u == 0x1680 || (0x2000 <= u
        && u <= 0x200A) || u == 0x2028 || u == 0x2029 || u == 0x202F || u == 0x205F || u == 0x3000
}

/// `c` with the ASCII letters `A` to `Z` mapped to `a` to `z`; every other
/// character is left as it is.
pub open spec fn spec_ascii_lower(c: char) -> char {
    if 'A' <= c && c <= 'Z' {
        ((c as u8) + 32) as char
    } else {
        c
    }
}

/// `c` with the ASCII letters `A` to `Z` mapped to `a` to `z`.
#[verifier::when_used_as_spec(spec_ascii_lower)]
pub fn ascii_lower(c: char) -> (r: char)
    ensures
        r == spec_ascii_lower(c),
{
    if 'A' <= c && c <= 'Z' {
        ((c as u8) + 32) as char
    } else {
        c
    }
}

/// Whether `a` and `b` are the same character, up to ASCII case if `fold`.
pub open spec fn spec_same_char(a: char, b: char, fold: bool) -> bool {
    if fold {
        ascii_lower(a) == ascii_lower(b)
    } else {
        a == b
    }
}

/// Whether `a` and `b` are the same character, up to ASCII case if `fold`.
#[verifier::when_used_as_spec(spec_same_char)]
pub fn same_char(a: char, b: char, fold: bool) -> (r: bool)
    ensures
        r == spec_same_char(a, b, fold),
{
    if fold {
        ascii_lower(a) == ascii_lower(b)
    } else {
        a == b
    }
}

/// Whether `pat` occurs in `s` at position `at`, up to ASCII case if `fold`.
pub open spec fn matches_at(s: Seq<char>, at: int, pat: Seq<char>, fold: bool) -> bool {
    &&& 0 <= at
    &&& at + pat.len() <= s.len()
    &&& forall|k: int| 0 <= k < pat.len() ==> same_char(s[at + k], #[trigger] pat[k], fold)
}

/// Whether `s` begins with `pat`.
pub open spec fn starts_with(s: Seq<char>, pat: Seq<char>) -> bool {
    matches_at(s, 0, pat, false)
}

/// Whether `pat` occurs anywhere in `s`, up to ASCII case if `fold`.
pub open spec fn occurs_in(s: Seq<char>, pat: Seq<char>, fold: bool) -> bool {
    exists|at: int| matches_at(s, at, pat, fold)
}

/// The first position at or after `from` where `pat` occurs in `s`.
pub open spec fn find_from(s: Seq<char>, pat: Seq<char>, from: int) -> Option<int>
    decreases s.len() - from,
{
    if from < 0 || from + pat.len() > s.len() {
        None
    } else if matches_at(s, from, pat, false) {
        Some(from)
    } else {
        find_from(s, pat, from + 1)
    }
}

/// The first position where `pat` occurs in `s`.
pub open spec fn find(s: Seq<char>, pat: Seq<char>) -> Option<int> {
    find_from(s, pat, 0)
}

/// `s` without its trailing whitespace: the longest prefix of `s` that does
/// not end in a whitespace character.
pub open spec fn trimmed_end(s: Seq<char>) -> Seq<char>
    decreases s.len(),
{
    if s.len() > 0 && is_whitespace(s.last()) {
        trimmed_end(s.drop_last())
    } else {
        s
    }
}

/// The number of whitespace characters that `s` begins with.
pub open spec fn leading_space(s: Seq<char>) -> nat
    decreases s.len(),
{
    if s.len() > 0 && is_whitespace(s[0]) {
        1 + leading_space(s.drop_first())
    } else {
        0
    }
}

/// `s` without its leading whitespace.
pub open spec fn trimmed_start(s: Seq<char>) -> Seq<char> {
    s.skip(leading_space(s) as int)
}

/// Whether `s` holds no line feed.
pub open spec fn is_single_line(s: Seq<char>) -> bool {
    forall|i: int| 0 <= i < s.len() ==> s[i] != '\n'
}

/// A match in a suffix of `s` is a match in `s`, shifted.
pub proof fn lemma_matches_at_skip(s: Seq<char>, from: int, at: int, pat: Seq<char>, fold: bool)
    requires
        0 <= from <= s.len(),
    ensures
        matches_at(s.skip(from), at, pat, fold) <==> matches_at(s, from + at, pat, fold) && 0 <= at,
{
    let t = s.skip(from);
    if matches_at(t, at, pat, fold) {
        assert forall|k: int| 0 <= k < pat.len() implies same_char(
            s[from + at + k],
            #[trigger] pat[k],
            fold,
        ) by {
            assert(t[at + k] == s[from + at + k]);
        }
    }
    if matches_at(s, from + at, pat, fold) && 0 <= at {
        assert forall|k: int| 0 <= k < pat.len() implies same_char(
            t[at + k],
            #[trigger] pat[k],
            fold,
        ) by {
            assert(t[at + k] == s[from + at + k]);
        }
    }
}

/// What `trimmed_end` cuts off is whitespace, and what it keeps does not end
/// in whitespace.
pub proof fn lemma_trimmed_end_prefix(text: Seq<char>)
    ensures
        trimmed_end(text).len() <= text.len(),
        trimmed_end(text) == text.take(trimmed_end(text).len() as int),
        trimmed_end(text).len() > 0 ==> !is_whitespace(trimmed_end(text).last()),
        forall|i: int| trimmed_end(text).len() <= i < text.len() ==> is_whitespace(text[i]),
    decreases text.len(),
{
    if text.len() > 0 && is_whitespace(text.last()) {
        let front = text.drop_last();
        lemma_trimmed_end_prefix(front);
        let kept = trimmed_end(front);
        assert(kept == text.take(kept.len() as int));
        assert forall|i: int| kept.len() <= i < text.len() implies is_whitespace(text[i]) by {
            if i < front.len() {
                assert(text[i] == front[i]);
            }
        }
    } else {
        assert(text == text.take(text.len() as int));
    }
}

/// The leading whitespace of `s` is whitespace, and what follows it does not
/// begin with whitespace.
pub proof fn lemma_leading_space(s: Seq<char>)
    ensures
        leading_space(s) <= s.len(),
        forall|i: int| 0 <= i < leading_space(s) ==> is_whitespace(s[i]),
        leading_space(s) < s.len() ==> !is_whitespace(s[leading_space(s) as int]),
    decreases s.len(),
{
    if s.len() > 0 && is_whitespace(s[0]) {
        let rest = s.drop_first();
        lemma_leading_space(rest);
        assert forall|i: int| 0 <= i < leading_space(s) implies is_whitespace(s[i]) by {
            if i > 0 {
                assert(s[i] == rest[i - 1]);
            }
        }
    }
}

/// What `find_from` returns is the first match at or after `from`, and it
/// returns a position whenever there is one.
pub proof fn lemma_find_from_first(s: Seq<char>, pat: Seq<char>, from: int)
    requires
        0 <= from,
    ensures
        match find_from(s, pat, from) {
            Some(at) => {
                &&& from <= at
                &&& matches_at(s, at, pat, false)
                &&& forall|j: int| from <= j < at ==> !matches_at(s, j, pat, false)
            },
            None => forall|j: int| from <= j ==> !matches_at(s, j, pat, false),
        },
    decreases s.len() - from,
{
    if from + pat.len() > s.len() {
    } else if matches_at(s, from, pat, false) {
    } else {
        lemma_find_from_first(s, pat, from + 1);
    }
}

/// `find` gives the least position where the pattern occurs, and `None` only
/// if it occurs nowhere.
pub proof fn lemma_find_first(s: Seq<char>, pat: Seq<char>)
    ensures
        match find(s, pat) {
            Some(at) => {
                &&& matches_at(s, at, pat, false)
                &&& forall|j: int| j < at ==> !matches_at(s, j, pat, false)
            },
            None => !occurs_in(s, pat, false),
        },
{
    lemma_find_from_first(s, pat, 0);
}

/// The characters of `s`.
pub fn to_chars(s: &str) -> (v: Vec<char>)
    ensures
        v@ == s@,
{
    let mut v: Vec<char> = Vec::new();
    for c in it: s.chars()
        invariant
            it.seq() == s@,
            v@ == it.seq().take(it.index() as int),
    {
        v.push(c);
    }
    v
}

/// `String::push` appends one character to the string.
pub assume_specification[ String::push ](s: &mut String, c: char)
    ensures
        final(s)@ == old(s)@.push(c),
;

/// The string made of `chars`.
pub fn from_chars(chars: &[char]) -> (s: String)
    ensures
        s@ == chars@,
{
    let mut s = String::new();
    let mut i: usize = 0;
    while i < chars.len()
        invariant
            i <= chars.len(),
            s@ == chars@.take(i as int),
        decreases chars.len() - i,
    {
        s.push(chars[i]);
        i += 1;
    }
    s
}

/// Appends the characters of `s` to `out`.
pub fn push_str(out: &mut Vec<char>, s: &str)
    ensures
        final(out)@ == old(out)@ + s@,
{
    for c in it: s.chars()
        invariant
            it.seq() == s@,
            out@ == old(out)@ + it.seq().take(it.index() as int),
    {
        out.push(c);
    }
}

/// Appends `s[from..to]` to `out`.
pub(crate) fn push_range(out: &mut Vec<char>, s: &[char], from: usize, to: usize)
    requires
        from <= to <= s.len(),
    ensures
        final(out)@ == old(out)@ + s@.subrange(from as int, to as int),
{
    let mut i: usize = from;
    while i < to
        invariant
            from <= i <= to <= s.len(),
            out@ == old(out)@ + s@.subrange(from as int, i as int),
        decreases to - i,
    {
        out.push(s[i]);
        i += 1;
    }
}

/// Whether `pat` occurs in `s` at position `at`, up to ASCII case if `fold`.
pub fn is_match_at(s: &[char], at: usize, pat: &[char], fold: bool) -> (r: bool)
    ensures
        r == matches_at(s@, at as int, pat@, fold),
{
    if at > s.len() || pat.len() > s.len() - at {
        return false;
    }
    let mut k: usize = 0;
    while k < pat.len()
        invariant
            at + pat.len() <= s.len(),
            k <= pat.len(),
            forall|j: int| 0 <= j < k ==> same_char(s@[at + j], #[trigger] pat@[j], fold),
        decreases pat.len() - k,
    {
        if !same_char(s[at + k], pat[k], fold) {
            return false;
        }
        k += 1;
    }
    true
}

/// Whether the literal `pat` occurs in `s` at position `at`.
pub fn has_literal_at(s: &[char], at: usize, pat: &str) -> (r: bool)
    ensures
        r == matches_at(s@, at as int, pat@, false),
{
    if at > s.len() {
        return false;
    }
    let mut k: usize = at;
    for c in it: pat.chars()
        invariant
            it.seq() == pat@,
            at <= k <= s.len(),
            k == at + it.index(),
            forall|j: int| 0 <= j < it.index() ==> s@[at + j] == #[trigger] pat@[j],
    {
        if k >= s.len() || s[k] != c {
            return false;
        }
        k += 1;
    }
    true
}

/// Whether `s` is exactly the literal `pat`.
pub fn is_literal(s: &[char], pat: &str) -> (r: bool)
    ensures
        r == (s@ == pat@),
{
    let mut k: usize = 0;
    for c in it: pat.chars()
        invariant
            it.seq() == pat@,
            k <= s.len(),
            k == it.index(),
            forall|j: int| 0 <= j < it.index() ==> s@[j] == #[trigger] pat@[j],
    {
        if k >= s.len() || s[k] != c {
            return false;
        }
        k += 1;
    }
    proof {
        if k == s.len() {
            assert(s@ =~= pat@);
        }
    }
    k == s.len()
}

/// The first position where the literal `pat` occurs in `s`.
pub fn find_literal(s: &[char], pat: &str) -> (r: Option<usize>)
    ensures
        match r {
            Some(at) => find(s@, pat@) == Some(at as int),
            None => find(s@, pat@) is None,
        },
{
    let mut at: usize = 0;
    while at <= s.len()
        invariant
            find(s@, pat@) == find_from(s@, pat@, at as int),
        decreases s.len() + 1 - at,
    {
        if has_literal_at(s, at, pat) {
            return Some(at);
        }
        if at == s.len() {
            return None;
        }
        at += 1;
    }
    None
}

/// The length of `s` without its trailing whitespace.
pub fn trimmed_end_len(s: &[char]) -> (n: usize)
    ensures
        n <= s.len(),
        s@.take(n as int) == trimmed_end(s@),
{
    let mut n: usize = s.len();
    assert(s@.take(n as int) == s@);
    while n > 0 && is_whitespace(s[n - 1])
        invariant
            n <= s.len(),
            trimmed_end(s@.take(n as int)) == trimmed_end(s@),
        decreases n,
    {
        assert(s@.take(n as int).drop_last() == s@.take(n - 1));
        n -= 1;
    }
    n
}

/// The number of whitespace characters that `s` begins with.
pub fn leading_space_len(s: &[char]) -> (n: usize)
    ensures
        n == leading_space(s@),
        n <= s.len(),
{
    let mut n: usize = 0;
    assert(s@.skip(0) == s@);
    while n < s.len() && is_whitespace(s[n])
        invariant
            n <= s.len(),
            leading_space(s@) == n + leading_space(s@.skip(n as int)),
        decreases s.len() - n,
    {
        assert(s@.skip(n as int).drop_first() == s@.skip(n + 1));
        n += 1;
    }
    n
}

} // verus!
