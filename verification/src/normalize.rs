//! Normalization of compiler output into the forms under which it may have
//! been saved.
//!
//! The output is decoded, its lines are filtered at each level in turn, and
//! the results are kept in the order of the levels. Saved text matches if it
//! equals any of them; the last one is what is shown when nothing matches.
use vstd::prelude::*;
use vstd::slice::slice_subrange;
use vstd::utf8::{
    decode_utf8, encode_utf8, encode_utf8_decode_utf8, encode_utf8_valid_utf8, valid_utf8,
};
use crate::context::{Context, ContextView, Patterns};
use crate::filter::{filter_chars, filtered, lemma_filtered_single_line};
use crate::level::{Normalization, LEVELS};
use crate::lines::{lemma_lines_hold_no_line_feed, lines_of, next_line};
use crate::replace::{replace_all, replaced};
use crate::text::{
    from_chars, is_single_line, is_whitespace, lemma_trimmed_end_prefix, to_chars, trimmed_end,
    trimmed_end_len,
};

verus! {

/// The line ending that is turned into a line feed before anything else.
pub const CRLF: &'static str = "\r\n";

/// The line ending of normalized text.
pub const LF: &'static str = "\n";

/// The text that `String::from_utf8_lossy` makes of bytes that are not valid
/// UTF-8, with U+FFFD in place of what cannot be decoded.
pub uninterp spec fn lossy_text(bytes: Seq<u8>) -> Seq<char>;

/// The text that `bytes` hold: their decoding where they are valid UTF-8,
/// and the lossy text otherwise.
pub open spec fn decoded(bytes: Seq<u8>) -> Seq<char> {
    if valid_utf8(bytes) {
        decode_utf8(bytes)
    } else {
        lossy_text(bytes)
    }
}

/// `text` without its trailing whitespace, and with one line feed after it
/// unless nothing is left.
pub open spec fn trimmed(text: Seq<char>) -> Seq<char> {
    let kept = trimmed_end(text);
    if kept.len() == 0 {
        kept
    } else {
        kept.push('\n')
    }
}

/// Whether `text` holds nothing but whitespace.
pub open spec fn is_blank(text: Seq<char>) -> bool {
    forall|i: int| 0 <= i < text.len() ==> is_whitespace(#[trigger] text[i])
}

/// Whether the last line of `text` is empty: `text` ends with a line feed
/// that stands first in it or follows another line feed.
pub open spec fn ends_with_empty_line(text: Seq<char>) -> bool {
    &&& text.len() >= 1
    &&& text.last() == '\n'
    &&& text.len() == 1 || text[text.len() - 2] == '\n'
}

/// Whether three line feeds stand in `text` from position `at` on.
pub open spec fn three_line_feeds_at(text: Seq<char>, at: int) -> bool {
    &&& 0 <= at
    &&& at + 2 < text.len()
    &&& text[at] == '\n'
    &&& text[at + 1] == '\n'
    &&& text[at + 2] == '\n'
}

/// Whether three line feeds stand in a row somewhere in `text`.
pub open spec fn has_three_line_feeds(text: Seq<char>) -> bool {
    exists|at: int| three_line_feeds_at(text, at)
}

/// Whether `text` begins with two line feeds.
pub open spec fn starts_with_two_line_feeds(text: Seq<char>) -> bool {
    text.len() >= 2 && text[0] == '\n' && text[1] == '\n'
}

/// Whether two empty lines stand in a row somewhere in `text`: three line
/// feeds in a row, or two at the start.
pub open spec fn has_two_empty_lines_in_a_row(text: Seq<char>) -> bool {
    has_three_line_feeds(text) || starts_with_two_line_feeds(text)
}

/// `acc` with `line` and its line ending after it. The line ending is left
/// out where the last line is empty already, so that an empty line after an
/// empty line adds nothing.
pub open spec fn joined(acc: Seq<char>, line: Seq<char>) -> Seq<char> {
    let text = acc + line;
    if ends_with_empty_line(text) {
        text
    } else {
        text.push('\n')
    }
}

/// `acc` followed by what `level` keeps of `lines`.
pub open spec fn assembled(
    acc: Seq<char>,
    lines: Seq<Seq<char>>,
    level: Normalization,
    context: ContextView,
) -> Seq<char>
    decreases lines.len(),
{
    if lines.len() == 0 {
        acc
    } else {
        let next = match filtered(lines[0], level, context) {
            Some(kept) => joined(acc, kept),
            None => acc,
        };
        assembled(next, lines.drop_first(), level, context)
    }
}

/// `text` normalized at `level`.
pub open spec fn applied(text: Seq<char>, level: Normalization, context: ContextView) -> Seq<
    char,
> {
    trimmed(assembled(Seq::empty(), lines_of(text), level, context))
}

/// The normalization of `text` at each level, in ascending order.
pub open spec fn variations_of(text: Seq<char>, context: ContextView) -> Seq<Seq<char>> {
    let unix = replaced(text, CRLF@, LF@, false);
    Seq::new(LEVELS as nat, |rank: int| applied(unix, Normalization::at(rank), context))
}

/// Trimmed text is empty if the text was blank. Otherwise it ends with a
/// single line feed, and the character before that is no whitespace.
pub proof fn lemma_trimmed_ends_with_one_line_feed(text: Seq<char>)
    ensures
        is_blank(text) <==> trimmed(text).len() == 0,
        !is_blank(text) ==> {
            let out = trimmed(text);
            &&& out.len() >= 2
            &&& out.last() == '\n'
            &&& !is_whitespace(out[out.len() - 2])
            &&& out.drop_last() == trimmed_end(text)
        },
{
    lemma_trimmed_end_prefix(text);
    let kept = trimmed_end(text);
    if kept.len() > 0 {
        assert(text[kept.len() - 1] == kept.last());
        assert(kept.push('\n').drop_last() == kept);
    }
}

/// Trimming twice gives what trimming once gives.
pub proof fn lemma_trimmed_idempotent(text: Seq<char>)
    ensures
        trimmed(trimmed(text)) == trimmed(text),
{
    lemma_trimmed_end_prefix(text);
    let kept = trimmed_end(text);
    if kept.len() > 0 {
        let once = kept.push('\n');
        assert(once.drop_last() == kept);
        assert(trimmed_end(once) == trimmed_end(kept));
        assert(trimmed_end(kept) == kept);
    }
}

/// Trimming the bytes of trimmed output gives that output again.
pub proof fn lemma_trim_idempotent(bytes: Seq<u8>)
    ensures
        trimmed(decoded(encode_utf8(trimmed(decoded(bytes))))) == trimmed(decoded(bytes)),
{
    let once = trimmed(decoded(bytes));
    encode_utf8_valid_utf8(once);
    encode_utf8_decode_utf8(once);
    lemma_trimmed_idempotent(decoded(bytes));
}

/// Whether `text` holds no two empty lines in a row and ends, unless it is
/// empty, with a line feed.
pub open spec fn is_well_spaced(text: Seq<char>) -> bool {
    &&& !has_two_empty_lines_in_a_row(text)
    &&& text.len() > 0 ==> text.last() == '\n'
}

/// Joining a single line to well spaced text leaves it well spaced.
pub proof fn lemma_joined_well_spaced(acc: Seq<char>, line: Seq<char>)
    requires
        is_well_spaced(acc),
        is_single_line(line),
    ensures
        is_well_spaced(joined(acc, line)),
{
    let text = acc + line;
    let out = joined(acc, line);
    if has_three_line_feeds(out) {
        let i = choose|i: int| three_line_feeds_at(out, i);
        assert(three_line_feeds_at(out, i));
        if i + 2 < acc.len() {
            assert(three_line_feeds_at(acc, i));
        } else if line.len() > 0 {
            let k = if i >= acc.len() {
                i
            } else if i + 1 >= acc.len() {
                i + 1
            } else {
                i + 2
            };
            if k < text.len() {
                assert(out[k] == line[k - acc.len()]);
            } else {
                assert(out[k - 1] == line[k - 1 - acc.len()]);
            }
        } else {
            assert(text == acc);
        }
    }
    if starts_with_two_line_feeds(out) {
        if acc.len() >= 2 {
            assert(starts_with_two_line_feeds(acc));
        } else if line.len() > 0 {
            assert(out[acc.len() as int] == line[0]);
        } else {
            assert(text == acc);
        }
    }
}

/// What is assembled after well spaced text from single lines is well
/// spaced.
pub proof fn lemma_assembled_well_spaced(
    acc: Seq<char>,
    lines: Seq<Seq<char>>,
    level: Normalization,
    context: ContextView,
)
    requires
        is_well_spaced(acc),
        forall|k: int| 0 <= k < lines.len() ==> is_single_line(#[trigger] lines[k]),
    ensures
        is_well_spaced(assembled(acc, lines, level, context)),
    decreases lines.len(),
{
    if lines.len() > 0 {
        let next = match filtered(lines[0], level, context) {
            Some(kept) => joined(acc, kept),
            None => acc,
        };
        lemma_filtered_single_line(lines[0], level, context);
        if let Some(kept) = filtered(lines[0], level, context) {
            lemma_joined_well_spaced(acc, kept);
        }
        let rest = lines.drop_first();
        assert forall|k: int| 0 <= k < rest.len() implies is_single_line(#[trigger] rest[k]) by {
            assert(rest[k] == lines[k + 1]);
        }
        lemma_assembled_well_spaced(next, rest, level, context);
    }
}

/// Normalized text never holds two empty lines in a row: neither three line
/// feeds in a row, nor two at the start. An empty line is kept, a second one
/// after it is not.
pub proof fn lemma_applied_never_two_empty_lines(
    text: Seq<char>,
    level: Normalization,
    context: ContextView,
)
    ensures
        !has_three_line_feeds(applied(text, level, context)),
        !starts_with_two_line_feeds(applied(text, level, context)),
        !has_two_empty_lines_in_a_row(applied(text, level, context)),
{
    let lines = lines_of(text);
    assert forall|k: int| 0 <= k < lines.len() implies is_single_line(#[trigger] lines[k]) by {
        lemma_lines_hold_no_line_feed(text, k);
    }
    let whole = assembled(Seq::empty(), lines, level, context);
    lemma_assembled_well_spaced(Seq::empty(), lines, level, context);
    lemma_trimmed_end_prefix(whole);
    let kept = trimmed_end(whole);
    let out = applied(text, level, context);
    if has_three_line_feeds(out) {
        let i = choose|i: int| three_line_feeds_at(out, i);
        assert(three_line_feeds_at(out, i));
        if i + 2 < kept.len() {
            assert(three_line_feeds_at(whole, i));
        } else {
            assert(out[kept.len() - 1] == kept.last());
        }
    }
    if starts_with_two_line_feeds(out) {
        if kept.len() >= 2 {
            assert(starts_with_two_line_feeds(whole));
        } else {
            assert(out[0] == kept.last());
        }
    }
}

/// `String::from_utf8_lossy` decodes `bytes`. Valid UTF-8 comes back as the
/// text that it encodes; of other bytes the result is only named.
#[verifier::external_body]
fn decode(bytes: &[u8]) -> (text: String)
    ensures
        valid_utf8(bytes@) ==> text@ == decode_utf8(bytes@),
        !valid_utf8(bytes@) ==> text@ == lossy_text(bytes@),
{
    String::from_utf8_lossy(bytes).into_owned()
}

/// `chars` without its trailing whitespace, and with one line feed after it
/// unless nothing is left.
fn trim_chars(chars: Vec<char>) -> (out: Vec<char>)
    ensures
        out@ == trimmed(chars@),
{
    let mut out = chars;
    let kept = trimmed_end_len(&out);
    out.truncate(kept);
    if kept > 0 {
        out.push('\n');
    }
    out
}

/// `text` without its trailing whitespace, and with one line feed after it
/// unless nothing is left.
pub fn trim_text(text: &str) -> (out: String)
    ensures
        out@ == trimmed(text@),
        is_blank(text@) <==> out@.len() == 0,
        !is_blank(text@) ==> out@.len() >= 2 && out@.last() == '\n' && !is_whitespace(
            out@[out@.len() - 2],
        ),
{
    proof {
        lemma_trimmed_ends_with_one_line_feed(text@);
    }
    from_chars(&trim_chars(to_chars(text)))
}

/// The text of `output` without its trailing whitespace, and with one line
/// feed after it unless nothing is left.
pub fn trim(output: &[u8]) -> (out: String)
    ensures
        out@ == trimmed(decoded(output@)),
        is_blank(decoded(output@)) <==> out@.len() == 0,
        !is_blank(decoded(output@)) ==> out@.len() >= 2 && out@.last() == '\n' && !is_whitespace(
            out@[out@.len() - 2],
        ),
{
    let text = decode(output);
    trim_text(text.as_str())
}

/// `text` normalized at `level`.
pub fn apply_chars(text: &[char], level: Normalization, patterns: &Patterns) -> (out: Vec<char>)
    ensures
        out@ == applied(text@, level, patterns@),
{
    let mut acc: Vec<char> = Vec::new();
    let mut pos: usize = 0;
    assert(text@.skip(0) == text@);
    while pos < text.len()
        invariant
            pos <= text.len(),
            assembled(acc@, lines_of(text@.skip(pos as int)), level, patterns@) == assembled(
                Seq::empty(),
                lines_of(text@),
                level,
                patterns@,
            ),
        decreases text.len() - pos,
    {
        let (stop, next) = next_line(text, pos);
        let ghost line = text@.subrange(pos as int, stop as int);
        let ghost rest = lines_of(text@.skip(next as int));
        assert((seq![line] + rest).drop_first() == rest);
        match filter_chars(slice_subrange(text, pos, stop), level, patterns) {
            Some(mut kept) => {
                acc.append(&mut kept);
                let len = acc.len();
                let last_is_empty = len >= 1 && acc[len - 1] == '\n' && (len == 1 || acc[len - 2]
                    == '\n');
                if !last_is_empty {
                    acc.push('\n');
                }
            },
            None => {},
        }
        pos = next;
    }
    trim_chars(acc)
}

/// `text` normalized at `normalization`.
pub fn apply(text: &str, normalization: Normalization, context: Context) -> (out: String)
    ensures
        out@ == applied(text@, normalization, context@),
{
    let patterns = Patterns::new(context);
    let chars = to_chars(text);
    from_chars(&apply_chars(&chars, normalization, &patterns))
}

/// The forms under which output may have been saved, one for each level in
/// ascending order.
pub struct Variations {
    variations: Vec<String>,
}

impl View for Variations {
    type V = Seq<Seq<char>>;

    closed spec fn view(&self) -> Seq<Seq<char>> {
        Seq::new(self.variations@.len(), |i: int| self.variations@[i]@)
    }
}

/// Whether `f` may give `answer` when asked about `text`.
pub open spec fn answers<F: FnMut(&str) -> bool>(f: F, text: Seq<char>, answer: bool) -> bool {
    exists|s: &str| s@ == text && call_ensures(f, (s,), answer)
}

/// Whether `f` accepts `texts[at]` after it has refused all that stand before
/// it.
pub open spec fn accepts_first<F: FnMut(&str) -> bool>(
    f: F,
    texts: Seq<Seq<char>>,
    at: int,
) -> bool {
    &&& 0 <= at < texts.len()
    &&& answers(f, texts[at], true)
    &&& forall|j: int| 0 <= j < at ==> #[trigger] answers(f, texts[j], false)
}

impl Variations {
    #[verifier::type_invariant]
    closed spec fn inv(&self) -> bool {
        self.variations@.len() == LEVELS
    }

    /// The variations of `text`.
    pub fn from_text(text: &str, context: Context) -> (out: Variations)
        ensures
            out@ == variations_of(text@, context@),
    {
        let patterns = Patterns::new(context);
        let unix = replace_all(&to_chars(text), &to_chars(CRLF), LF, false);
        let mut variations: Vec<String> = Vec::new();
        let mut rank: usize = 0;
        while rank < LEVELS
            invariant
                rank <= LEVELS,
                patterns@ == context@,
                unix@ == replaced(text@, CRLF@, LF@, false),
                variations@.len() == rank,
                forall|i: int|
                    0 <= i < rank ==> (#[trigger] variations@[i])@ == applied(
                        unix@,
                        Normalization::at(i),
                        context@,
                    ),
            decreases LEVELS - rank,
        {
            if let Some(level) = Normalization::from_rank(rank) {
                variations.push(from_chars(&apply_chars(&unix, level, &patterns)));
            }
            rank += 1;
        }
        let out = Variations { variations };
        assert(out@ =~= variations_of(text@, context@));
        out
    }

    /// The variation of the last level, which is the one to show.
    pub fn preferred(&self) -> (out: &str)
        ensures
            self@.len() == LEVELS,
            out@ == self@.last(),
    {
        proof {
            use_type_invariant(self);
        }
        self.variations[LEVELS - 1].as_str()
    }

    /// Whether `f` accepts any of the variations. They are tried in ascending
    /// order, and none after the first one that `f` accepts.
    pub fn any<F: FnMut(&str) -> bool>(&self, f: F) -> (found: bool)
        requires
            forall|s: &str| self@.contains(s@) ==> call_requires(f, (s,)),
        ensures
            found ==> exists|at: int| accepts_first(f, self@, at),
            !found ==> forall|i: int|
                0 <= i < self@.len() ==> #[trigger] answers(f, self@[i], false),
    {
        let mut ask = f;
        let mut i: usize = 0;
        while i < self.variations.len()
            invariant
                ask == f,
                i <= self.variations.len(),
                self@.len() == self.variations.len(),
                forall|k: int|
                    0 <= k < self@.len() ==> self@[k] == (#[trigger] self.variations@[k])@,
                forall|s: &str| self@.contains(s@) ==> call_requires(f, (s,)),
                forall|j: int| 0 <= j < i ==> #[trigger] answers(f, self@[j], false),
            decreases self.variations.len() - i,
        {
            let text = self.variations[i].as_str();
            assert(self@[i as int] == text@);
            let accepted = ask(text);
            assert(answers(f, self@[i as int], accepted));
            if accepted {
                assert(accepts_first(f, self@, i as int));
                return true;
            }
            i += 1;
        }
        false
    }
}

/// The forms under which `output` may have been saved: its text, with every
/// line ending a line feed, normalized at each level in ascending order.
pub fn diagnostics(output: Vec<u8>, context: Context) -> (out: Variations)
    ensures
        out@ == variations_of(decoded(output@), context@),
{
    let text = decode(output.as_slice());
    Variations::from_text(text.as_str(), context)
}

} // verus!
