//! The rules that rewrite or drop one line of compiler output.
//!
//! A line that points at a location is rewritten, whatever the level. Of the
//! other lines, some are dropped, and more of them as the level rises; the
//! rest have the names and paths of the context redacted.
use vstd::prelude::*;
use vstd::slice::slice_to_vec;
use crate::context::{Context, ContextView, Patterns};
use crate::level::Normalization;
use crate::replace::{
    lemma_replaced_single_line, replace_all, replaced, slashed, to_forward_slashes,
};
use crate::text::{
    find, find_literal, from_chars, has_literal_at, is_literal, is_single_line, leading_space,
    leading_space_len, lemma_find_first, lemma_leading_space, lemma_matches_at_skip,
    lemma_trimmed_end_prefix, matches_at, push_range, push_str, starts_with, to_chars,
    trimmed_end, trimmed_end_len, trimmed_start,
};

verus! {

/// What a line that points at the primary location begins with.
pub const ARROW: &'static str = "--> ";

/// The number of characters of `ARROW`.
pub const ARROW_LEN: usize = 4;

/// What a line that points at a secondary location begins with.
pub const SECONDARY: &'static str = ":::  ";

/// The number of characters of `SECONDARY`.
pub const SECONDARY_LEN: usize = 5;

/// The summary line that closes a failed build.
pub const ABORTING: &'static str = "error: aborting due to ";

/// The hint that follows the summary line.
pub const VERBOSE_HINT: &'static str = "To learn more, run the command again with --verbose.";

/// The line that names the package that failed, as it was first worded.
pub const COULD_NOT_COMPILE: &'static str = "error: Could not compile `";

/// The line that names the package that failed, as it is worded now.
pub const COULD_NOT_COMPILE_LOWER: &'static str = "error: could not compile `";

/// The pointer to the explanation of the one error.
pub const MORE_INFORMATION: &'static str =
    "For more information about this error, try `rustc --explain";

/// The list of the errors that have an explanation.
pub const DETAILED_EXPLANATIONS: &'static str = "Some errors have detailed explanations:";

/// The pointer to the explanation of one error among several.
pub const MORE_INFORMATION_ONE: &'static str =
    "For more information about an error, try `rustc --explain";

/// What marks a path into the sources of the standard library.
pub const RUSTLIB_MARKER: &'static str = "/rustlib/src/rust/src/";

/// The number of characters of `/rustlib/src/rust`, the part of the marker
/// that belongs to the path of the toolchain.
pub const RUSTLIB_ROOT_LEN: usize = 17;

/// What stands for the source directory.
pub const DIR: &'static str = "$DIR";

/// What stands for the source directory and the separator that follows it.
pub const DIR_SLASH: &'static str = "$DIR/";

/// What stands for the root of the workspace.
pub const WORKSPACE: &'static str = "$WORKSPACE";

/// What stands for the name of the package.
pub const CRATE: &'static str = "$CRATE";

/// What stands for the path of the toolchain's sources.
pub const RUST: &'static str = "$RUST";

/// Whether `c` separates the components of a path.
pub open spec fn spec_is_separator(c: char) -> bool {
    c == '/' || c == '\\'
}

/// Whether `c` separates the components of a path.
#[verifier::when_used_as_spec(spec_is_separator)]
pub fn is_separator(c: char) -> (r: bool)
    ensures
        r == spec_is_separator(c),
{
    c == '/' || c == '\\'
}

/// The position of the last path separator in `s`.
pub open spec fn last_separator(s: Seq<char>) -> Option<int>
    decreases s.len(),
{
    if s.len() == 0 {
        None
    } else if is_separator(s.last()) {
        Some(s.len() - 1)
    } else {
        last_separator(s.drop_last())
    }
}

/// Whether `line` begins, after its leading whitespace, with `prefix`.
pub open spec fn is_marked(line: Seq<char>, prefix: Seq<char>) -> bool {
    starts_with(trimmed_start(line), prefix)
}

/// An arrow line whose last path separator is at `cut`, with `$DIR/` in place
/// of all that lies between the arrow and the file name.
pub open spec fn arrow_rewritten(line: Seq<char>, cut: int) -> Seq<char> {
    line.take((leading_space(line) + ARROW@.len()) as int) + DIR_SLASH@ + line.skip(cut + 1)
}

/// `line` with `$RUST` in place of what lies between the first secondary
/// prefix and the sources of the standard library. A line without the marker
/// or without the prefix, or with the prefix only behind the marker, is left
/// as it is.
pub open spec fn rust_collapsed(line: Seq<char>) -> Seq<char> {
    match (find(line, RUSTLIB_MARKER@), find(line, SECONDARY@)) {
        (Some(marker), Some(prefix)) => {
            let from: int = prefix + SECONDARY@.len();
            let to: int = marker + RUSTLIB_ROOT_LEN;
            if from <= to {
                line.take(from) + RUST@ + line.skip(to)
            } else {
                line
            }
        },
        _ => line,
    }
}

/// A secondary location line at `level`: the workspace root redacted, the
/// backslashes turned, and from `RustLib` on the toolchain's path collapsed.
pub open spec fn secondary_rewritten(
    line: Seq<char>,
    level: Normalization,
    context: ContextView,
) -> Seq<char> {
    let turned = slashed(replaced(line, context.workspace, WORKSPACE@, true));
    if level.includes(Normalization::RustLib) {
        rust_collapsed(turned)
    } else {
        turned
    }
}

/// Whether `level` drops `line`, given that it points at no location.
pub open spec fn is_dropped(line: Seq<char>, level: Normalization) -> bool {
    ||| starts_with(line, ABORTING@)
    ||| line == VERBOSE_HINT@
    ||| level.includes(Normalization::StripCouldNotCompile) && starts_with(line, COULD_NOT_COMPILE@)
    ||| level.includes(Normalization::StripCouldNotCompile2) && starts_with(
        line,
        COULD_NOT_COMPILE_LOWER@,
    )
    ||| level.includes(Normalization::StripForMoreInformation) && starts_with(
        line,
        MORE_INFORMATION@,
    )
    ||| level.includes(Normalization::StripForMoreInformation2) && (starts_with(
        line,
        DETAILED_EXPLANATIONS@,
    ) || starts_with(line, MORE_INFORMATION_ONE@))
}

/// `line` with the names and paths of `context` redacted as `level` asks.
pub open spec fn redacted(line: Seq<char>, level: Normalization, context: ContextView) -> Seq<
    char,
> {
    let unix = if level.includes(Normalization::DirBackslash) {
        replaced(line, context.source_dir.push('\\'), DIR_SLASH@, false)
    } else {
        line
    };
    let trimmed = if level.includes(Normalization::TrimEnd) {
        trimmed_end(unix)
    } else {
        unix
    };
    let named = replaced(trimmed, context.krate, CRATE@, false);
    let placed = replaced(named, context.source_dir, DIR@, true);
    replaced(placed, context.workspace, WORKSPACE@, true)
}

/// What becomes of `line` at `level`: `None` if it is dropped, else the line
/// that stands in its place.
pub open spec fn filtered(line: Seq<char>, level: Normalization, context: ContextView) -> Option<
    Seq<char>,
> {
    if is_marked(line, ARROW@) && last_separator(line) is Some {
        Some(arrow_rewritten(line, last_separator(line).unwrap()))
    } else if is_marked(line, SECONDARY@) {
        Some(secondary_rewritten(line, level, context))
    } else if is_dropped(line, level) {
        None
    } else {
        Some(redacted(line, level, context))
    }
}

/// The text of a line that may have been dropped.
pub open spec fn option_text(line: Option<Vec<char>>) -> Option<Seq<char>> {
    match line {
        Some(chars) => Some(chars@),
        None => None,
    }
}

/// The lengths of the prefixes are as the constants say, and the root of
/// the toolchain's path is shorter than the marker.
pub proof fn lemma_prefix_lengths()
    ensures
        ARROW@.len() == ARROW_LEN,
        SECONDARY@.len() == SECONDARY_LEN,
        RUSTLIB_ROOT_LEN < RUSTLIB_MARKER@.len(),
{
    reveal_strlit("--> ");
    reveal_strlit(":::  ");
    reveal_strlit("/rustlib/src/rust/src/");
}

/// A line that a level drops is dropped by every level after it.
pub proof fn lemma_dropped_stays_dropped(
    line: Seq<char>,
    low: Normalization,
    high: Normalization,
    context: ContextView,
)
    requires
        low.rank() <= high.rank(),
        filtered(line, low, context) is None,
    ensures
        filtered(line, high, context) is None,
{
}

/// Collapsing the toolchain's path within a single line leaves a single line.
pub proof fn lemma_rust_collapsed_single_line(line: Seq<char>)
    requires
        is_single_line(line),
    ensures
        is_single_line(rust_collapsed(line)),
{
    reveal_strlit("$RUST");
    lemma_prefix_lengths();
    lemma_find_first(line, RUSTLIB_MARKER@);
    lemma_find_first(line, SECONDARY@);
    match (find(line, RUSTLIB_MARKER@), find(line, SECONDARY@)) {
        (Some(marker), Some(prefix)) => {
            let from: int = prefix + SECONDARY@.len();
            let to: int = marker + RUSTLIB_ROOT_LEN;
            if from <= to {
                let head = line.take(from);
                let tail = line.skip(to);
                assert(is_single_line(head));
                assert(is_single_line(tail));
                assert(is_single_line(head + RUST@ + tail));
            }
        },
        _ => {},
    }
}

/// What stands in the place of a single line is a single line.
pub proof fn lemma_filtered_single_line(
    line: Seq<char>,
    level: Normalization,
    context: ContextView,
)
    requires
        is_single_line(line),
    ensures
        filtered(line, level, context) matches Some(kept) ==> is_single_line(kept),
{
    reveal_strlit("$DIR");
    reveal_strlit("$DIR/");
    reveal_strlit("$WORKSPACE");
    reveal_strlit("$CRATE");
    reveal_strlit("$RUST");
    if is_marked(line, ARROW@) && last_separator(line) is Some {
        let cut = last_separator(line).unwrap();
        let head = line.take((leading_space(line) + ARROW@.len()) as int);
        let tail = line.skip(cut + 1);
        lemma_last_separator(line);
        lemma_leading_space(line);
        lemma_prefix_lengths();
        assert(is_single_line(head));
        assert(is_single_line(tail));
        assert(is_single_line(head + DIR_SLASH@ + tail));
    } else if is_marked(line, SECONDARY@) {
        let named = replaced(line, context.workspace, WORKSPACE@, true);
        lemma_replaced_single_line(line, context.workspace, WORKSPACE@, true);
        let turned = slashed(named);
        assert(is_single_line(turned));
        lemma_rust_collapsed_single_line(turned);
    } else if !is_dropped(line, level) {
        let unix = if level.includes(Normalization::DirBackslash) {
            replaced(line, context.source_dir.push('\\'), DIR_SLASH@, false)
        } else {
            line
        };
        let trimmed = if level.includes(Normalization::TrimEnd) {
            trimmed_end(unix)
        } else {
            unix
        };
        let named = replaced(trimmed, context.krate, CRATE@, false);
        let placed = replaced(named, context.source_dir, DIR@, true);
        lemma_replaced_single_line(line, context.source_dir.push('\\'), DIR_SLASH@, false);
        lemma_trimmed_end_prefix(unix);
        lemma_replaced_single_line(trimmed, context.krate, CRATE@, false);
        lemma_replaced_single_line(named, context.source_dir, DIR@, true);
        lemma_replaced_single_line(placed, context.workspace, WORKSPACE@, true);
    }
}

/// The last separator is a separator, and none follows it.
pub proof fn lemma_last_separator(s: Seq<char>)
    ensures
        match last_separator(s) {
            Some(at) => {
                &&& 0 <= at < s.len()
                &&& is_separator(s[at])
                &&& forall|j: int| at < j < s.len() ==> !is_separator(s[j])
            },
            None => forall|j: int| 0 <= j < s.len() ==> !is_separator(s[j]),
        },
    decreases s.len(),
{
    if s.len() > 0 && !is_separator(s.last()) {
        let front = s.drop_last();
        lemma_last_separator(front);
        assert forall|j: int| 0 <= j < front.len() implies front[j] == s[j] by {}
    }
}

/// The position of the last path separator in `s`.
pub fn last_separator_in(s: &[char]) -> (r: Option<usize>)
    ensures
        match r {
            Some(at) => last_separator(s@) == Some(at as int) && at < s.len(),
            None => last_separator(s@) is None,
        },
{
    let mut n: usize = s.len();
    assert(s@.take(n as int) == s@);
    while n > 0
        invariant
            n <= s.len(),
            last_separator(s@) == last_separator(s@.take(n as int)),
        decreases n,
    {
        if is_separator(s[n - 1]) {
            return Some(n - 1);
        }
        assert(s@.take(n as int).drop_last() == s@.take(n - 1));
        n -= 1;
    }
    None
}

/// Whether `level` drops `line`, given that it points at no location.
pub fn drops(line: &[char], level: Normalization) -> (r: bool)
    ensures
        r == is_dropped(line@, level),
{
    if has_literal_at(line, 0, ABORTING) || is_literal(line, VERBOSE_HINT) {
        return true;
    }
    if level.includes(Normalization::StripCouldNotCompile) && has_literal_at(
        line,
        0,
        COULD_NOT_COMPILE,
    ) {
        return true;
    }
    if level.includes(Normalization::StripCouldNotCompile2) && has_literal_at(
        line,
        0,
        COULD_NOT_COMPILE_LOWER,
    ) {
        return true;
    }
    if level.includes(Normalization::StripForMoreInformation) && has_literal_at(
        line,
        0,
        MORE_INFORMATION,
    ) {
        return true;
    }
    level.includes(Normalization::StripForMoreInformation2) && (has_literal_at(
        line,
        0,
        DETAILED_EXPLANATIONS,
    ) || has_literal_at(line, 0, MORE_INFORMATION_ONE))
}

/// `line` with the toolchain's path collapsed to `$RUST`.
pub fn collapse_rust(line: Vec<char>) -> (out: Vec<char>)
    ensures
        out@ == rust_collapsed(line@),
{
    let marker = match find_literal(&line, RUSTLIB_MARKER) {
        Some(at) => at,
        None => { return line; },
    };
    let prefix = match find_literal(&line, SECONDARY) {
        Some(at) => at,
        None => { return line; },
    };
    proof {
        lemma_prefix_lengths();
        lemma_find_first(line@, RUSTLIB_MARKER@);
        lemma_find_first(line@, SECONDARY@);
    }
    let len = line.len();
    assert(marker + RUSTLIB_ROOT_LEN < len && prefix + SECONDARY_LEN <= len);
    let from: usize = prefix + SECONDARY_LEN;
    let to: usize = marker + RUSTLIB_ROOT_LEN;
    if from > to {
        return line;
    }
    let mut out: Vec<char> = Vec::new();
    push_range(&mut out, &line, 0, from);
    push_str(&mut out, RUST);
    push_range(&mut out, &line, to, len);
    out
}

/// `line` with the names and paths of `patterns` redacted as `level` asks.
pub fn redact(line: &[char], level: Normalization, patterns: &Patterns) -> (out: Vec<char>)
    ensures
        out@ == redacted(line@, level, patterns@),
{
    let mut out: Vec<char> = if level.includes(Normalization::DirBackslash) {
        replace_all(line, patterns.source_dir_backslash(), DIR_SLASH, false)
    } else {
        slice_to_vec(line)
    };
    if level.includes(Normalization::TrimEnd) {
        let kept = trimmed_end_len(&out);
        out.truncate(kept);
    }
    let named = replace_all(&out, patterns.krate(), CRATE, false);
    let placed = replace_all(&named, patterns.source_dir(), DIR, true);
    replace_all(&placed, patterns.workspace(), WORKSPACE, true)
}

/// What becomes of `line` at `level`: `None` if it is dropped, else the line
/// that stands in its place.
pub fn filter_chars(line: &[char], level: Normalization, patterns: &Patterns) -> (out: Option<
    Vec<char>,
>)
    ensures
        option_text(out) == filtered(line@, level, patterns@),
{
    let lead = leading_space_len(line);
    proof {
        lemma_matches_at_skip(line@, lead as int, 0, ARROW@, false);
        lemma_matches_at_skip(line@, lead as int, 0, SECONDARY@, false);
        lemma_prefix_lengths();
    }
    if has_literal_at(line, lead, ARROW) {
        if let Some(cut) = last_separator_in(line) {
            let mut out: Vec<char> = Vec::new();
            push_range(&mut out, line, 0, lead + ARROW_LEN);
            push_str(&mut out, DIR_SLASH);
            push_range(&mut out, line, cut + 1, line.len());
            return Some(out);
        }
    }
    if has_literal_at(line, lead, SECONDARY) {
        let redacted = replace_all(line, patterns.workspace(), WORKSPACE, true);
        let turned = to_forward_slashes(&redacted);
        if level.includes(Normalization::RustLib) {
            return Some(collapse_rust(turned));
        }
        return Some(turned);
    }
    if drops(line, level) {
        return None;
    }
    Some(redact(line, level, patterns))
}

/// What becomes of `line` at `normalization`: `None` if it is dropped, else
/// the line that stands in its place.
pub fn filter(line: &str, normalization: Normalization, context: Context) -> (out: Option<String>)
    ensures
        match out {
            Some(kept) => filtered(line@, normalization, context@) == Some(kept@),
            None => filtered(line@, normalization, context@) is None,
        },
{
    let patterns = Patterns::new(context);
    let chars = to_chars(line);
    match filter_chars(&chars, normalization, &patterns) {
        Some(kept) => Some(from_chars(&kept)),
        None => None,
    }
}

} // verus!
