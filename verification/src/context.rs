//! What a caller knows of the build whose output is normalized.
use vstd::prelude::*;
use crate::text::to_chars;

verus! {

/// The names and paths that are redacted from the output.
#[derive(Clone, Copy)]
pub struct Context<'a> {
    /// The name of the package under test.
    pub krate: &'a str,
    /// The directory that holds the source file under test.
    pub source_dir: &'a str,
    /// The root of the workspace.
    pub workspace: &'a str,
}

/// The text of a `Context`.
pub struct ContextView {
    pub krate: Seq<char>,
    pub source_dir: Seq<char>,
    pub workspace: Seq<char>,
}

impl<'a> View for Context<'a> {
    type V = ContextView;

    open spec fn view(&self) -> ContextView {
        ContextView { krate: self.krate@, source_dir: self.source_dir@, workspace: self.workspace@ }
    }
}

/// A `Context` as the patterns that the line filter searches for.
pub struct Patterns {
    krate: Vec<char>,
    source_dir: Vec<char>,
    source_dir_backslash: Vec<char>,
    workspace: Vec<char>,
}

impl View for Patterns {
    type V = ContextView;

    closed spec fn view(&self) -> ContextView {
        ContextView { krate: self.krate@, source_dir: self.source_dir@, workspace: self.workspace@ }
    }
}

impl Patterns {
    #[verifier::type_invariant]
    closed spec fn inv(&self) -> bool {
        self.source_dir_backslash@ == self.source_dir@.push('\\')
    }

    /// The patterns for `context`.
    pub fn new(context: Context) -> (patterns: Patterns)
        ensures
            patterns@ == context@,
    {
        let source_dir = to_chars(context.source_dir);
        let mut source_dir_backslash = to_chars(context.source_dir);
        source_dir_backslash.push('\\');
        Patterns {
            krate: to_chars(context.krate),
            source_dir,
            source_dir_backslash,
            workspace: to_chars(context.workspace),
        }
    }

    /// The name of the package.
    pub fn krate(&self) -> (pattern: &[char])
        ensures
            pattern@ == self@.krate,
    {
        self.krate.as_slice()
    }

    /// The source directory.
    pub fn source_dir(&self) -> (pattern: &[char])
        ensures
            pattern@ == self@.source_dir,
    {
        self.source_dir.as_slice()
    }

    /// The source directory followed by a backslash.
    pub fn source_dir_backslash(&self) -> (pattern: &[char])
        ensures
            pattern@ == self@.source_dir.push('\\'),
    {
        proof {
            use_type_invariant(self);
        }
        self.source_dir_backslash.as_slice()
    }

    /// The root of the workspace.
    pub fn workspace(&self) -> (pattern: &[char])
        ensures
            pattern@ == self@.workspace,
    {
        self.workspace.as_slice()
    }
}

} // verus!
