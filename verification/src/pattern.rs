//! Compiled regular expressions, as far as the catalog and the scanner need
//! them: whether a text compiles, which capture groups it declares, and what
//! the groups hold for the first match in a line.
//!
//! Matching is the work of the `regex` crate. Nothing of it is proved here:
//! the three functions of this module state what the crate documents, over
//! names for its results.

use vstd::prelude::*;

verus! {

/// `regex::Regex`, a compiled regular expression; nothing is known of what
/// is inside.
#[verifier::external_type_specification]
#[verifier::external_body]
pub struct ExRegex(regex::Regex);

/// Whether `regex::Regex::new` accepts `text` (it is well formed and within
/// the default size limit).
pub uninterp spec fn pattern_compiles(text: Seq<char>) -> bool;

/// The capture groups that the pattern `text` declares, by group index: the
/// name of each named group, `None` for an unnamed one. Index 0 is the whole
/// match.
pub uninterp spec fn pattern_group_names(text: Seq<char>) -> Seq<Option<Seq<char>>>;

/// The first (leftmost) match of the pattern `text` in `line`: `None` where
/// the line has no match, else for each group index the text that the group
/// matched, `None` for a group that took no part in the match.
pub uninterp spec fn pattern_first_match(text: Seq<char>, line: Seq<char>) -> Option<
    Seq<Option<Seq<char>>>,
>;

/// A regular expression together with the text it was compiled from.
///
/// Only [`Pattern::compile`] makes one, so the compiled form always belongs
/// to the text; the view of a pattern is that text.
pub struct Pattern {
    text: String,
    compiled: regex::Regex,
}

impl View for Pattern {
    type V = Seq<char>;

    closed spec fn view(&self) -> Seq<char> {
        self.text@
    }
}

impl Pattern {
    /// Calls `regex::Regex::new`. Claims: the result is `Some` exactly for the
    /// texts that compile, and the pattern made then stands for `text`.
    #[verifier::external_body]
    pub(crate) fn compile(text: &str) -> (made: Option<Pattern>)
        ensures
            made is Some <==> pattern_compiles(text@),
            made is Some ==> made->0@ == text@,
    {
        regex::Regex::new(text).ok().map(|compiled| Pattern { text: text.to_string(), compiled })
    }

    /// Calls `regex::Regex::capture_names`. Claims: the result lists the
    /// groups of this pattern by index, each with its name if it has one.
    #[verifier::external_body]
    pub(crate) fn group_names(&self) -> (names: Vec<Option<String>>)
        ensures
            names.deep_view() == pattern_group_names(self@),
    {
        self.compiled.capture_names().map(|name| name.map(|n| n.to_string())).collect()
    }

    /// Calls `regex::Regex::captures`. Claims: the result is the first match
    /// in `line`, and a match holds one entry for each group of the pattern.
    #[verifier::external_body]
    pub(crate) fn first_match(&self, line: &str) -> (groups: Option<Vec<Option<String>>>)
        ensures
            groups.deep_view() == pattern_first_match(self@, line@),
            groups is Some ==> groups->0.len() == pattern_group_names(self@).len(),
    {
        self.compiled.captures(line).map(
            |found| found.iter().map(|group| group.map(|m| m.as_str().to_string())).collect(),
        )
    }

    /// The text this pattern was compiled from.
    pub fn as_str(&self) -> (text: &str)
        ensures
            text@ == self@,
    {
        self.text.as_str()
    }
}

} // verus!
