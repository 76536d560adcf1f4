//! Regular expressions, as the `regex` crate matches them.
//!
//! Nothing here is proved of the matching itself. What a search returns is a
//! function of the pattern and the text alone, and each such result has a
//! name below; the rest of the library is proved over those names.

use vstd::prelude::*;
use regex::Regex;

verus! {

/// The `regex` crate's compiled expression. Nothing is known of what is
/// inside one; it is kept in a [`Pattern`] and handed back to the crate.
#[verifier::external_type_specification]
#[verifier::external_body]
pub struct ExRegex(regex::Regex);

/// Whether `Regex::new` accepts `pattern`: whether it is a regular expression
/// in the crate's syntax, and small enough for the crate to compile.
pub uninterp spec fn compiles(pattern: Seq<char>) -> bool;

/// The leftmost match of `pattern` in `text`, as `Regex::find` reports it:
/// the text before the match, the match, and the text after it. `None`
/// where `pattern` matches nowhere in `text`.
pub uninterp spec fn found(pattern: Seq<char>, text: Seq<char>) -> Option<
    (Seq<char>, Seq<char>, Seq<char>),
>;

/// The capture groups of the leftmost match of `pattern` in `text`, as
/// `Regex::captures` reports them: group 0, the whole match, first; a group
/// that took no part in the match is `None`. `None` where `pattern` matches
/// nowhere in `text`.
pub uninterp spec fn capture_groups(pattern: Seq<char>, text: Seq<char>) -> Option<
    Seq<Option<Seq<char>>>,
>;

/// `text` with every match of `pattern` replaced by `with`, as
/// `Regex::replace_all` returns it.
pub uninterp spec fn replaced(pattern: Seq<char>, text: Seq<char>, with: Seq<char>) -> Seq<char>;

/// A compiled regular expression. Its view is the pattern it was compiled
/// from: a `Pattern` is made by `Pattern::compile` and nowhere else, which
/// keeps the two together.
pub struct Pattern {
    re: Regex,
    source: String,
}

impl View for Pattern {
    type V = Seq<char>;

    closed spec fn view(&self) -> Seq<char> {
        self.source@
    }
}

impl Pattern {
    /// `Regex::new`, which compiles `source` with the crate's default
    /// options. Whether a pattern compiles is up to the crate; a pattern that
    /// does is kept beside what was compiled from it.
    #[verifier::external_body]
    pub(crate) fn compile(source: &str) -> (p: Option<Pattern>)
        ensures
            p is Some <==> compiles(source@),
            p matches Some(pattern) ==> pattern@ == source@,
    {
        match Regex::new(source) {
            Ok(re) => Some(Pattern { re, source: source.to_owned() }),
            Err(_) => None,
        }
    }

    /// `Regex::is_match`: whether the pattern matches anywhere in `text`,
    /// which is to say whether `Regex::find` finds a match.
    #[verifier::external_body]
    pub(crate) fn is_match(&self, text: &str) -> (b: bool)
        ensures
            b == (found(self@, text@) is Some),
    {
        self.re.is_match(text)
    }

    /// `Regex::find`: the leftmost match in `text`, handed out as the three
    /// parts into which it cuts `text`.
    #[verifier::external_body]
    pub(crate) fn find(&self, text: &str) -> (m: Option<(String, String, String)>)
        ensures
            m.deep_view() == found(self@, text@),
            m matches Some(parts) ==> text@ == parts.0@ + parts.1@ + parts.2@,
    {
        match self.re.find(text) {
            Some(m) => Some(
                (text[..m.start()].to_owned(), m.as_str().to_owned(), text[m.end()..].to_owned()),
            ),
            None => None,
        }
    }

    /// `Regex::captures`: the capture groups of the leftmost match in
    /// `text`, each handed out as the text it matched.
    #[verifier::external_body]
    pub(crate) fn captures(&self, text: &str) -> (groups: Option<Vec<Option<String>>>)
        ensures
            groups.deep_view() == capture_groups(self@, text@),
    {
        let caps = self.re.captures(text)?;
        let mut groups = Vec::new();
        for group in caps.iter() {
            groups.push(group.map(|m| m.as_str().to_owned()));
        }
        Some(groups)
    }

    /// `Regex::replace_all`: `text` with every match replaced by `with`.
    #[verifier::external_body]
    pub(crate) fn replace_all(&self, text: &str, with: &str) -> (out: String)
        ensures
            out@ == replaced(self@, text@, with@),
    {
        self.re.replace_all(text, with).into_owned()
    }
}

} // verus!
