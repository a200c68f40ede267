//! Anchored regular expressions, compared by their source text.

use crate::error::PatchError;
use crate::text::push_char;
use crate::text::push_text;
use vstd::prelude::*;

verus! {

/// Whether `pattern` is accepted by the regular-expression engine.
pub uninterp spec fn regex_compiles(pattern: Seq<char>) -> bool;

/// Whether `pattern` finds a match somewhere in `text`.
pub uninterp spec fn regex_matches(pattern: Seq<char>, text: Seq<char>) -> bool;

/// For each successive match of `pattern` in `text`, the text of the capture
/// group with the given index, or `None` where that group took no part.
pub uninterp spec fn regex_group_texts(pattern: Seq<char>, text: Seq<char>, group: nat) -> Seq<
    Option<Seq<char>>,
>;

/// For each successive match of `pattern` in `text`, the text of the capture
/// group with the given name, or `None` where there is no such group or it
/// took no part.
pub uninterp spec fn regex_named_group_texts(
    pattern: Seq<char>,
    text: Seq<char>,
    name: Seq<char>,
) -> Seq<Option<Seq<char>>>;

/// The views of a list of optional strings.
pub open spec fn optional_texts(v: Seq<Option<String>>) -> Seq<Option<Seq<char>>> {
    Seq::new(
        v.len(),
        |i: int|
            match v[i] {
                Some(s) => Some(s@),
                None => None,
            },
    )
}

/// Trusted: `regex::Regex::new` returns `Ok` exactly for the patterns that the
/// engine accepts; the contract only gives that answer a name.
#[verifier::external_body]
fn engine_compiles(pattern: &str) -> (r: bool)
    ensures
        r == regex_compiles(pattern@),
{
    regex::Regex::new(pattern).is_ok()
}

/// Trusted: `regex::Regex::is_match` on the compiled pattern; the answer
/// depends on pattern and text alone and is given a name.
#[verifier::external_body]
fn engine_is_match(pattern: &str, text: &str) -> (r: bool)
    requires
        regex_compiles(pattern@),
    ensures
        r == regex_matches(pattern@, text@),
{
    regex::Regex::new(pattern).unwrap().is_match(text)
}

/// Trusted: walks `regex::Regex::captures_iter` and takes from each match
/// `Captures::get(group)`; the texts depend on pattern, text and index alone
/// and are given a name.
#[verifier::external_body]
fn engine_group_texts(pattern: &str, text: &str, group: usize) -> (r: Vec<Option<String>>)
    requires
        regex_compiles(pattern@),
    ensures
        optional_texts(r@) == regex_group_texts(pattern@, text@, group as nat),
{
    let compiled = regex::Regex::new(pattern).unwrap();
    compiled.captures_iter(text).map(|c| c.get(group).map(|m| m.as_str().to_string())).collect()
}

/// Trusted: walks `regex::Regex::captures_iter` and takes from each match
/// `Captures::name(name)`; the texts depend on pattern, text and group name
/// alone and are given a name.
#[verifier::external_body]
fn engine_named_group_texts(pattern: &str, text: &str, name: &str) -> (r: Vec<Option<String>>)
    requires
        regex_compiles(pattern@),
    ensures
        optional_texts(r@) == regex_named_group_texts(pattern@, text@, name@),
{
    let compiled = regex::Regex::new(pattern).unwrap();
    compiled.captures_iter(text).map(|c| c.name(name).map(|m| m.as_str().to_string())).collect()
}

/// The pattern `^inner$`.
pub open spec fn anchored(inner: Seq<char>) -> Seq<char> {
    seq!['^'] + inner + seq!['$']
}

/// A regular expression that the engine accepts. Its view is the source text,
/// by which two values are compared. A selector is anchored at both ends, so
/// that it must match a whole name.
#[derive(Debug)]
pub struct Regex {
    source: String,
}

impl View for Regex {
    type V = Seq<char>;

    closed spec fn view(&self) -> Seq<char> {
        self.source@
    }
}

impl Regex {
    #[verifier::type_invariant]
    spec fn compiled(self) -> bool {
        regex_compiles(self.source@)
    }

    /// Anchors `regex_string` at both ends and checks it with the engine.
    pub fn from(regex_string: &str) -> (r: Result<Regex, PatchError>)
        ensures
            regex_compiles(anchored(regex_string@)) ==> r is Ok,
            r matches Ok(regex) ==> regex@ == anchored(regex_string@) && regex_compiles(regex@),
            r matches Err(e) ==> e == PatchError::InvalidPattern && !regex_compiles(
                anchored(regex_string@),
            ),
    {
        let mut source = String::new();
        push_char(&mut source, '^');
        push_text(&mut source, regex_string);
        push_char(&mut source, '$');
        assert(source@ =~= anchored(regex_string@));
        if engine_compiles(source.as_str()) {
            Ok(Regex { source })
        } else {
            Err(PatchError::InvalidPattern)
        }
    }

    /// Checks `pattern` with the engine and takes it as it is, without
    /// anchors.
    pub fn unanchored(pattern: &str) -> (r: Result<Regex, PatchError>)
        ensures
            regex_compiles(pattern@) ==> r is Ok,
            r matches Ok(regex) ==> regex@ == pattern@ && regex_compiles(regex@),
            r matches Err(e) ==> e == PatchError::InvalidPattern && !regex_compiles(pattern@),
    {
        let mut source = String::new();
        push_text(&mut source, pattern);
        assert(source@ =~= pattern@);
        if engine_compiles(source.as_str()) {
            Ok(Regex { source })
        } else {
            Err(PatchError::InvalidPattern)
        }
    }

    /// The source text.
    pub fn as_str(&self) -> (s: &str)
        ensures
            s@ == self@,
    {
        self.source.as_str()
    }

    /// The source text, owned.
    pub fn into_string(self) -> (s: String)
        ensures
            s@ == self@,
    {
        self.source
    }

    /// Whether the expression matches `text`.
    pub fn is_match(&self, text: &str) -> (r: bool)
        ensures
            r == regex_matches(self@, text@),
    {
        proof {
            use_type_invariant(self);
        }
        engine_is_match(self.source.as_str(), text)
    }

    /// For each match in `text`, the text of the group with index `group`.
    pub fn group_texts(&self, text: &str, group: usize) -> (r: Vec<Option<String>>)
        ensures
            optional_texts(r@) == regex_group_texts(self@, text@, group as nat),
    {
        proof {
            use_type_invariant(self);
        }
        engine_group_texts(self.source.as_str(), text, group)
    }

    /// For each match in `text`, the text of the group called `name`.
    pub fn named_group_texts(&self, text: &str, name: &str) -> (r: Vec<Option<String>>)
        ensures
            optional_texts(r@) == regex_named_group_texts(self@, text@, name@),
    {
        proof {
            use_type_invariant(self);
        }
        engine_named_group_texts(self.source.as_str(), text, name)
    }
}

impl Clone for Regex {
    fn clone(&self) -> (r: Self)
        ensures
            r@ == self@,
    {
        proof {
            use_type_invariant(self);
        }
        Regex { source: self.source.clone() }
    }
}

impl PartialEq for Regex {
    fn eq(&self, other: &Self) -> (r: bool) {
        self.source == other.source
    }
}

impl Eq for Regex {}

impl vstd::std_specs::cmp::PartialEqSpecImpl for Regex {
    open spec fn obeys_eq_spec() -> bool {
        true
    }

    open spec fn eq_spec(&self, other: &Self) -> bool {
        self@ == other@
    }
}

} // verus!
