//! The ways in which reading or applying a patch can fail.

use vstd::prelude::*;

verus! {

/// Every failure is fatal: it is handed up to the caller unchanged, and the
/// document being patched is to be discarded.
#[derive(Clone, Copy, Debug, PartialEq, Eq, Structural)]
pub enum PatchError {
    /// The XML text is not a well-formed document.
    MalformedXml,
    /// The patch text is not well-formed YAML.
    MalformedYaml,
    /// The document could not be written as text.
    UnwritableXml,
    /// A selector or filter is not a valid regular expression.
    InvalidPattern,
    /// A backslash in a reference expression is followed by a character that
    /// cannot be escaped.
    InvalidEscape,
    /// A `]` in a reference expression closes no reference.
    UnmatchedClosingBracket,
    /// A `[` in a reference expression is never closed.
    UnterminatedReference,
    /// A reference holds more than one `:`.
    MalformedReference,
    /// A YAML value has a shape that the patch language does not give a meaning.
    UnexpectedShape,
    /// A reserved key occurs twice in one mapping.
    DuplicateKey,
    /// A sequence of queries or of values holds something that is not a mapping.
    SimpleValueInSequence,
    /// A path climbs with `..` above the top of the tree.
    PathAboveRoot,
    /// A path names a child that does not exist, where none may be created.
    PathNotFound,
    /// A path names a child, and several children carry that name.
    AmbiguousPath,
    /// The root element was asked to move or to be copied elsewhere.
    MoveOfRoot,
    /// A reference points at a node that no selector is currently matching.
    NoAppliedRegex,
    /// A reference asks for a capture group that took no part in the match.
    MissingCaptureGroup,
    /// An operation that only elements support was asked of another node.
    NotAnElement,
    /// A path that may only climb steps into a named child.
    UnsupportedPathSegment,
}

impl PatchError {
    /// Whether the error arose while the patch was read, and not while the
    /// document was read, patched or written.
    pub open spec fn concerns_patch(self) -> bool {
        match self {
            PatchError::MalformedYaml => true,
            PatchError::InvalidPattern => true,
            PatchError::InvalidEscape => true,
            PatchError::UnmatchedClosingBracket => true,
            PatchError::UnterminatedReference => true,
            PatchError::MalformedReference => true,
            PatchError::UnexpectedShape => true,
            PatchError::DuplicateKey => true,
            PatchError::SimpleValueInSequence => true,
            _ => false,
        }
    }

    /// What the error says about itself.
    pub open spec fn description(self) -> Seq<char> {
        match self {
            PatchError::MalformedXml => "The XML input is not a well-formed document"@,
            PatchError::MalformedYaml => "The patch is not well-formed YAML"@,
            PatchError::UnwritableXml => "Error while generating XML result"@,
            PatchError::InvalidPattern => "A selector is not a valid regular expression"@,
            PatchError::InvalidEscape => "Escaped unescapable character"@,
            PatchError::UnmatchedClosingBracket => "Closing bracket without preceding opening bracket."@,
            PatchError::UnterminatedReference => "Opening bracket without closing bracket."@,
            PatchError::MalformedReference => "A reference must have a path and optionally a capture-reference. Not more."@,
            PatchError::UnexpectedShape => "A value of the patch has a shape that has no meaning where it stands"@,
            PatchError::DuplicateKey => "A reserved key occurs twice in one mapping"@,
            PatchError::SimpleValueInSequence => "A sequence may only hold mappings"@,
            PatchError::PathAboveRoot => "Path reaches end of XML tree!"@,
            PatchError::PathNotFound => "Path not found!"@,
            PatchError::AmbiguousPath => "More than one XML node is matching the path!"@,
            PatchError::MoveOfRoot => "Root node is not allowed to be moved..."@,
            PatchError::NoAppliedRegex => "Could not evaluate regular expression"@,
            PatchError::MissingCaptureGroup => "A referenced capture group took no part in the match"@,
            PatchError::NotAnElement => "Children can only be added to elements"@,
            PatchError::UnsupportedPathSegment => "Error: Individual path segments are not supported"@,
        }
    }

    /// The message of the error: its description, with a note in front where
    /// the error arose while the patch was read.
    pub open spec fn message_text(self) -> Seq<char> {
        if self.concerns_patch() {
            "Error while reading patch: "@ + self.description()
        } else {
            self.description()
        }
    }

    /// What the error says about itself.
    pub fn describe(&self) -> (s: &'static str)
        ensures
            s@ == self.description(),
    {
        match self {
            PatchError::MalformedXml => "The XML input is not a well-formed document",
            PatchError::MalformedYaml => "The patch is not well-formed YAML",
            PatchError::UnwritableXml => "Error while generating XML result",
            PatchError::InvalidPattern => "A selector is not a valid regular expression",
            PatchError::InvalidEscape => "Escaped unescapable character",
            PatchError::UnmatchedClosingBracket => "Closing bracket without preceding opening bracket.",
            PatchError::UnterminatedReference => "Opening bracket without closing bracket.",
            PatchError::MalformedReference => "A reference must have a path and optionally a capture-reference. Not more.",
            PatchError::UnexpectedShape => "A value of the patch has a shape that has no meaning where it stands",
            PatchError::DuplicateKey => "A reserved key occurs twice in one mapping",
            PatchError::SimpleValueInSequence => "A sequence may only hold mappings",
            PatchError::PathAboveRoot => "Path reaches end of XML tree!",
            PatchError::PathNotFound => "Path not found!",
            PatchError::AmbiguousPath => "More than one XML node is matching the path!",
            PatchError::MoveOfRoot => "Root node is not allowed to be moved...",
            PatchError::NoAppliedRegex => "Could not evaluate regular expression",
            PatchError::MissingCaptureGroup => "A referenced capture group took no part in the match",
            PatchError::NotAnElement => "Children can only be added to elements",
            PatchError::UnsupportedPathSegment => "Error: Individual path segments are not supported",
        }
    }

    /// The message of the error.
    pub fn message(&self) -> (s: String)
        ensures
            s@ == self.message_text(),
    {
        let mut s = String::new();
        let from_patch = match self {
            PatchError::MalformedYaml => true,
            PatchError::InvalidPattern => true,
            PatchError::InvalidEscape => true,
            PatchError::UnmatchedClosingBracket => true,
            PatchError::UnterminatedReference => true,
            PatchError::MalformedReference => true,
            PatchError::UnexpectedShape => true,
            PatchError::DuplicateKey => true,
            PatchError::SimpleValueInSequence => true,
            _ => false,
        };
        if from_patch {
            crate::text::push_text(&mut s, "Error while reading patch: ");
        }
        crate::text::push_text(&mut s, self.describe());
        assert(s@ =~= self.message_text());
        s
    }
}

} // verus!
