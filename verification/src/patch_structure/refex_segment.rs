//! The pieces of a reference expression: literal text, and references to the
//! capture groups of a selector that matched further up in the tree.

use crate::error::PatchError;
use crate::text::chars_of;
use crate::text::lemma_split_nonempty;
use crate::text::parse_decimal;
use crate::text::parse_usize;
use crate::text::push_char;
use crate::text::push_text;
use crate::text::render_decimal;
use crate::text::split_on;
use crate::text::split_seq;
use crate::text::u64_to_string;
use vstd::prelude::*;

verus! {

/// Which part of a selector's match a reference stands for.
#[derive(Debug, Clone, PartialEq, Eq)]
pub enum CaptureReference {
    /// The capture group with this index; index 0 is the whole match.
    Number(usize),
    /// The capture group with this name.
    Name(String),
    /// The whole name of the matched element.
    WholeExpression,
}

/// A reference: where the matched element lies, and which capture is meant.
#[derive(Debug, Clone, PartialEq, Eq)]
pub struct SegmentReference {
    /// `/`-separated steps from the current node: `.`, `..` or a child's name.
    pub path: String,
    pub capture: CaptureReference,
}

/// One piece of a reference expression.
#[derive(Debug, Clone, PartialEq, Eq)]
pub enum Segment {
    /// Literal text.
    String(String),
    /// A reference, written between `[` and `]`.
    Reference(SegmentReference),
}

/// What a `CaptureReference` stands for.
pub enum CaptureModel {
    Number(nat),
    Name(Seq<char>),
    WholeExpression,
}

/// What a `SegmentReference` stands for.
pub struct ReferenceModel {
    pub path: Seq<char>,
    pub capture: CaptureModel,
}

/// What a `Segment` stands for.
pub enum SegmentModel {
    Text(Seq<char>),
    Reference(ReferenceModel),
}

impl View for CaptureReference {
    type V = CaptureModel;

    open spec fn view(&self) -> CaptureModel {
        match self {
            CaptureReference::Number(n) => CaptureModel::Number(*n as nat),
            CaptureReference::Name(s) => CaptureModel::Name(s@),
            CaptureReference::WholeExpression => CaptureModel::WholeExpression,
        }
    }
}

impl View for SegmentReference {
    type V = ReferenceModel;

    open spec fn view(&self) -> ReferenceModel {
        ReferenceModel { path: self.path@, capture: self.capture@ }
    }
}

impl View for Segment {
    type V = SegmentModel;

    open spec fn view(&self) -> SegmentModel {
        match self {
            Segment::String(s) => SegmentModel::Text(s@),
            Segment::Reference(r) => SegmentModel::Reference(r@),
        }
    }
}

/// The capture that the text after the `:` of a reference stands for: a group
/// index where the text is a decimal numeral that a `usize` can hold, a group
/// name otherwise.
pub open spec fn capture_of(text: Seq<char>) -> CaptureModel {
    match parse_decimal(text) {
        Some(n) => if n <= usize::MAX {
            CaptureModel::Number(n)
        } else {
            CaptureModel::Name(text)
        },
        None => CaptureModel::Name(text),
    }
}

/// The reference that the text between `[` and `]` stands for: a path, or a
/// path and a capture with a `:` between them.
pub open spec fn parse_reference(text: Seq<char>) -> Result<ReferenceModel, PatchError> {
    let parts = split_seq(text, ':');
    if parts.len() == 1 {
        Ok(ReferenceModel { path: parts[0], capture: CaptureModel::WholeExpression })
    } else if parts.len() == 2 {
        Ok(ReferenceModel { path: parts[0], capture: capture_of(parts[1]) })
    } else {
        Err(PatchError::MalformedReference)
    }
}

/// The text of a capture, as it is written after the `:`.
pub open spec fn render_capture(capture: CaptureModel) -> Seq<char> {
    match capture {
        CaptureModel::Number(n) => seq![':'] + render_decimal(n),
        CaptureModel::Name(s) => seq![':'] + s,
        CaptureModel::WholeExpression => Seq::<char>::empty(),
    }
}

/// The text of a reference, without the brackets around it.
pub open spec fn render_reference(reference: ReferenceModel) -> Seq<char> {
    reference.path + render_capture(reference.capture)
}

/// The text of a segment: literal text as it is, a reference in brackets.
pub open spec fn render_segment(segment: SegmentModel) -> Seq<char> {
    match segment {
        SegmentModel::Text(s) => s,
        SegmentModel::Reference(r) => seq!['['] + render_reference(r) + seq![']'],
    }
}

impl SegmentReference {
    /// Reads the text between the brackets of a reference.
    pub fn from(segment_reference_string: &str) -> (r: Result<SegmentReference, PatchError>)
        ensures
            match parse_reference(segment_reference_string@) {
                Ok(model) => r matches Ok(reference) && reference@ == model,
                Err(e) => r == Err::<SegmentReference, PatchError>(e),
            },
    {
        let mut parts = split_on(segment_reference_string, ':');
        proof {
            lemma_split_nonempty(segment_reference_string@, ':');
        }
        if parts.len() == 1 {
            let path = parts.pop().unwrap();
            Ok(SegmentReference { path, capture: CaptureReference::WholeExpression })
        } else if parts.len() == 2 {
            let capture_text = parts.pop().unwrap();
            let path = parts.pop().unwrap();
            let capture_chars = chars_of(capture_text.as_str());
            let capture = match parse_usize(&capture_chars) {
                Some(index) => CaptureReference::Number(index),
                None => CaptureReference::Name(capture_text),
            };
            Ok(SegmentReference { path, capture })
        } else {
            Err(PatchError::MalformedReference)
        }
    }

    /// The text of the reference, without the brackets around it.
    pub fn to_string(&self) -> (s: String)
        ensures
            s@ == render_reference(self@),
    {
        let mut s = self.path.clone();
        match &self.capture {
            CaptureReference::Number(n) => {
                push_char(&mut s, ':');
                let digits = u64_to_string(*n as u64);
                push_text(&mut s, digits.as_str());
            },
            CaptureReference::Name(n) => {
                push_char(&mut s, ':');
                push_text(&mut s, n.as_str());
            },
            CaptureReference::WholeExpression => {},
        }
        assert(s@ =~= render_reference(self@));
        s
    }
}

impl Segment {
    /// The text of the segment: literal text as it is, a reference in
    /// brackets.
    pub fn to_string(&self) -> (s: String)
        ensures
            s@ == render_segment(self@),
    {
        match self {
            Segment::String(segment) => segment.clone(),
            Segment::Reference(reference) => {
                let mut s = String::new();
                push_char(&mut s, '[');
                let inner = reference.to_string();
                push_text(&mut s, inner.as_str());
                push_char(&mut s, ']');
                assert(s@ =~= render_segment(self@));
                s
            },
        }
    }
}

} // verus!
