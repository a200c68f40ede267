//! Reference expressions: templates that mix literal text with references to
//! what a selector captured.

use crate::error::PatchError;
use crate::patch_structure::refex_segment::parse_reference;
use crate::patch_structure::refex_segment::render_reference;
use crate::patch_structure::refex_segment::render_segment;
use crate::patch_structure::refex_segment::Segment;
use crate::patch_structure::refex_segment::SegmentModel;
use crate::patch_structure::refex_segment::SegmentReference;
use crate::patch_structure::refex_segment::CaptureModel;
use crate::patch_structure::refex_segment::CaptureReference;
use crate::patch_structure::refex_segment::ReferenceModel;
use crate::patch_structure::regex::optional_texts;
use crate::patch_structure::regex::regex_group_texts;
use crate::patch_structure::regex::regex_named_group_texts;
use crate::text::is_canonical_decimal;
use crate::text::join_seq;
use crate::text::lemma_join_of_split;
use crate::text::lemma_parse_then_render;
use crate::text::parse_decimal;
use crate::text::push_char;
use crate::text::push_text;
use crate::text::split_on;
use crate::text::split_seq;
use crate::xml_structure::bidirectional_xml_tree::texts;
use crate::xml_structure::bidirectional_xml_tree::XmlNodeData;
use crate::xml_structure::bidirectional_xml_tree::XmlTree;
use crate::xml_structure::model::TreeModel;
use vstd::prelude::*;

verus! {

/// A parsed template: its segments, in the order in which they are written.
#[derive(Debug, Clone, PartialEq, Eq)]
pub struct ReferenceExpression {
    pub segments: Vec<Segment>,
}

impl View for ReferenceExpression {
    type V = Seq<SegmentModel>;

    open spec fn view(&self) -> Seq<SegmentModel> {
        Seq::new(self.segments@.len(), |i: int| self.segments@[i]@)
    }
}

/// Where the reader of a template stands after some of its characters.
pub struct ScanState {
    /// The segments that are complete.
    pub segments: Seq<SegmentModel>,
    /// The characters of the segment being read.
    pub buffer: Seq<char>,
    /// Whether the last character was an unconsumed backslash.
    pub escaping: bool,
    /// Whether a `[` is open.
    pub in_reference: bool,
}

/// The character that a backslash followed by `c` stands for, if any.
pub open spec fn unescape(c: char) -> Option<char> {
    if c == '[' || c == ']' || c == '\\' || c == '\'' || c == '"' {
        Some(c)
    } else if c == 'n' {
        Some('\n')
    } else if c == 'r' {
        Some('\r')
    } else if c == 't' {
        Some('\t')
    } else {
        None
    }
}

/// The complete segments of `state`, with its buffer added as literal text
/// unless the buffer is empty.
pub open spec fn flushed(state: ScanState) -> Seq<SegmentModel> {
    if state.buffer.len() > 0 {
        state.segments.push(SegmentModel::Text(state.buffer))
    } else {
        state.segments
    }
}

/// The state before any character is read.
pub open spec fn scan_start() -> ScanState {
    ScanState {
        segments: Seq::empty(),
        buffer: Seq::empty(),
        escaping: false,
        in_reference: false,
    }
}

/// The state after reading `c` in `state`.
pub open spec fn scan_step(state: ScanState, c: char) -> Result<ScanState, PatchError> {
    if state.escaping {
        match unescape(c) {
            Some(u) => Ok(ScanState { buffer: state.buffer.push(u), escaping: false, ..state }),
            None => Err(PatchError::InvalidEscape),
        }
    } else if c == '\\' {
        Ok(ScanState { escaping: true, ..state })
    } else if c == '[' {
        Ok(
            ScanState {
                segments: flushed(state),
                buffer: Seq::empty(),
                escaping: false,
                in_reference: true,
            },
        )
    } else if c == ']' {
        if !state.in_reference {
            Err(PatchError::UnmatchedClosingBracket)
        } else {
            match parse_reference(state.buffer) {
                Ok(reference) => Ok(
                    ScanState {
                        segments: state.segments.push(SegmentModel::Reference(reference)),
                        buffer: Seq::empty(),
                        escaping: false,
                        in_reference: false,
                    },
                ),
                Err(e) => Err(e),
            }
        }
    } else {
        Ok(ScanState { buffer: state.buffer.push(c), ..state })
    }
}

/// The state after reading all of `text`, or the first error on the way.
pub open spec fn scan(text: Seq<char>) -> Result<ScanState, PatchError>
    decreases text.len(),
{
    if text.len() == 0 {
        Ok(scan_start())
    } else {
        match scan(text.drop_last()) {
            Ok(state) => scan_step(state, text.last()),
            Err(e) => Err(e),
        }
    }
}

/// The segments that `text` stands for. A reference left open at the end is
/// an error; a backslash at the very end is dropped.
pub open spec fn parse_expression(text: Seq<char>) -> Result<Seq<SegmentModel>, PatchError> {
    match scan(text) {
        Ok(state) => if state.in_reference {
            Err(PatchError::UnterminatedReference)
        } else {
            Ok(flushed(state))
        },
        Err(e) => Err(e),
    }
}

/// The text of a list of segments: the texts of the segments, one after the
/// other.
pub open spec fn render_expression(segments: Seq<SegmentModel>) -> Seq<char>
    decreases segments.len(),
{
    if segments.len() == 0 {
        Seq::empty()
    } else {
        render_expression(segments.drop_last()) + render_segment(segments.last())
    }
}

impl ReferenceExpression {
    /// Reads a template. `[` opens a reference and `]` closes it; a backslash
    /// escapes the next character.
    pub fn parse(string: &str) -> (r: Result<ReferenceExpression, PatchError>)
        ensures
            match parse_expression(string@) {
                Ok(model) => r matches Ok(expression) && expression@ == model,
                Err(e) => r == Err::<ReferenceExpression, PatchError>(e),
            },
    {
        let mut segments: Vec<Segment> = Vec::new();
        let mut buf = String::new();
        let mut escaping = false;
        let mut is_reference = false;
        let ghost mut state = scan_start();
        for c in it: string.chars()
            invariant
                it.seq() == string@,
                scan(string@.take(it.index() as int)) == Ok::<ScanState, PatchError>(state),
                state.segments =~= Seq::new(segments@.len(), |i: int| segments@[i]@),
                state.buffer == buf@,
                state.escaping == escaping,
                state.in_reference == is_reference,
        {
            proof {
                let next = string@.take(it.index() as int + 1);
                assert(next.drop_last() =~= string@.take(it.index() as int));
                assert(next.last() == c);
                lemma_scan_error_is_final(string@, it.index() as int + 1);
            }
            if escaping {
                let unescaped = if c == '[' || c == ']' || c == '\\' || c == '\'' || c == '"' {
                    c
                } else if c == 'n' {
                    '\n'
                } else if c == 'r' {
                    '\r'
                } else if c == 't' {
                    '\t'
                } else {
                    return Err(PatchError::InvalidEscape);
                };
                push_char(&mut buf, unescaped);
                escaping = false;
            } else if c == '\\' {
                escaping = true;
            } else if c == '[' {
                if !buf.as_str().is_empty() {
                    segments.push(Segment::String(buf));
                    buf = String::new();
                }
                is_reference = true;
            } else if c == ']' {
                if !is_reference {
                    return Err(PatchError::UnmatchedClosingBracket);
                }
                match SegmentReference::from(buf.as_str()) {
                    Ok(reference) => {
                        segments.push(Segment::Reference(reference));
                    },
                    Err(e) => {
                        return Err(e);
                    },
                }
                buf = String::new();
                is_reference = false;
            } else {
                push_char(&mut buf, c);
            }
            proof {
                state = scan_step(state, c)->Ok_0;
            }
        }
        proof {
            assert(string@.take(string@.len() as int) =~= string@);
        }
        if is_reference {
            return Err(PatchError::UnterminatedReference);
        }
        if !buf.as_str().is_empty() {
            segments.push(Segment::String(buf));
        }
        let expression = ReferenceExpression { segments };
        assert(expression@ =~= flushed(state));
        Ok(expression)
    }

    /// Reads a template.
    pub fn from(string: &str) -> (r: Result<ReferenceExpression, PatchError>)
        ensures
            match parse_expression(string@) {
                Ok(model) => r matches Ok(expression) && expression@ == model,
                Err(e) => r == Err::<ReferenceExpression, PatchError>(e),
            },
    {
        ReferenceExpression::parse(string)
    }

    /// Writes the template back as text. Nothing is escaped.
    pub fn to_string(&self) -> (s: String)
        ensures
            s@ == render_expression(self@),
    {
        let mut s = String::new();
        let mut i: usize = 0;
        while i < self.segments.len()
            invariant
                i <= self.segments.len(),
                s@ == render_expression(self@.take(i as int)),
            decreases self.segments.len() - i,
        {
            let piece = self.segments[i].to_string();
            proof {
                let next = self@.take(i + 1);
                assert(next.drop_last() =~= self@.take(i as int));
                assert(next.last() == self.segments@[i as int]@);
            }
            push_text(&mut s, piece.as_str());
            i += 1;
        }
        proof {
            assert(self@.take(self@.len() as int) =~= self@);
        }
        s
    }
}

/// Once reading has failed on a prefix of a text, it fails in the same way on
/// the whole text.
pub proof fn lemma_scan_error_is_final(text: Seq<char>, n: int)
    requires
        0 <= n <= text.len(),
    ensures
        scan(text.take(n)) matches Err(e) ==> scan(text) == Err::<ScanState, PatchError>(e),
    decreases text.len() - n,
{
    if n < text.len() {
        if scan(text.take(n)) is Err {
            assert(text.take(n + 1).drop_last() =~= text.take(n));
            lemma_scan_error_is_final(text, n + 1);
        }
    } else {
        assert(text.take(n) =~= text);
    }
}

/// Whether the text between the brackets of a reference is written in the
/// form in which it is rendered: a group index, where there is one, has
/// neither sign nor leading zero.
pub open spec fn reference_is_plain(text: Seq<char>) -> bool {
    let parts = split_seq(text, ':');
    parts.len() == 2 ==> (parse_decimal(parts[1]) matches Some(n) ==> n <= usize::MAX
        ==> is_canonical_decimal(parts[1]))
}

/// Whether reading `c` in `state` keeps what was written: `c` is no
/// backslash, opens no reference inside a reference, and closes only a
/// reference that is plain.
pub open spec fn step_is_plain(state: ScanState, c: char) -> bool {
    &&& c != '\\'
    &&& !(c == '[' && state.in_reference)
    &&& (c == ']' && state.in_reference ==> reference_is_plain(state.buffer))
}

/// Whether `text` is written without escapes, without a `[` inside a
/// reference, and with every group index in its shortest form.
pub open spec fn is_plain(text: Seq<char>) -> bool
    decreases text.len(),
{
    if text.len() == 0 {
        true
    } else {
        &&& is_plain(text.drop_last())
        &&& (scan(text.drop_last()) matches Ok(state) ==> step_is_plain(state, text.last()))
    }
}

/// What has been read so far, written back: the complete segments, the open
/// bracket if there is one, and the buffer.
pub open spec fn pending_text(state: ScanState) -> Seq<char> {
    render_expression(state.segments) + (if state.in_reference {
        seq!['[']
    } else {
        Seq::<char>::empty()
    }) + state.buffer
}

/// A plain reference renders as it was written.
pub proof fn lemma_reference_round_trip(text: Seq<char>)
    requires
        parse_reference(text) is Ok,
        reference_is_plain(text),
    ensures
        render_reference(parse_reference(text)->Ok_0) == text,
{
    let parts = split_seq(text, ':');
    lemma_join_of_split(text, ':');
    if parts.len() == 1 {
        assert(render_reference(parse_reference(text)->Ok_0) =~= parts[0]);
    } else {
        assert(parts.drop_last().len() == 1);
        assert(parts.drop_last()[0] == parts[0]);
        assert(join_seq(parts, ':') == join_seq(parts.drop_last(), ':') + seq![':']
            + parts.last());
        assert(text =~= parts[0] + seq![':'] + parts[1]);
        match parse_decimal(parts[1]) {
            Some(n) => {
                if n <= usize::MAX {
                    lemma_parse_then_render(parts[1]);
                    assert(parts[1][0] != '+');
                    assert(render_reference(parse_reference(text)->Ok_0) =~= parts[0] + (seq![':']
                        + parts[1]));
                } else {
                    assert(render_reference(parse_reference(text)->Ok_0) =~= parts[0] + (seq![':']
                        + parts[1]));
                }
            },
            None => {
                assert(render_reference(parse_reference(text)->Ok_0) =~= parts[0] + (seq![':']
                    + parts[1]));
            },
        }
    }
}

/// While a plain text is being read, what has been read can be written back
/// from the reader's state.
pub proof fn lemma_scan_keeps_text(text: Seq<char>)
    requires
        is_plain(text),
        scan(text) is Ok,
    ensures
        !scan(text)->Ok_0.escaping,
        pending_text(scan(text)->Ok_0) == text,
    decreases text.len(),
{
    if text.len() == 0 {
        assert(pending_text(scan_start()) =~= text);
    } else {
        let init = text.drop_last();
        let c = text.last();
        lemma_scan_keeps_text(init);
        let before = scan(init)->Ok_0;
        let after = scan(text)->Ok_0;
        assert(init.push(c) =~= text);
        if c == '[' {
            if before.buffer.len() > 0 {
                assert(flushed(before).drop_last() =~= before.segments);
            }
            assert(pending_text(after) =~= pending_text(before).push(c));
        } else if c == ']' {
            lemma_reference_round_trip(before.buffer);
            let reference = parse_reference(before.buffer)->Ok_0;
            assert(after.segments.drop_last() =~= before.segments);
            assert(after.segments.last() == SegmentModel::Reference(reference));
            assert(render_segment(after.segments.last()) == seq!['['] + before.buffer + seq![']']);
            assert(pending_text(after) =~= pending_text(before).push(c));
        } else {
            assert(pending_text(after) =~= pending_text(before).push(c));
        }
    }
}

/// Reading a template and writing it back gives the text that was read,
/// provided that the text is plain: it holds no escape and no `[` inside a
/// reference, and its group indices are in their shortest form.
pub proof fn lemma_render_of_parse(text: Seq<char>)
    requires
        parse_expression(text) is Ok,
        is_plain(text),
    ensures
        render_expression(parse_expression(text)->Ok_0) == text,
{
    lemma_scan_keeps_text(text);
    let state = scan(text)->Ok_0;
    if state.buffer.len() > 0 {
        assert(flushed(state).drop_last() =~= state.segments);
    }
    assert(render_expression(flushed(state)) =~= pending_text(state));
}

/// The texts one after the other; an error where one of them is missing.
pub open spec fn concat_texts(texts: Seq<Option<Seq<char>>>) -> Result<Seq<char>, PatchError>
    decreases texts.len(),
{
    if texts.len() == 0 {
        Ok(Seq::empty())
    } else {
        match concat_texts(texts.drop_last()) {
            Ok(before) => match texts.last() {
                Some(text) => Ok(before + text),
                None => Err(PatchError::MissingCaptureGroup),
            },
            Err(e) => Err(e),
        }
    }
}

/// `text`, `count` times over.
pub open spec fn repeat_text(text: Seq<char>, count: nat) -> Seq<char>
    decreases count,
{
    if count == 0 {
        Seq::empty()
    } else {
        repeat_text(text, (count - 1) as nat) + text
    }
}

/// What a capture stands for when the selector `regex` is matching an element
/// called `name`: for every match of the selector in the name, the text of
/// the chosen group, or the name itself where the whole expression is meant.
pub open spec fn capture_text(regex: Seq<char>, name: Seq<char>, capture: CaptureModel) -> Result<
    Seq<char>,
    PatchError,
> {
    match capture {
        CaptureModel::Number(n) => concat_texts(regex_group_texts(regex, name, n)),
        CaptureModel::Name(group) => concat_texts(regex_named_group_texts(regex, name, group)),
        CaptureModel::WholeExpression => Ok(
            repeat_text(name, regex_group_texts(regex, name, 0).len()),
        ),
    }
}

/// What a reference stands for at `node`: its path is walked from `node`
/// without making anything, and the capture is taken from the selector that
/// is matching the element found there.
pub open spec fn eval_reference(tree: TreeModel, node: usize, reference: ReferenceModel) -> Result<
    Seq<char>,
    PatchError,
> {
    match tree.resolve_path(node, split_seq(reference.path, '/'), false) {
        Ok((_, target)) => match (tree.regex(target), tree.name(target)) {
            (Some(regex), Some(name)) => capture_text(regex, name, reference.capture),
            _ => Err(PatchError::NoAppliedRegex),
        },
        Err((_, e)) => Err(e),
    }
}

/// What a segment stands for at `node`.
pub open spec fn eval_segment(tree: TreeModel, node: usize, segment: SegmentModel) -> Result<
    Seq<char>,
    PatchError,
> {
    match segment {
        SegmentModel::Text(text) => Ok(text),
        SegmentModel::Reference(reference) => eval_reference(tree, node, reference),
    }
}

/// The text that a template stands for at `node`: what its segments stand
/// for, one after the other, or the error of the first segment that fails.
pub open spec fn eval_expression(tree: TreeModel, node: usize, segments: Seq<SegmentModel>)
    -> Result<Seq<char>, PatchError>
    decreases segments.len(),
{
    if segments.len() == 0 {
        Ok(Seq::empty())
    } else {
        match eval_expression(tree, node, segments.drop_last()) {
            Ok(before) => match eval_segment(tree, node, segments.last()) {
                Ok(text) => Ok(before + text),
                Err(e) => Err(e),
            },
            Err(e) => Err(e),
        }
    }
}

/// Once a template has failed on some of its segments, it fails in the same
/// way on all of them.
pub proof fn lemma_eval_error_is_final(
    tree: TreeModel,
    node: usize,
    segments: Seq<SegmentModel>,
    n: int,
)
    requires
        0 <= n <= segments.len(),
    ensures
        eval_expression(tree, node, segments.take(n)) matches Err(e) ==> eval_expression(
            tree,
            node,
            segments,
        ) == Err::<Seq<char>, PatchError>(e),
    decreases segments.len() - n,
{
    if n < segments.len() {
        if eval_expression(tree, node, segments.take(n)) is Err {
            assert(segments.take(n + 1).drop_last() =~= segments.take(n));
            lemma_eval_error_is_final(tree, node, segments, n + 1);
        }
    } else {
        assert(segments.take(n) =~= segments);
    }
}

/// Once joining has failed on some of the texts, it fails on all of them.
pub proof fn lemma_concat_error_is_final(texts: Seq<Option<Seq<char>>>, n: int)
    requires
        0 <= n <= texts.len(),
    ensures
        concat_texts(texts.take(n)) is Err ==> concat_texts(texts) == Err::<Seq<char>, PatchError>(
            PatchError::MissingCaptureGroup,
        ),
        concat_texts(texts.take(n)) matches Err(e) ==> e == PatchError::MissingCaptureGroup,
    decreases texts.len() - n,
{
    lemma_concat_error_kind(texts.take(n));
    if n < texts.len() {
        if concat_texts(texts.take(n)) is Err {
            assert(texts.take(n + 1).drop_last() =~= texts.take(n));
            lemma_concat_error_is_final(texts, n + 1);
        }
    } else {
        assert(texts.take(n) =~= texts);
    }
}

/// Joining fails in one way only.
pub proof fn lemma_concat_error_kind(texts: Seq<Option<Seq<char>>>)
    ensures
        concat_texts(texts) matches Err(e) ==> e == PatchError::MissingCaptureGroup,
    decreases texts.len(),
{
    if texts.len() > 0 {
        lemma_concat_error_kind(texts.drop_last());
    }
}

/// Joins the texts of the groups of all matches.
fn concat_group_texts(groups: &Vec<Option<String>>) -> (r: Result<String, PatchError>)
    ensures
        match concat_texts(optional_texts(groups@)) {
            Ok(text) => r matches Ok(s) && s@ == text,
            Err(e) => r == Err::<String, PatchError>(e),
        },
{
    let mut result = String::new();
    let mut i: usize = 0;
    let ghost all = optional_texts(groups@);
    while i < groups.len()
        invariant
            i <= groups.len(),
            all == optional_texts(groups@),
            concat_texts(all.take(i as int)) == Ok::<Seq<char>, PatchError>(result@),
        decreases groups.len() - i,
    {
        proof {
            assert(all.take(i + 1).drop_last() =~= all.take(i as int));
            assert(all.take(i + 1).last() == all[i as int]);
            lemma_concat_error_is_final(all, i + 1);
        }
        match &groups[i] {
            Some(text) => {
                push_text(&mut result, text.as_str());
            },
            None => {
                return Err(PatchError::MissingCaptureGroup);
            },
        }
        i += 1;
    }
    proof {
        assert(all.take(all.len() as int) =~= all);
    }
    Ok(result)
}

impl SegmentReference {
    /// What the reference stands for at `current`.
    pub fn evaluate(&self, tree: &XmlTree, current: usize) -> (r: Result<String, PatchError>)
        requires
            tree.wf(),
            current < tree.nodes.len(),
        ensures
            match eval_reference(tree@, current, self@) {
                Ok(text) => r matches Ok(s) && s@ == text,
                Err(e) => r == Err::<String, PatchError>(e),
            },
    {
        let path = split_on(self.path.as_str(), '/');
        assert(texts(path@) =~= split_seq(self.path@, '/'));
        let target = match tree.lookup_path(current, &path) {
            Ok(target) => target,
            Err(e) => {
                return Err(e);
            },
        };
        let element = match &tree.nodes[target].data {
            XmlNodeData::Element(e) => e,
            _ => {
                return Err(PatchError::NoAppliedRegex);
            },
        };
        let regex = match &element.applied_regexp {
            Some(regex) => regex,
            None => {
                return Err(PatchError::NoAppliedRegex);
            },
        };
        match &self.capture {
            CaptureReference::Number(n) => {
                let groups = regex.group_texts(element.name.as_str(), *n);
                concat_group_texts(&groups)
            },
            CaptureReference::Name(group) => {
                let groups = regex.named_group_texts(element.name.as_str(), group.as_str());
                concat_group_texts(&groups)
            },
            CaptureReference::WholeExpression => {
                let groups = regex.group_texts(element.name.as_str(), 0);
                let ghost count = optional_texts(groups@).len();
                let mut result = String::new();
                let mut i: usize = 0;
                while i < groups.len()
                    invariant
                        i <= groups.len(),
                        result@ == repeat_text(element.name@, i as nat),
                    decreases groups.len() - i,
                {
                    push_text(&mut result, element.name.as_str());
                    i += 1;
                }
                Ok(result)
            },
        }
    }
}

impl ReferenceExpression {
    /// The text that the template stands for at the node `current`.
    pub fn evaluate(&self, tree: &XmlTree, current: usize) -> (r: Result<String, PatchError>)
        requires
            tree.wf(),
            current < tree.nodes.len(),
        ensures
            match eval_expression(tree@, current, self@) {
                Ok(text) => r matches Ok(s) && s@ == text,
                Err(e) => r == Err::<String, PatchError>(e),
            },
    {
        let mut result = String::new();
        let mut i: usize = 0;
        while i < self.segments.len()
            invariant
                i <= self.segments.len(),
                tree.wf(),
                current < tree.nodes.len(),
                eval_expression(tree@, current, self@.take(i as int)) == Ok::<
                    Seq<char>,
                    PatchError,
                >(result@),
            decreases self.segments.len() - i,
        {
            proof {
                assert(self@.take(i + 1).drop_last() =~= self@.take(i as int));
                assert(self@.take(i + 1).last() == self.segments@[i as int]@);
                lemma_eval_error_is_final(tree@, current, self@, i + 1);
            }
            match &self.segments[i] {
                Segment::String(text) => {
                    push_text(&mut result, text.as_str());
                },
                Segment::Reference(reference) => {
                    match reference.evaluate(tree, current) {
                        Ok(text) => {
                            push_text(&mut result, text.as_str());
                        },
                        Err(e) => {
                            return Err(e);
                        },
                    }
                },
            }
            i += 1;
        }
        proof {
            assert(self@.take(self@.len() as int) =~= self@);
        }
        Ok(result)
    }
}

} // verus!
