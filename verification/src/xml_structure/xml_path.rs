//! Paths as lists of the elements that were entered.

use crate::error::PatchError;
use crate::patch_structure::regex::Regex;
use crate::text::chars_of;
use crate::text::split_on;
use crate::text::split_seq;
use crate::xml_structure::bidirectional_xml_tree::texts;
use vstd::prelude::*;

verus! {

/// An element that was entered: its name, and the selector that matched it.
pub struct PathSegment {
    pub name: String,
    pub regex: Regex,
}

/// The elements that were entered on the way from the root, outermost first.
pub struct XmlPath {
    pub segments: Vec<PathSegment>,
}

/// Whether a step leaves the path as it is: `.` and the empty step do.
pub open spec fn is_stay(step: Seq<char>) -> bool {
    step.len() == 0 || step == seq!['.']
}

/// Whether a step climbs to the parent: `..` does.
pub open spec fn is_climb(step: Seq<char>) -> bool {
    step == seq!['.', '.']
}

/// The number of segments that are left of `count` after the steps
/// `steps[from..]`: a climb takes the last segment away, if there is one. A
/// step into a named child is not supported: the walk ends there, with the
/// number of segments that the steps before it have left.
pub open spec fn segments_left(count: nat, steps: Seq<Seq<char>>, from: int) -> Result<
    nat,
    (nat, PatchError),
>
    decreases steps.len() - from,
{
    if from < 0 || from >= steps.len() {
        Ok(count)
    } else if is_climb(steps[from]) {
        segments_left(
            if count > 0 {
                (count - 1) as nat
            } else {
                0
            },
            steps,
            from + 1,
        )
    } else if is_stay(steps[from]) {
        segments_left(count, steps, from + 1)
    } else {
        Err((count, PatchError::UnsupportedPathSegment))
    }
}

impl XmlPath {
    /// The path of the root.
    pub fn new() -> (r: XmlPath)
        ensures
            r.segments@.len() == 0,
    {
        XmlPath { segments: Vec::new() }
    }

    /// Walks the steps of `path`, which are separated by `/`: `..` leaves the
    /// element that was entered last, `.` and an empty step change nothing.
    /// A step into a named child is not supported; on such a step the climbs
    /// before it have been made.
    pub fn apply(&mut self, path: String) -> (r: Result<(), PatchError>)
        ensures
            match segments_left(old(self).segments@.len(), split_seq(path@, '/'), 0) {
                Ok(count) => r is Ok && count <= old(self).segments@.len()
                    && final(self).segments@ == old(self).segments@.take(count as int),
                Err((count, e)) => r == Err::<(), PatchError>(e) && count <= old(
                    self,
                ).segments@.len() && final(self).segments@ == old(self).segments@.take(
                    count as int,
                ),
            },
    {
        let steps = split_on(path.as_str(), '/');
        assert(texts(steps@) =~= split_seq(path@, '/'));
        let mut i: usize = 0;
        assert(self.segments@.take(self.segments@.len() as int) =~= self.segments@);
        while i < steps.len()
            invariant
                i <= steps.len(),
                texts(steps@) == split_seq(path@, '/'),
                self.segments@.len() <= old(self).segments@.len(),
                self.segments@ == old(self).segments@.take(self.segments@.len() as int),
                segments_left(self.segments@.len(), texts(steps@), i as int) == segments_left(
                    old(self).segments@.len(),
                    texts(steps@),
                    0,
                ),
            decreases steps.len() - i,
        {
            let step = chars_of(steps[i].as_str());
            assert(texts(steps@)[i as int] == step@);
            if step.len() == 2 && step[0] == '.' && step[1] == '.' {
                assert(step@ =~= seq!['.', '.']);
                let ghost before = self.segments@;
                self.segments.pop();
                assert(self.segments@ =~= old(self).segments@.take(self.segments@.len() as int));
            } else if step.len() == 0 || (step.len() == 1 && step[0] == '.') {
                proof {
                    if step.len() == 1 {
                        assert(step@ =~= seq!['.']);
                    }
                }
            } else {
                proof {
                    if step@ == seq!['.', '.'] {
                        assert(step@.len() == 2 && step@[0] == '.' && step@[1] == '.');
                    }
                    if step@ == seq!['.'] {
                        assert(step@.len() == 1 && step@[0] == '.');
                    }
                }
                return Err(PatchError::UnsupportedPathSegment);
            }
            i += 1;
        }
        Ok(())
    }
}

} // verus!
