//! The atomic unit of a parsed pattern.

use vstd::prelude::*;

use crate::model::SegModel;

verus! {

/// One parsed pattern segment: a literal path component, a named parameter
/// capturing one non-empty component, or the trailing wildcard capturing
/// the whole remainder of the path. Structural separators are not stored:
/// segments are implicitly separated by `/`, and the separator's low rank
/// in the precedence order shows up as the prefix tie-break there.
#[derive(Debug)]
pub enum Segment {
    Exact(String),
    Param(String),
    Wildcard,
}

impl View for Segment {
    type V = SegModel;

    open spec fn view(&self) -> SegModel {
        match self {
            Segment::Exact(t) => SegModel::Exact(t@),
            Segment::Param(n) => SegModel::Param(n@),
            Segment::Wildcard => SegModel::Wildcard,
        }
    }
}

impl DeepView for Segment {
    type V = SegModel;

    open spec fn deep_view(&self) -> SegModel {
        self.view()
    }
}

} // verus!
