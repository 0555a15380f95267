//! What the resolution of one identifier asks of its caller next.

use vstd::prelude::*;
use crate::resolve::{IdType, ResolvedIdentifier, BibError};

verus! {

/// The next thing to do for one identifier: fetch from a registry, parse the
/// Atom feed that arXiv answered with, or emit the finished record.
#[derive(Debug)]
pub enum Step {
    Fetch(ResolvedIdentifier),
    ParseFeed(String),
    Emit(String),
}

/// A step as plain values.
pub enum StepView {
    Fetch(IdType, Seq<char>),
    ParseFeed(Seq<char>),
    Emit(Seq<char>),
}

impl View for Step {
    type V = StepView;

    open spec fn view(&self) -> StepView {
        match self {
            Step::Fetch(r) => StepView::Fetch(r.kind, r.id@),
            Step::ParseFeed(t) => StepView::ParseFeed(t@),
            Step::Emit(t) => StepView::Emit(t@),
        }
    }
}

/// A step or an error, as plain values.
pub open spec fn outcome_view(r: Result<Step, BibError>) -> Result<StepView, BibError> {
    match r {
        Ok(s) => Ok(s@),
        Err(e) => Err(e),
    }
}

} // verus!
