//! The pipeline: import, capture the undivided polygon, split, capture each island.
//!
//! The pipeline never calls the engine. It is a machine that is handed each
//! reply and answers with the next request, until it returns the groups of
//! outlines or the error. It keeps the list of the handles it owns, asks for
//! nothing on a handle that it has given up, and returns only when it owns
//! none.
//!
//! The handle of the imported polygon is spent by the split, whether the
//! split succeeds or not: the pipeline neither reads nor releases it
//! afterwards. Every island is released once its loops are captured. What a
//! split makes of a polygon that cannot be split is the engine's affair: if
//! it reports no island, the undivided polygon is the only group returned;
//! if it reports the polygon itself as one island, that island is the
//! second group.

use crate::engine::{
    get_outlines, group_view, GeometryHandle, ImportOptions, PipelineError, Reply, ReplyView,
    Request,
};
use crate::outline::{OutlineGroup, OutlineView, PipelineResult};
use vstd::prelude::*;

verus! {

/// The reply that the pipeline waits for.
#[derive(Clone, Copy, Debug, PartialEq, Eq, Structural)]
pub enum Stage {
    /// The answer to `Import`.
    Importing,
    /// The loops of the undivided polygon.
    ExtractingOriginal,
    /// The islands.
    Splitting,
    /// The loops of the first island that is still owned.
    ExtractingChild,
    /// The release of the first handle that is still owned.
    Releasing,
}

/// The state of a run.
pub struct PipelineView {
    pub stage: Stage,
    pub containment_mode: bool,
    /// The groups captured so far: the undivided polygon first, then the islands.
    pub groups: Seq<Seq<OutlineView>>,
    /// The handles owned, in the order in which they will be given up.
    pub live: Seq<GeometryHandle>,
    /// The error to return once every handle is given up.
    pub failure: Option<PipelineError>,
}

/// Where a run stands after a reply.
pub enum StepView {
    /// The run goes on from this state with this request.
    Call(PipelineView, Request),
    /// The run is over.
    Return(Result<Seq<Seq<OutlineView>>, PipelineError>),
}

impl PipelineView {
    /// The shape that each stage gives the state.
    pub open spec fn wf(&self) -> bool {
        match self.stage {
            Stage::Importing => self.live.len() == 0 && self.groups.len() == 0
                && self.failure is None,
            Stage::ExtractingOriginal => self.live.len() == 1 && self.groups.len() == 0
                && self.failure is None,
            Stage::Splitting => self.live.len() == 1 && self.groups.len() == 1
                && self.failure is None,
            Stage::ExtractingChild => self.live.len() >= 1 && self.groups.len() >= 1
                && self.failure is None,
            Stage::Releasing => self.live.len() >= 1 && (self.failure is None
                ==> self.groups.len() >= 1),
        }
    }

    /// The request that the state waits on.
    pub open spec fn pending(&self) -> Request {
        match self.stage {
            Stage::Importing => Request::Import { options: ImportOptions::standard() },
            Stage::ExtractingOriginal => Request::Extract { handle: self.live[0] },
            Stage::Splitting => Request::Split {
                handle: self.live[0],
                containment_mode: self.containment_mode,
            },
            Stage::ExtractingChild => Request::Extract { handle: self.live[0] },
            Stage::Releasing => Request::Release { handle: self.live[0] },
        }
    }

    /// The handles that the pending request spends: the one that is split,
    /// or the one that is released.
    pub open spec fn spent(&self) -> Seq<GeometryHandle> {
        match self.stage {
            Stage::Splitting | Stage::Releasing => seq![self.live[0]],
            _ => Seq::empty(),
        }
    }

    /// The handles that the reply `r` hands over: the polygon of a
    /// successful import, or whatever a split reports, failed or not.
    pub open spec fn gained(&self, r: ReplyView) -> Seq<GeometryHandle> {
        match (self.stage, r) {
            (Stage::Importing, ReplyView::Imported { status, handle }) => if status == 0 {
                seq![handle]
            } else {
                Seq::empty()
            },
            (Stage::Splitting, ReplyView::Split { children, .. }) => children,
            _ => Seq::empty(),
        }
    }

    /// The state that gives up with `error` and first releases what it owns.
    pub open spec fn abort(&self, error: PipelineError) -> PipelineView {
        PipelineView { stage: Stage::Releasing, failure: Some(error), ..*self }
    }

    /// The step that the state takes on the reply `r`. A reply of another
    /// kind than the one awaited counts as a failure of the request. The
    /// reply to a release is not looked at: the handle is gone either way.
    pub open spec fn next(&self, r: ReplyView) -> StepView {
        match self.stage {
            Stage::Importing => match r {
                ReplyView::Imported { status, handle } if status == 0 => call(
                    PipelineView { stage: Stage::ExtractingOriginal, live: seq![handle], ..*self },
                ),
                _ => StepView::Return(Err(PipelineError::DocumentParseError)),
            },
            Stage::ExtractingOriginal => match r {
                ReplyView::Outlines { status, loops } if status == 0 => call(
                    PipelineView { stage: Stage::Splitting, groups: seq![loops], ..*self },
                ),
                _ => call(self.abort(PipelineError::ExtractionError)),
            },
            Stage::Splitting => match r {
                ReplyView::Split { status, children } => proceed(
                    self.containment_mode,
                    self.groups,
                    if status == 0 {
                        None
                    } else {
                        Some(PipelineError::SplitError)
                    },
                    children,
                ),
                _ => StepView::Return(Err(PipelineError::SplitError)),
            },
            Stage::ExtractingChild => match r {
                ReplyView::Outlines { status, loops } if status == 0 => call(
                    PipelineView {
                        stage: Stage::Releasing,
                        groups: self.groups.push(loops),
                        ..*self
                    },
                ),
                _ => call(self.abort(PipelineError::ExtractionError)),
            },
            Stage::Releasing => proceed(
                self.containment_mode,
                self.groups,
                self.failure,
                self.live.drop_first(),
            ),
        }
    }
}

/// How a run goes on once the polygon is split, with `live` as the handles
/// it owns: it returns where there are none, releases them in turn where it
/// has failed, and else captures the first of them.
pub open spec fn proceed(
    containment_mode: bool,
    groups: Seq<Seq<OutlineView>>,
    failure: Option<PipelineError>,
    live: Seq<GeometryHandle>,
) -> StepView {
    if live.len() == 0 {
        StepView::Return(
            match failure {
                Some(error) => Err(error),
                None => Ok(groups),
            },
        )
    } else {
        let stage = if failure is Some {
            Stage::Releasing
        } else {
            Stage::ExtractingChild
        };
        call(PipelineView { stage, containment_mode, groups, live, failure })
    }
}

/// The step that goes on from `s` with the request that `s` waits on.
pub open spec fn call(s: PipelineView) -> StepView {
    StepView::Call(s, s.pending())
}

/// How a run on a document begins: an empty document is refused at once,
/// for any other the engine is asked to import it with the standard options.
pub open spec fn begin(empty: bool, containment_mode: bool) -> StepView {
    if empty {
        StepView::Return(Err(PipelineError::DocumentParseError))
    } else {
        call(fresh(containment_mode))
    }
}

/// The state of a run that waits for its document to be imported.
pub open spec fn fresh(containment_mode: bool) -> PipelineView {
    PipelineView {
        stage: Stage::Importing,
        containment_mode,
        groups: Seq::empty(),
        live: Seq::empty(),
        failure: None,
    }
}

/// The handles that are owned after a step.
pub open spec fn owned_after(step: StepView) -> Seq<GeometryHandle> {
    match step {
        StepView::Call(s, _) => s.live,
        StepView::Return(_) => Seq::empty(),
    }
}

/// The groups of a result, as values.
pub open spec fn result_view(groups: Seq<OutlineGroup>) -> Seq<Seq<OutlineView>> {
    groups.map_values(|g: OutlineGroup| group_view(g@))
}

/// A run of the pipeline between two replies.
pub struct Pipeline {
    stage: Stage,
    containment_mode: bool,
    groups: PipelineResult,
    live: Vec<GeometryHandle>,
    failure: Option<PipelineError>,
}

impl View for Pipeline {
    type V = PipelineView;

    closed spec fn view(&self) -> PipelineView {
        PipelineView {
            stage: self.stage,
            containment_mode: self.containment_mode,
            groups: result_view(self.groups@),
            live: self.live@,
            failure: self.failure,
        }
    }
}

/// What the driver does next.
pub enum Step {
    /// Perform the request and hand the reply to `Pipeline::step`.
    Call(Pipeline, Request),
    /// The run is over: the groups, the undivided polygon first, or the error.
    Return(Result<PipelineResult, PipelineError>),
}

impl View for Step {
    type V = StepView;

    open spec fn view(&self) -> StepView {
        match *self {
            Step::Call(pipeline, request) => StepView::Call(pipeline@, request),
            Step::Return(Ok(groups)) => StepView::Return(Ok(result_view(groups@))),
            Step::Return(Err(error)) => StepView::Return(Err(error)),
        }
    }
}

/// Begins a run on the document `svg_data`. With `pip` set the engine is
/// asked to tell nested loops that share a vertex apart when it splits.
pub fn svg_process(svg_data: &str, pip: bool) -> (step: Step)
    ensures
        step@ == begin(svg_data@.len() == 0, pip),
{
    if svg_data.is_empty() {
        return Step::Return(Err(PipelineError::DocumentParseError));
    }
    let pipeline = Pipeline {
        stage: Stage::Importing,
        containment_mode: pip,
        groups: Vec::new(),
        live: Vec::new(),
        failure: None,
    };
    assert(pipeline@.groups =~= Seq::empty());
    Step::Call(pipeline, Request::Import { options: ImportOptions::default() })
}

impl Pipeline {
    #[verifier::type_invariant]
    spec fn shaped(&self) -> bool {
        self@.wf()
    }

    /// The request that the run waits on.
    pub fn pending(&self) -> (request: Request)
        ensures
            request == self@.pending(),
    {
        proof {
            use_type_invariant(self);
        }
        match self.stage {
            Stage::Importing => Request::Import { options: ImportOptions::default() },
            Stage::ExtractingOriginal => Request::Extract { handle: self.live[0] },
            Stage::Splitting => Request::Split {
                handle: self.live[0],
                containment_mode: self.containment_mode,
            },
            Stage::ExtractingChild => Request::Extract { handle: self.live[0] },
            Stage::Releasing => Request::Release { handle: self.live[0] },
        }
    }

    /// Goes on with `live` as the handles that are owned.
    fn proceed(
        containment_mode: bool,
        groups: PipelineResult,
        failure: Option<PipelineError>,
        live: Vec<GeometryHandle>,
    ) -> (step: Step)
        requires
            failure is None ==> groups@.len() >= 1,
        ensures
            step@ == proceed(containment_mode, result_view(groups@), failure, live@),
    {
        if live.len() == 0 {
            return match failure {
                Some(error) => Step::Return(Err(error)),
                None => Step::Return(Ok(groups)),
            };
        }
        let stage = if failure.is_some() {
            Stage::Releasing
        } else {
            Stage::ExtractingChild
        };
        let next = Pipeline { stage, containment_mode, groups, live, failure };
        let request = next.pending();
        Step::Call(next, request)
    }

    /// The run that gives up with `error`, releasing first what it owns.
    fn abort(self, error: PipelineError) -> (step: Step)
        requires
            self.live@.len() >= 1,
        ensures
            step@ == call(self@.abort(error)),
    {
        let handle = self.live[0];
        let next = Pipeline {
            stage: Stage::Releasing,
            containment_mode: self.containment_mode,
            groups: self.groups,
            live: self.live,
            failure: Some(error),
        };
        Step::Call(next, Request::Release { handle })
    }

    /// Takes the reply to the pending request and decides what comes next.
    pub fn step(self, reply: Reply) -> (step: Step)
        ensures
            step@ == self@.next(reply@),
    {
        proof {
            use_type_invariant(&self);
        }
        match self.stage {
            Stage::Importing => match reply {
                Reply::Imported { status, handle } => {
                    if status != 0 {
                        return Step::Return(Err(PipelineError::DocumentParseError));
                    }
                    let mut live = self.live;
                    live.push(handle);
                    assert(live@ =~= seq![handle]);
                    let next = Pipeline {
                        stage: Stage::ExtractingOriginal,
                        containment_mode: self.containment_mode,
                        groups: self.groups,
                        live,
                        failure: self.failure,
                    };
                    Step::Call(next, Request::Extract { handle })
                },
                _ => Step::Return(Err(PipelineError::DocumentParseError)),
            },
            Stage::ExtractingOriginal => match reply {
                Reply::Outlines { status, loops } => match get_outlines(status, &loops) {
                    Ok(group) => {
                        let handle = self.live[0];
                        let mut groups = self.groups;
                        groups.push(group);
                        assert(result_view(groups@) =~= seq![group_view(group@)]);
                        let next = Pipeline {
                            stage: Stage::Splitting,
                            containment_mode: self.containment_mode,
                            groups,
                            live: self.live,
                            failure: self.failure,
                        };
                        Step::Call(
                            next,
                            Request::Split { handle, containment_mode: self.containment_mode },
                        )
                    },
                    Err(error) => self.abort(error),
                },
                _ => self.abort(PipelineError::ExtractionError),
            },
            Stage::Splitting => match reply {
                Reply::Split { status, children } => {
                    let failure = if status == 0 {
                        None
                    } else {
                        Some(PipelineError::SplitError)
                    };
                    Self::proceed(self.containment_mode, self.groups, failure, children)
                },
                _ => Step::Return(Err(PipelineError::SplitError)),
            },
            Stage::ExtractingChild => match reply {
                Reply::Outlines { status, loops } => match get_outlines(status, &loops) {
                    Ok(group) => {
                        let handle = self.live[0];
                        let ghost before = self.groups@;
                        let mut groups = self.groups;
                        groups.push(group);
                        assert(result_view(groups@) =~= result_view(before).push(
                            group_view(group@),
                        ));
                        let next = Pipeline {
                            stage: Stage::Releasing,
                            containment_mode: self.containment_mode,
                            groups,
                            live: self.live,
                            failure: self.failure,
                        };
                        Step::Call(next, Request::Release { handle })
                    },
                    Err(error) => self.abort(error),
                },
                _ => self.abort(PipelineError::ExtractionError),
            },
            Stage::Releasing => {
                let mut rest = self.live;
                rest.remove(0);
                assert(rest@ =~= self.live@.drop_first());
                Self::proceed(self.containment_mode, self.groups, self.failure, rest)
            },
        }
    }
}

} // verus!
