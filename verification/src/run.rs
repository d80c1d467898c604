//! Whole runs of the pipeline, and what holds of every one of them.
//!
//! A run is a state and the replies that the engine gives from there on, in
//! order. Nothing is assumed of the replies: the statements below hold of an
//! engine that fails anywhere, and of one that answers beside the question.

use crate::engine::{GeometryHandle, ImportOptions, PipelineError, Reply, ReplyView, Request};
use crate::outline::OutlineView;
use crate::pipeline::{call, fresh, owned_after, PipelineView, Stage, Step, StepView};
use vstd::prelude::*;

verus! {

/// Where the run from `s` stands after the replies `rs`. Replies that come
/// after the run has returned are not looked at.
pub open spec fn run(s: PipelineView, rs: Seq<ReplyView>) -> StepView
    decreases rs.len(),
{
    if rs.len() == 0 {
        StepView::Call(s, s.pending())
    } else {
        match s.next(rs[0]) {
            StepView::Call(t, _) => run(t, rs.drop_first()),
            StepView::Return(outcome) => StepView::Return(outcome),
        }
    }
}

/// The handles that the engine hands over during the run, in order.
pub open spec fn gained_in(s: PipelineView, rs: Seq<ReplyView>) -> Seq<GeometryHandle>
    decreases rs.len(),
{
    if rs.len() == 0 {
        Seq::empty()
    } else {
        s.gained(rs[0]) + (match s.next(rs[0]) {
            StepView::Call(t, _) => gained_in(t, rs.drop_first()),
            StepView::Return(_) => Seq::empty(),
        })
    }
}

/// The handles that the run's answered requests spend, in order.
pub open spec fn spent_in(s: PipelineView, rs: Seq<ReplyView>) -> Seq<GeometryHandle>
    decreases rs.len(),
{
    if rs.len() == 0 {
        Seq::empty()
    } else {
        s.spent() + (match s.next(rs[0]) {
            StepView::Call(t, _) => spent_in(t, rs.drop_first()),
            StepView::Return(_) => Seq::empty(),
        })
    }
}

/// The replies of a driver, as the pipeline reads them.
pub open spec fn replies_view(replies: Seq<Reply>) -> Seq<ReplyView> {
    replies.map_values(|r: Reply| r@)
}

/// A step leads from a well-shaped state to a well-shaped state, and asks
/// for the request that this state waits on. A request that names a handle
/// names the first of those that are owned then.
pub proof fn lemma_step_keeps_shape(s: PipelineView, r: ReplyView)
    requires
        s.wf(),
    ensures
        match s.next(r) {
            StepView::Call(t, request) => {
                &&& t.wf()
                &&& t.containment_mode == s.containment_mode
                &&& request == t.pending()
                &&& request.handle() is Some ==> t.live.len() > 0 && request.handle() == Some(
                    t.live[0],
                )
            },
            StepView::Return(_) => true,
        },
{
}

/// One step's account: what was owned and what the reply hands over is what
/// the request spent and what is owned afterwards, handle for handle and in
/// this order. A step that returns leaves nothing owned.
pub proof fn lemma_step_accounts(s: PipelineView, r: ReplyView)
    requires
        s.wf(),
    ensures
        s.live + s.gained(r) == s.spent() + owned_after(s.next(r)),
        s.next(r) is Return ==> owned_after(s.next(r)).len() == 0,
{
    assert(s.live + s.gained(r) =~= s.spent() + owned_after(s.next(r)));
}

/// A whole run's account: the handles owned at its start and those handed
/// over during it are those spent during it and those owned at its end,
/// handle for handle and in this order.
pub proof fn lemma_run_accounts(s: PipelineView, rs: Seq<ReplyView>)
    requires
        s.wf(),
    ensures
        s.live + gained_in(s, rs) == spent_in(s, rs) + owned_after(run(s, rs)),
    decreases rs.len(),
{
    if rs.len() == 0 {
        assert(s.live + gained_in(s, rs) =~= spent_in(s, rs) + owned_after(run(s, rs)));
    } else {
        lemma_step_accounts(s, rs[0]);
        lemma_step_keeps_shape(s, rs[0]);
        match s.next(rs[0]) {
            StepView::Call(t, _) => {
                let rest = rs.drop_first();
                lemma_run_accounts(t, rest);
                assert(s.live + gained_in(s, rs) =~= (s.live + s.gained(rs[0])) + gained_in(
                    t,
                    rest,
                ));
                assert((s.spent() + t.live) + gained_in(t, rest) =~= s.spent() + (t.live
                    + gained_in(t, rest)));
                assert(s.spent() + (spent_in(t, rest) + owned_after(run(t, rest))) =~= spent_in(
                    s,
                    rs,
                ) + owned_after(run(s, rs)));
            },
            StepView::Return(_) => {
                assert(s.live + gained_in(s, rs) =~= spent_in(s, rs) + owned_after(run(s, rs)));
            },
        }
    }
}

/// No leak and no second release: when a run on a document has returned,
/// with the groups or with an error, the handles that were spent are the
/// handles that the engine handed over, each as often as it was handed over.
pub proof fn lemma_returned_run_owns_nothing(containment_mode: bool, rs: Seq<ReplyView>)
    requires
        run(fresh(containment_mode), rs) is Return,
    ensures
        spent_in(fresh(containment_mode), rs) == gained_in(fresh(containment_mode), rs),
{
    let s = fresh(containment_mode);
    lemma_run_accounts(s, rs);
    assert(s.live + gained_in(s, rs) =~= gained_in(s, rs));
    assert(spent_in(s, rs) + owned_after(run(s, rs)) =~= spent_in(s, rs));
}

/// A run that has failed does not return groups.
pub proof fn lemma_failed_run_fails(s: PipelineView, rs: Seq<ReplyView>)
    requires
        s.wf(),
        s.failure is Some,
    ensures
        run(s, rs) matches StepView::Return(outcome) ==> outcome == Err::<
            Seq<Seq<OutlineView>>,
            PipelineError,
        >(s.failure->Some_0),
    decreases rs.len(),
{
    if rs.len() > 0 {
        lemma_step_keeps_shape(s, rs[0]);
        match s.next(rs[0]) {
            StepView::Call(t, _) => {
                lemma_failed_run_fails(t, rs.drop_first());
            },
            StepView::Return(_) => {},
        }
    }
}

/// Once the first group is captured it stays: the groups that a run returns
/// begin with the groups that it held before, in the same order.
pub proof fn lemma_run_keeps_groups(s: PipelineView, rs: Seq<ReplyView>)
    requires
        s.wf(),
        s.groups.len() >= 1,
    ensures
        run(s, rs) matches StepView::Return(Ok(groups)) ==> s.groups.is_prefix_of(groups),
    decreases rs.len(),
{
    if rs.len() > 0 {
        lemma_step_keeps_shape(s, rs[0]);
        match s.next(rs[0]) {
            StepView::Call(t, _) => {
                lemma_run_keeps_groups(t, rs.drop_first());
                assert(s.groups.is_prefix_of(t.groups));
            },
            StepView::Return(_) => {},
        }
    }
}

/// The first group of a result is the undivided polygon: where a run on a
/// document returns groups, its second reply was the successful capture of
/// the imported polygon, and the first group holds that reply's loops.
pub proof fn lemma_first_group_is_original(containment_mode: bool, rs: Seq<ReplyView>)
    requires
        run(fresh(containment_mode), rs) is Return,
        run(fresh(containment_mode), rs)->Return_0 is Ok,
    ensures
        rs.len() >= 3,
        rs[1] is Outlines,
        rs[1]->Outlines_status == 0,
        run(fresh(containment_mode), rs)->Return_0->Ok_0.len() >= 1,
        run(fresh(containment_mode), rs)->Return_0->Ok_0[0] == rs[1]->Outlines_loops,
{
    let s = fresh(containment_mode);
    assert(rs.len() >= 1);
    lemma_step_keeps_shape(s, rs[0]);
    let t = s.next(rs[0])->Call_0;
    let rs1 = rs.drop_first();
    assert(run(s, rs) == run(t, rs1));
    assert(rs1.len() >= 1);
    assert(rs1[0] == rs[1]);
    lemma_step_keeps_shape(t, rs1[0]);
    let u = t.next(rs1[0])->Call_0;
    let rs2 = rs1.drop_first();
    assert(run(t, rs1) == run(u, rs2));
    if u.failure is Some {
        lemma_failed_run_fails(u, rs2);
    } else {
        lemma_run_keeps_groups(u, rs2);
        let groups = run(u, rs2)->Return_0->Ok_0;
        assert(u.groups =~= groups.subrange(0, 1));
        assert(groups.subrange(0, 1)[0] == groups[0]);
        assert(u.groups[0] == rs[1]->Outlines_loops);
    }
}

/// The containment mode does not reach the first group: two runs that
/// return groups and whose imported polygon was captured with the same
/// loops return the same first group, whatever their modes and whatever the
/// engine answered otherwise.
pub proof fn lemma_mode_spares_original(
    mode_a: bool,
    rs_a: Seq<ReplyView>,
    mode_b: bool,
    rs_b: Seq<ReplyView>,
)
    requires
        run(fresh(mode_a), rs_a) matches StepView::Return(Ok(_)),
        run(fresh(mode_b), rs_b) matches StepView::Return(Ok(_)),
        rs_a[1] == rs_b[1],
    ensures
        run(fresh(mode_a), rs_a)->Return_0->Ok_0[0] == run(fresh(mode_b), rs_b)->Return_0->Ok_0[0],
{
    lemma_first_group_is_original(mode_a, rs_a);
    lemma_first_group_is_original(mode_b, rs_b);
}

/// The requests that the run's replies answered, in order.
pub open spec fn asked(s: PipelineView, rs: Seq<ReplyView>) -> Seq<Request>
    decreases rs.len(),
{
    if rs.len() == 0 {
        Seq::empty()
    } else {
        seq![s.pending()] + (match s.next(rs[0]) {
            StepView::Call(t, _) => asked(t, rs.drop_first()),
            StepView::Return(_) => Seq::empty(),
        })
    }
}

/// What a run asks for the islands `live`: of each in turn its loops, then
/// its release.
pub open spec fn island_requests(live: Seq<GeometryHandle>) -> Seq<Request>
    decreases live.len(),
{
    if live.len() == 0 {
        Seq::empty()
    } else {
        seq![Request::Extract { handle: live[0] }, Request::Release { handle: live[0] }]
            + island_requests(live.drop_first())
    }
}

/// The first `n` islands were captured: the replies `rs` hold, `n` times in
/// turn, a successful answer to `Extract` and then one more reply.
pub open spec fn islands_captured(rs: Seq<ReplyView>, n: nat) -> bool
    decreases n,
{
    n > 0 ==> {
        &&& rs.len() >= 2
        &&& rs[0] is Outlines
        &&& rs[0]->Outlines_status == 0
        &&& islands_captured(rs.skip(2), (n - 1) as nat)
    }
}

/// The loops of the first `n` islands that `rs` captures, in order.
pub open spec fn island_groups(rs: Seq<ReplyView>, n: nat) -> Seq<Seq<OutlineView>>
    decreases n,
{
    if n == 0 {
        Seq::empty()
    } else {
        seq![rs[0]->Outlines_loops] + island_groups(rs.skip(2), (n - 1) as nat)
    }
}

/// A run that stands before the capture of an island and returns groups has
/// captured and released each island that it owned, in order, and returns
/// the groups it held followed by one group for each island.
pub proof fn lemma_islands_in_order(s: PipelineView, rs: Seq<ReplyView>)
    requires
        s.wf(),
        s.stage == Stage::ExtractingChild,
        run(s, rs) is Return,
        run(s, rs)->Return_0 is Ok,
    ensures
        islands_captured(rs, s.live.len()),
        run(s, rs)->Return_0->Ok_0 == s.groups + island_groups(rs, s.live.len()),
        asked(s, rs) == island_requests(s.live),
    decreases rs.len(),
{
    let n = s.live.len();
    let groups = run(s, rs)->Return_0->Ok_0;
    assert(rs.len() >= 1);
    lemma_step_keeps_shape(s, rs[0]);
    let t = s.next(rs[0])->Call_0;
    let rs1 = rs.drop_first();
    assert(run(s, rs) == run(t, rs1));
    if t.failure is Some {
        lemma_failed_run_fails(t, rs1);
    }
    assert(rs[0] is Outlines && rs[0]->Outlines_status == 0);
    let loops = rs[0]->Outlines_loops;
    assert(t.groups == s.groups.push(loops));
    assert(rs1.len() >= 1);
    lemma_step_keeps_shape(t, rs1[0]);
    let rs2 = rs1.drop_first();
    assert(rs2 =~= rs.skip(2));
    let rest = s.live.drop_first();
    assert(asked(s, rs) == seq![s.pending()] + asked(t, rs1));
    if rest.len() == 0 {
        assert(groups == t.groups);
        assert(n == 1);
        assert(islands_captured(rs2, 0));
        assert(island_groups(rs2, 0) =~= Seq::<Seq<OutlineView>>::empty());
        assert(groups =~= s.groups + island_groups(rs, n));
        assert(asked(t, rs1) =~= seq![t.pending()]);
        assert(island_requests(rest) =~= Seq::<Request>::empty());
        assert(asked(s, rs) =~= island_requests(s.live));
    } else {
        let u = t.next(rs1[0])->Call_0;
        assert(run(t, rs1) == run(u, rs2));
        assert(u.live == rest);
        lemma_islands_in_order(u, rs2);
        assert(groups =~= s.groups + island_groups(rs, n));
        assert(asked(t, rs1) == seq![t.pending()] + asked(u, rs2));
        assert(asked(s, rs) =~= island_requests(s.live));
    }
}

/// The order of a result: a run on a document that returns groups was
/// answered by a successful import, a successful capture of the imported
/// polygon and a successful split, and then captured and released each
/// island in the order of the split. Its groups are the loops of the
/// imported polygon, then those of each island in that order.
pub proof fn lemma_groups_in_engine_order(containment_mode: bool, rs: Seq<ReplyView>)
    requires
        run(fresh(containment_mode), rs) is Return,
        run(fresh(containment_mode), rs)->Return_0 is Ok,
    ensures
        rs.len() >= 3,
        rs[0] is Imported && rs[0]->Imported_status == 0,
        rs[1] is Outlines && rs[1]->Outlines_status == 0,
        rs[2] is Split && rs[2]->Split_status == 0,
        islands_captured(rs.skip(3), rs[2]->Split_children.len()),
        run(fresh(containment_mode), rs)->Return_0->Ok_0 == seq![rs[1]->Outlines_loops]
            + island_groups(rs.skip(3), rs[2]->Split_children.len()),
        asked(fresh(containment_mode), rs) == seq![
            Request::Import { options: ImportOptions::standard() },
            Request::Extract { handle: rs[0]->Imported_handle },
            Request::Split { handle: rs[0]->Imported_handle, containment_mode },
        ] + island_requests(rs[2]->Split_children),
{
    let s = fresh(containment_mode);
    let groups = run(s, rs)->Return_0->Ok_0;
    assert(rs.len() >= 1);
    lemma_step_keeps_shape(s, rs[0]);
    let t = s.next(rs[0])->Call_0;
    let rs1 = rs.drop_first();
    assert(run(s, rs) == run(t, rs1));
    assert(rs1.len() >= 1);
    lemma_step_keeps_shape(t, rs1[0]);
    let u = t.next(rs1[0])->Call_0;
    let rs2 = rs1.drop_first();
    assert(run(t, rs1) == run(u, rs2));
    if u.failure is Some {
        lemma_failed_run_fails(u, rs2);
    }
    assert(rs2.len() >= 1);
    assert(rs1[0] == rs[1] && rs2[0] == rs[2]);
    lemma_step_keeps_shape(u, rs2[0]);
    let rs3 = rs2.drop_first();
    assert(rs3 =~= rs.skip(3));
    assert(rs[2] is Split);
    let children = rs[2]->Split_children;
    assert(asked(s, rs) == seq![s.pending()] + asked(t, rs1));
    assert(asked(t, rs1) == seq![t.pending()] + asked(u, rs2));
    if children.len() == 0 {
        assert(island_groups(rs3, 0) =~= Seq::<Seq<OutlineView>>::empty());
        assert(groups =~= seq![rs[1]->Outlines_loops] + island_groups(rs3, 0));
        assert(island_requests(children) =~= Seq::<Request>::empty());
        assert(asked(u, rs2) =~= seq![u.pending()]);
    } else {
        let v = u.next(rs2[0])->Call_0;
        assert(run(u, rs2) == run(v, rs3));
        if v.failure is Some {
            lemma_failed_run_fails(v, rs3);
        }
        lemma_islands_in_order(v, rs3);
        assert(asked(u, rs2) == seq![u.pending()] + asked(v, rs3));
    }
    assert(asked(s, rs) =~= seq![
        Request::Import { options: ImportOptions::standard() },
        Request::Extract { handle: rs[0]->Imported_handle },
        Request::Split { handle: rs[0]->Imported_handle, containment_mode },
    ] + island_requests(children));
}

/// Where a step stands after the replies `rs`: a step that has returned
/// stays as it is.
pub open spec fn settle(step: StepView, rs: Seq<ReplyView>) -> StepView {
    match step {
        StepView::Call(s, _) => run(s, rs),
        StepView::Return(outcome) => StepView::Return(outcome),
    }
}

/// Hands the replies to the run one after the other, until they are used up
/// or the run has returned.
pub fn replay(step: Step, replies: Vec<Reply>) -> (settled: Step)
    ensures
        settled@ == settle(step@, replies_view(replies@)),
{
    let ghost all = replies_view(replies@);
    let mut current = step;
    let mut left = replies;
    while left.len() > 0
        invariant
            settle(current@, replies_view(left@)) == settle(step@, all),
        decreases left.len(),
    {
        let ghost before = replies_view(left@);
        let reply = left.remove(0);
        proof {
            assert(replies_view(left@) =~= before.drop_first());
            assert(before[0] == reply@);
        }
        current = match current {
            Step::Call(pipeline, _) => pipeline.step(reply),
            Step::Return(outcome) => Step::Return(outcome),
        };
    }
    match current {
        Step::Call(pipeline, _) => {
            let request = pipeline.pending();
            Step::Call(pipeline, request)
        },
        Step::Return(outcome) => Step::Return(outcome),
    }
}

/// The state `s` with the containment mode `containment_mode`.
pub open spec fn with_mode(s: PipelineView, containment_mode: bool) -> PipelineView {
    PipelineView { containment_mode, ..s }
}

/// The step `step` of a run with the containment mode `containment_mode`.
pub open spec fn step_with_mode(step: StepView, containment_mode: bool) -> StepView {
    match step {
        StepView::Call(s, _) => call(with_mode(s, containment_mode)),
        StepView::Return(outcome) => StepView::Return(outcome),
    }
}

/// The containment mode is handed to the engine with the split and decides
/// nothing else: on the same replies, two runs that differ in the mode
/// alone stand in the same state but for the mode, and return the same.
pub proof fn lemma_mode_decides_nothing(
    s: PipelineView,
    containment_mode: bool,
    rs: Seq<ReplyView>,
)
    requires
        s.wf(),
    ensures
        run(with_mode(s, containment_mode), rs) == step_with_mode(run(s, rs), containment_mode),
    decreases rs.len(),
{
    if rs.len() > 0 {
        lemma_step_keeps_shape(s, rs[0]);
        assert(with_mode(s, containment_mode).next(rs[0]) == step_with_mode(
            s.next(rs[0]),
            containment_mode,
        ));
        match s.next(rs[0]) {
            StepView::Call(t, _) => {
                lemma_mode_decides_nothing(t, containment_mode, rs.drop_first());
            },
            StepView::Return(_) => {},
        }
    }
}

/// The same document, mode and answers give the same result: a run depends
/// on the replies only through what they hold, so two drivers whose replies
/// hold the same loops and handles end alike.
pub proof fn lemma_run_repeats(containment_mode: bool, first: Seq<Reply>, second: Seq<Reply>)
    requires
        first.len() == second.len(),
        forall|i: int| 0 <= i < first.len() ==> (#[trigger] first[i])@ == second[i]@,
    ensures
        run(fresh(containment_mode), replies_view(first)) == run(
            fresh(containment_mode),
            replies_view(second),
        ),
{
    assert(replies_view(first) =~= replies_view(second));
}

} // verus!
