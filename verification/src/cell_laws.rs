use core::task::Waker;
use vstd::prelude::*;

use crate::cell::CellView;
use crate::model;
use crate::model::RequestView;
use crate::model::StateView;
use crate::run_laws;
use crate::run_laws::Step;
use crate::wf_laws;

verus! {

/// Something that happens to a cell and to what is in it.
pub enum CellStep<T> {
    Poll { request: RequestView, waker: Waker },
    Cancel { request: RequestView },
    /// The holder of a write permit puts `value` into the cell.
    Write { value: T },
    ReleaseRead,
    ReleaseWrite,
}

impl<T> CellView<T> {
    /// Whether `step` can happen: a request is polled or cancelled where it is
    /// known, only who holds the cell leaves it, and only a writer changes what is
    /// in it.
    pub open spec fn allows(self, step: CellStep<T>) -> bool {
        match step {
            CellStep::Poll { request, waker } => self.state.allows(Step::Poll { request, waker }),
            CellStep::Cancel { request } => self.state.allows(Step::Drop { request }),
            CellStep::Write { .. } => self.state.is_writing,
            CellStep::ReleaseRead => self.state.allows(Step::ReleaseRead),
            CellStep::ReleaseWrite => self.state.allows(Step::ReleaseWrite),
        }
    }

    pub open spec fn after(self, step: CellStep<T>) -> CellView<T> {
        match step {
            CellStep::Poll { request, waker } => self.after_poll(request, waker),
            CellStep::Cancel { request } => self.after_cancel(request),
            CellStep::Write { value } => CellView { value, ..self },
            CellStep::ReleaseRead => self.after_read(),
            CellStep::ReleaseWrite => self.after_write(),
        }
    }
}

/// A new cell with `first` in it after `steps`.
pub open spec fn run_cell<T>(first: T, steps: Seq<CellStep<T>>) -> CellView<T>
    decreases steps.len(),
{
    if steps.len() == 0 {
        CellView::initial(first)
    } else {
        run_cell(first, steps.drop_last()).after(steps.last())
    }
}

/// Whether `steps` can happen to a new cell, one after the other.
pub open spec fn can_run_cell<T>(first: T, steps: Seq<CellStep<T>>) -> bool
    decreases steps.len(),
{
    steps.len() > 0 ==> can_run_cell(first, steps.drop_last()) && run_cell(
        first,
        steps.drop_last(),
    ).allows(steps.last())
}

/// What was written last during `steps`, `first` where nothing was.
pub open spec fn last_written<T>(first: T, steps: Seq<CellStep<T>>) -> T
    decreases steps.len(),
{
    if steps.len() == 0 {
        first
    } else {
        match steps.last() {
            CellStep::Write { value } => value,
            _ => last_written(first, steps.drop_last()),
        }
    }
}

/// What `step` is for those who hold the cell and wait for it: a request that is
/// granted is polled and then dropped, and writing is nothing to them.
pub open spec fn as_steps<T>(before: CellView<T>, step: CellStep<T>) -> Seq<Step> {
    match step {
        CellStep::Poll { request, waker } => if before.state.must_wait(request) {
            seq![Step::Poll { request, waker }]
        } else {
            seq![Step::Poll { request, waker }, Step::Drop { request }]
        },
        CellStep::Cancel { request } => seq![Step::Drop { request }],
        CellStep::Write { .. } => Seq::empty(),
        CellStep::ReleaseRead => seq![Step::ReleaseRead],
        CellStep::ReleaseWrite => seq![Step::ReleaseWrite],
    }
}

/// What `steps` are for those who hold the cell and wait for it.
pub open spec fn all_as_steps<T>(first: T, steps: Seq<CellStep<T>>) -> Seq<Step>
    decreases steps.len(),
{
    if steps.len() == 0 {
        Seq::empty()
    } else {
        let earlier = steps.drop_last();
        all_as_steps(first, earlier) + as_steps(run_cell(first, earlier), steps.last())
    }
}

proof fn lemma_run_push(steps: Seq<Step>, step: Step)
    ensures
        run_laws::run(steps.push(step)) == run_laws::run(steps).after(step),
        run_laws::can_run(steps.push(step)) == (run_laws::can_run(steps) && run_laws::run(
            steps,
        ).allows(step)),
{
    assert(steps.push(step).drop_last() =~= steps);
}

/// Everything that holds of who is let in and who is woken holds of a cell: what
/// happens to a cell happens to its state. Between steps no request that was let in
/// is still to be dropped.
pub proof fn law_cell_follows_its_state<T>(first: T, steps: Seq<CellStep<T>>)
    requires
        can_run_cell(first, steps),
    ensures
        run_laws::run(all_as_steps(first, steps)) == run_cell(first, steps).state,
        run_laws::can_run(all_as_steps(first, steps)),
        run_cell(first, steps).state.came.len() == 0,
    decreases steps.len(),
{
    if steps.len() > 0 {
        let earlier = steps.drop_last();
        let before = run_cell(first, earlier);
        law_cell_follows_its_state(first, earlier);
        let done = all_as_steps(first, earlier);
        run_laws::law_writer_is_alone(done);
        let next = as_steps(before, steps.last());
        if next.len() == 0 {
            assert(done + next =~= done);
        } else {
            lemma_run_push(done, next[0]);
            if next.len() == 1 {
                assert(done + next =~= done.push(next[0]));
            } else {
                assert(done + next =~= done.push(next[0]).push(next[1]));
                lemma_run_push(done.push(next[0]), next[1]);
            }
        }
        match steps.last() {
            CellStep::Poll { request, waker } => {
                if !before.state.must_wait(request) {
                    wf_laws::law_entering_keeps_wf(before.state, request);
                }
                lemma_nobody_to_drop(before.state, request, waker);
            },
            CellStep::Cancel { request } => {
                if let Some(ticket) = request.ticket {
                    wf_laws::lemma_uncalled(before.state.came, ticket);
                }
            },
            _ => {},
        }
    }
}

/// A granted request that is dropped is no longer remembered.
proof fn lemma_nobody_to_drop(state: StateView, request: RequestView, waker: Waker)
    requires
        state.came.len() == 0,
    ensures
        state.must_wait(request) ==> state.after_poll(request, waker).came.len() == 0,
        !state.must_wait(request) ==> state.after_poll(request, waker).after_drop(
            request,
        ).came.len() == 0,
{
    if let Some(ticket) = request.ticket {
        if !state.must_wait(request) {
            let came = state.welcome(request).came;
            let left = model::uncalled(came, ticket);
            wf_laws::lemma_uncalled(came, ticket);
            if left.len() > 0 {
                assert(left.contains(left[0]));
                let i = choose|i: int| 0 <= i < came.len() && came[i] == left[0];
                assert(i == 0);
            }
        }
    }
}

/// A cell handles requests in order: whatever happened to it, a request is let in
/// only when no earlier request that excludes it still waits or is called.
pub proof fn law_cell_lets_in_in_order<T>(
    first: T,
    steps: Seq<CellStep<T>>,
    request: RequestView,
)
    requires
        can_run_cell(first, steps),
        run_cell(first, steps).state.knows(request),
        !run_cell(first, steps).state.must_wait(request),
    ensures
        forall|i: int|
            0 <= i < run_cell(first, steps).state.pending.len() && (#[trigger] run_cell(
                first,
                steps,
            ).state.pending[i]).is_live() && run_laws::is_earlier(
                run_cell(first, steps).state.pending[i].ticket,
                request,
            ) ==> request.is_reader && run_cell(first, steps).state.pending[i].is_reader,
        forall|i: int|
            0 <= i < run_cell(first, steps).state.called.len() && run_laws::is_earlier(
                (#[trigger] run_cell(first, steps).state.called[i]).ticket,
                request,
            ) ==> request.is_reader && run_cell(first, steps).state.called[i].is_reader,
{
    law_cell_follows_its_state(first, steps);
    run_laws::law_let_in_in_order(all_as_steps(first, steps), request);
}

/// A cell lets a called request in at its next poll, whatever happened to it.
pub proof fn law_cell_lets_in_called<T>(
    first: T,
    steps: Seq<CellStep<T>>,
    request: RequestView,
)
    requires
        can_run_cell(first, steps),
        run_cell(first, steps).state.is_called(request),
    ensures
        !run_cell(first, steps).state.must_wait(request),
{
    law_cell_follows_its_state(first, steps);
    run_laws::law_called_is_let_in(all_as_steps(first, steps), request);
}

/// Whatever happens to a cell, no reader holds it beside a writer, and nobody
/// queues in front of it while it is free.
pub proof fn law_cell_writer_is_alone<T>(first: T, steps: Seq<CellStep<T>>)
    requires
        can_run_cell(first, steps),
    ensures
        run_cell(first, steps).state.wf(),
        run_cell(first, steps).state.is_settled(),
{
    law_cell_follows_its_state(first, steps);
    run_laws::law_writer_is_alone(all_as_steps(first, steps));
}

/// A read gives back what was written last.
pub proof fn law_read_gives_last_write<T>(first: T, steps: Seq<CellStep<T>>)
    ensures
        run_cell(first, steps).value == last_written(first, steps),
    decreases steps.len(),
{
    if steps.len() > 0 {
        law_read_gives_last_write(first, steps.drop_last());
    }
}

/// What is in a cell does not change as long as somebody reads it.
pub proof fn law_value_is_stable_while_read<T>(before: CellView<T>, step: CellStep<T>)
    requires
        before.state.wf(),
        before.state.reader_count > 0,
        before.allows(step),
    ensures
        before.after(step).value == before.value,
{
}

} // verus!
