use core::task::Waker;
use vstd::prelude::*;

use crate::model;
use crate::model::Call;
use crate::model::RequestView;
use crate::model::StateView;
use crate::model::WaitingView;
use crate::wf_laws;

verus! {

/// Something that happens to a cell.
pub enum Step {
    Poll { request: RequestView, waker: Waker },
    Drop { request: RequestView },
    ReleaseRead,
    ReleaseWrite,
}

impl StateView {
    /// Whether `step` can happen: a request is polled or dropped where it is
    /// known, and only who holds the cell leaves it.
    pub open spec fn allows(self, step: Step) -> bool {
        match step {
            Step::Poll { request, .. } => self.knows(request) && self.has_room_for(request),
            Step::Drop { request } => self.knows(request),
            Step::ReleaseRead => self.reader_count > 0,
            Step::ReleaseWrite => self.is_writing,
        }
    }

    pub open spec fn after(self, step: Step) -> StateView {
        match step {
            Step::Poll { request, waker } => self.after_poll(request, waker),
            Step::Drop { request } => self.after_drop(request),
            Step::ReleaseRead => self.after_read(),
            Step::ReleaseWrite => self.after_write(),
        }
    }

    /// The place in the queue that `step` takes, if it takes one.
    pub open spec fn queued_by(self, step: Step) -> Seq<WaitingView> {
        match step {
            Step::Poll { request, waker } if self.must_wait(request) => seq![
                self.queued(request, waker).pending.last(),
            ],
            _ => Seq::empty(),
        }
    }

    /// The requests that `step` wakes.
    pub open spec fn woken_by(self, step: Step) -> Seq<WaitingView> {
        match step {
            Step::Poll { .. } => Seq::empty(),
            Step::Drop { request } => self.woken_by_drop(request),
            Step::ReleaseRead => self.woken_by_read(),
            Step::ReleaseWrite => self.woken_by_write(),
        }
    }

    /// By how much `step` changes the number of readers that were let in and have
    /// not left.
    pub open spec fn readers_by(self, step: Step) -> int {
        match step {
            Step::Poll { request, .. } => if request.is_reader && !self.must_wait(request) {
                1
            } else {
                0
            },
            Step::ReleaseRead => -1,
            _ => 0,
        }
    }

    /// By how much `step` changes the number of writers that were let in and have
    /// not left.
    pub open spec fn writers_by(self, step: Step) -> int {
        match step {
            Step::Poll { request, .. } => if !request.is_reader && !self.must_wait(request) {
                1
            } else {
                0
            },
            Step::ReleaseWrite => -1,
            _ => 0,
        }
    }
}

/// A new cell's state after `steps`.
pub open spec fn run(steps: Seq<Step>) -> StateView
    decreases steps.len(),
{
    if steps.len() == 0 {
        StateView::initial()
    } else {
        run(steps.drop_last()).after(steps.last())
    }
}

/// Whether `steps` can happen to a new cell, one after the other.
pub open spec fn can_run(steps: Seq<Step>) -> bool
    decreases steps.len(),
{
    steps.len() > 0 ==> can_run(steps.drop_last()) && run(steps.drop_last()).allows(steps.last())
}

/// The readers that were let in during `steps` less those that left.
pub open spec fn readers_inside(steps: Seq<Step>) -> int
    decreases steps.len(),
{
    if steps.len() == 0 {
        0
    } else {
        readers_inside(steps.drop_last()) + run(steps.drop_last()).readers_by(steps.last())
    }
}

/// The writers that were let in during `steps` less those that left.
pub open spec fn writers_inside(steps: Seq<Step>) -> int
    decreases steps.len(),
{
    if steps.len() == 0 {
        0
    } else {
        writers_inside(steps.drop_last()) + run(steps.drop_last()).writers_by(steps.last())
    }
}

/// The places that were taken in the queue during `steps`, in order.
pub open spec fn queued_in(steps: Seq<Step>) -> Seq<WaitingView>
    decreases steps.len(),
{
    if steps.len() == 0 {
        Seq::empty()
    } else {
        queued_in(steps.drop_last()) + run(steps.drop_last()).queued_by(steps.last())
    }
}

/// The requests that were woken during `steps`, in order.
pub open spec fn woken_in(steps: Seq<Step>) -> Seq<WaitingView>
    decreases steps.len(),
{
    if steps.len() == 0 {
        Seq::empty()
    } else {
        woken_in(steps.drop_last()) + run(steps.drop_last()).woken_by(steps.last())
    }
}

/// `entries` as they were when they entered the queue.
pub open spec fn as_queued(entries: Seq<WaitingView>) -> Seq<WaitingView> {
    entries.map_values(|entry: WaitingView| WaitingView { dropped: false, ..entry })
}

/// `at` says where in `all` the elements of `part` are found, from left to right.
pub open spec fn found_at(part: Seq<WaitingView>, all: Seq<WaitingView>, at: Seq<int>) -> bool {
    &&& at.len() == part.len()
    &&& forall|i: int| 0 <= i < at.len() ==> 0 <= #[trigger] at[i] < all.len()
    &&& forall|i: int| 0 <= i < at.len() ==> part[i] == all[#[trigger] at[i]]
    &&& forall|i: int, j: int| 0 <= i < j < at.len() ==> #[trigger] at[i] < #[trigger] at[j]
}

/// `part` is what is left of `all` when some of its elements are taken out.
pub open spec fn keeps_order(part: Seq<WaitingView>, all: Seq<WaitingView>) -> bool {
    exists|at: Seq<int>| found_at(part, all, at)
}

/// The invariant of a cell survives every step, and nobody comes to queue in front
/// of a free cell.
pub proof fn law_step_keeps_wf(before: StateView, step: Step)
    requires
        before.wf(),
        before.allows(step),
    ensures
        before.after(step).wf(),
        before.is_settled() ==> before.after(step).is_settled(),
{
    match step {
        Step::Poll { request, waker } => {
            if before.must_wait(request) {
                wf_laws::law_queueing_keeps_wf(before, request, waker);
                if before.is_settled() && before.is_free() {
                    model::lemma_none_live(before.pending);
                    assert(!before.calls_a_writer());
                }
            } else {
                wf_laws::law_entering_keeps_wf(before, request);
            }
        },
        Step::Drop { request } => {
            if let Some(ticket) = request.ticket {
                wf_laws::law_forget_keeps_wf(before, ticket);
                wf_laws::law_wake_keeps_wf(before.forget(ticket));
            }
        },
        Step::ReleaseRead => {
            wf_laws::law_leaving_keeps_wf(before);
            wf_laws::law_wake_keeps_wf(before.reader_left());
        },
        Step::ReleaseWrite => {
            wf_laws::law_leaving_keeps_wf(before);
            wf_laws::law_wake_keeps_wf(before.writer_left());
        },
    }
}

/// Whatever happens to a cell, it is never held by a writer and a reader, nor by
/// two writers, and it knows how many readers hold it and whether a writer does.
pub proof fn law_writer_is_alone(steps: Seq<Step>)
    requires
        can_run(steps),
    ensures
        run(steps).wf(),
        run(steps).reader_count == readers_inside(steps),
        writers_inside(steps) == if run(steps).is_writing {
            1int
        } else {
            0
        },
        writers_inside(steps) > 0 ==> writers_inside(steps) == 1 && readers_inside(steps) == 0,
        run(steps).is_settled(),
    decreases steps.len(),
{
    if steps.len() > 0 {
        law_writer_is_alone(steps.drop_last());
        law_step_keeps_wf(run(steps.drop_last()), steps.last());
    }
}

proof fn lemma_order_itself(all: Seq<WaitingView>)
    ensures
        keeps_order(all, all),
{
    assert(found_at(all, all, Seq::new(all.len(), |i: int| i)));
}

proof fn lemma_order_transitive(part: Seq<WaitingView>, more: Seq<WaitingView>, all: Seq<WaitingView>)
    requires
        keeps_order(part, more),
        keeps_order(more, all),
    ensures
        keeps_order(part, all),
{
    let inner = choose|at: Seq<int>| found_at(part, more, at);
    let outer = choose|at: Seq<int>| found_at(more, all, at);
    assert(found_at(part, all, Seq::new(part.len(), |i: int| outer[inner[i]])));
}

proof fn lemma_order_concat(
    part: Seq<WaitingView>,
    all: Seq<WaitingView>,
    next_part: Seq<WaitingView>,
    next_all: Seq<WaitingView>,
)
    requires
        keeps_order(part, all),
        keeps_order(next_part, next_all),
    ensures
        keeps_order(part + next_part, all + next_all),
{
    let at = choose|at: Seq<int>| found_at(part, all, at);
    let next_at = choose|at: Seq<int>| found_at(next_part, next_all, at);
    let both = at + Seq::new(next_at.len(), |i: int| next_at[i] + all.len());
    assert(found_at(part + next_part, all + next_all, both));
}

proof fn lemma_order_as_queued(part: Seq<WaitingView>, all: Seq<WaitingView>)
    requires
        keeps_order(part, all),
    ensures
        keeps_order(as_queued(part), as_queued(all)),
{
    let at = choose|at: Seq<int>| found_at(part, all, at);
    assert(found_at(as_queued(part), as_queued(all), at));
}

proof fn lemma_order_live(pending: Seq<WaitingView>)
    ensures
        keeps_order(model::live(pending), pending),
    decreases pending.len(),
{
    reveal(Seq::filter);
    if pending.len() == 0 {
        lemma_order_itself(pending);
    } else {
        let last = seq![pending.last()];
        lemma_order_live(pending.drop_last());
        assert(pending =~= pending.drop_last() + last);
        let kept: Seq<WaitingView> = if pending.last().is_live() {
            last
        } else {
            Seq::empty()
        };
        if pending.last().is_live() {
            lemma_order_itself(last);
        } else {
            assert(found_at(kept, last, Seq::empty()));
        }
        lemma_order_concat(model::live(pending.drop_last()), pending.drop_last(), kept, last);
        assert(model::live(pending) =~= model::live(pending.drop_last()) + kept);
    }
}

proof fn lemma_order_woken(pending: Seq<WaitingView>)
    ensures
        keeps_order(model::woken(pending) + model::left_waiting(pending), pending),
{
    model::lemma_first_writer(pending);
    let ahead = model::ahead_of_writer(pending) as int;
    let front = pending.take(ahead);
    let back = pending.skip(ahead);
    assert(pending =~= front + back);
    lemma_order_live(front);
    lemma_order_itself(back);
    lemma_order_concat(model::live(front), front, back, back);
    assert(model::woken(pending) + model::left_waiting(pending) =~= model::live(front) + back);
}

/// Calling who is next leaves those woken, followed by those that wait, in the
/// order of the queue.
proof fn lemma_order_after_wake(before: StateView)
    ensures
        keeps_order(before.next_called() + before.after_wake().pending, before.pending),
{
    if before.is_free() {
        lemma_order_woken(before.pending);
    } else {
        lemma_order_itself(before.pending);
        assert(before.next_called() + before.after_wake().pending =~= before.pending);
    }
}

/// Requests are woken in the order in which they were queued: at any time those
/// that were woken so far, followed by those that wait, stand in the order in
/// which they entered the queue.
pub proof fn law_woken_in_order(steps: Seq<Step>)
    ensures
        keeps_order(as_queued(woken_in(steps) + run(steps).pending), queued_in(steps)),
    decreases steps.len(),
{
    if steps.len() == 0 {
        lemma_order_itself(Seq::empty());
        assert(as_queued(woken_in(steps) + run(steps).pending) =~= Seq::empty());
    } else {
        let earlier = steps.drop_last();
        let step = steps.last();
        let before = run(earlier);
        let after = run(steps);
        let was = woken_in(earlier) + before.pending;
        let is = woken_in(steps) + after.pending;
        law_woken_in_order(earlier);
        let queued = before.queued_by(step);
        if queued.len() > 0 {
            lemma_order_itself(queued);
            lemma_order_concat(as_queued(was), queued_in(earlier), queued, queued);
            assert(as_queued(is) =~= as_queued(was) + queued);
        } else {
            assert(queued_in(steps) =~= queued_in(earlier));
            // the state in which those who are next are called
            let left = match step {
                Step::Poll { .. } => after,
                Step::Drop { request } => match request.ticket {
                    Some(ticket) => before.forget(ticket),
                    None => before,
                },
                Step::ReleaseRead => before.reader_left(),
                Step::ReleaseWrite => before.writer_left(),
            };
            let woken = before.woken_by(step);
            if step is Poll || (step matches Step::Drop { request } && request.ticket is None) {
                assert(woken + after.pending =~= left.pending);
                lemma_order_itself(left.pending);
            } else {
                lemma_order_after_wake(left);
            }
            lemma_order_itself(woken_in(earlier));
            lemma_order_concat(
                woken_in(earlier),
                woken_in(earlier),
                woken + after.pending,
                left.pending,
            );
            assert(is =~= woken_in(earlier) + (woken + after.pending));
            let middle = woken_in(earlier) + left.pending;
            lemma_order_as_queued(is, middle);
            assert(as_queued(middle) =~= as_queued(was));
            lemma_order_transitive(as_queued(is), as_queued(was), queued_in(steps));
        }
    }
}

/// Whether a request with `ticket` was made before `request`: a request without a
/// ticket is made only now.
pub open spec fn is_earlier(ticket: u64, request: RequestView) -> bool {
    request.ticket matches Some(own) ==> ticket < own
}

/// A called request is let in at its next poll, whatever happened to the cell.
pub proof fn law_called_is_let_in(steps: Seq<Step>, request: RequestView)
    requires
        can_run(steps),
        run(steps).is_called(request),
    ensures
        !run(steps).must_wait(request),
{
    law_writer_is_alone(steps);
    wf_laws::law_called_need_not_wait(run(steps), request);
}

/// Requests are let in in order: at any time a request is let in only when no
/// earlier request that excludes it still waits or is called. Two requests exclude
/// each other unless both are to read. A place of a request that was already let in,
/// and is still to be dropped, does not count.
pub proof fn law_let_in_in_order(steps: Seq<Step>, request: RequestView)
    requires
        can_run(steps),
        run(steps).knows(request),
        !run(steps).must_wait(request),
    ensures
        forall|i: int|
            0 <= i < run(steps).pending.len() && (#[trigger] run(steps).pending[i]).is_live()
                && !run(steps).saw(run(steps).pending[i].ticket) && is_earlier(
                run(steps).pending[i].ticket,
                request,
            ) ==> request.is_reader && run(steps).pending[i].is_reader,
        forall|i: int|
            0 <= i < run(steps).called.len() && is_earlier(
                (#[trigger] run(steps).called[i]).ticket,
                request,
            ) ==> request.is_reader && run(steps).called[i].is_reader,
{
    let state = run(steps);
    law_writer_is_alone(steps);
    if state.is_called(request) {
        let own = Call { is_reader: request.is_reader, ticket: request.ticket->0 };
        let c = choose|c: int| 0 <= c < state.called.len() && state.called[c] == own;
        assert(state.called[c] == own);
        assert forall|i: int|
            0 <= i < state.called.len() && is_earlier(
                (#[trigger] state.called[i]).ticket,
                request,
            ) implies request.is_reader && state.called[i].is_reader by {
            if state.calls_a_writer() {
                assert(i == c);
            }
        }
        assert forall|i: int|
            0 <= i < state.pending.len() && (#[trigger] state.pending[i]).is_live() && !state.saw(
                state.pending[i].ticket,
            ) && is_earlier(state.pending[i].ticket, request) implies request.is_reader
            && state.pending[i].is_reader by {
            let ticket = state.pending[i].ticket;
            assert(state.calls(ticket)) by {
                if !state.calls(ticket) {
                    assert(!state.had_turn(ticket));
                    assert(state.called[c].ticket < state.pending[i].ticket);
                }
            }
            let j = choose|j: int|
                0 <= j < state.called.len() && (#[trigger] state.called[j]).ticket == ticket;
            assert(is_earlier(state.called[j].ticket, request));
            assert(state.called.contains(state.called[j]));
            assert(state.called[j] == (Call { is_reader: true, ticket }));
            assert(state.uses(ticket, true));
            assert(state.uses(ticket, state.pending[i].is_reader));
        }
    } else {
        assert forall|i: int|
            0 <= i < state.pending.len() && (#[trigger] state.pending[i]).is_live() implies false by {
            model::lemma_some_live(state.pending, i);
        }
    }
}

/// A request that has to wait for the first time gets a ticket later than all that
/// are in use.
pub proof fn law_tickets_count_up(steps: Seq<Step>, request: RequestView)
    requires
        can_run(steps),
        request.ticket is None,
        run(steps).next_ticket <= u64::MAX,
    ensures
        forall|i: int|
            0 <= i < run(steps).pending.len() ==> (#[trigger] run(steps).pending[i]).ticket < run(
                steps,
            ).ticket_for(request),
        forall|i: int|
            0 <= i < run(steps).called.len() ==> (#[trigger] run(steps).called[i]).ticket < run(
                steps,
            ).ticket_for(request),
{
    law_writer_is_alone(steps);
}

/// No cell stands still: as long as anyone queues, somebody is inside or was called
/// and is expected.
pub proof fn law_no_standstill(steps: Seq<Step>)
    requires
        can_run(steps),
        run(steps).pending.len() > 0,
    ensures
        run(steps).is_writing || run(steps).reader_count > 0 || run(steps).called.len() > 0,
{
    law_writer_is_alone(steps);
}

/// Whether `step` polls or drops the request with `ticket`.
pub open spec fn concerns(step: Step, ticket: u64) -> bool {
    match step {
        Step::Poll { request, .. } => request.ticket == Some(ticket),
        Step::Drop { request } => request.ticket == Some(ticket),
        _ => false,
    }
}

/// Nobody is lost: a request stays queued or called until it is polled or dropped
/// itself, and once called it stays called. One that was let in is remembered until
/// it is dropped.
pub proof fn law_nobody_is_lost(before: StateView, step: Step, request: RequestView)
    requires
        request.ticket is Some,
        !concerns(step, request.ticket->0),
    ensures
        before.is_called(request) ==> before.after(step).is_called(request),
        before.is_queued(request) ==> before.after(step).is_queued(request) || before.after(
            step,
        ).is_called(request),
        before.has_come(request) ==> before.after(step).has_come(request),
        before.knows(request) ==> before.after(step).knows(request),
{
    match step {
        Step::Poll { request: other, waker } => {
            let after = before.after(step);
            if before.is_queued(request) {
                let i = wf_laws::lemma_place(before, request);
                assert(after.pending[i] == before.pending[i]);
            }
            if let Some(ticket) = other.ticket {
                wf_laws::lemma_uncalled(before.called, ticket);
            }
            if before.has_come(request) {
                let own = Call { is_reader: request.is_reader, ticket: request.ticket->0 };
                let i = choose|i: int| 0 <= i < before.came.len() && before.came[i] == own;
                assert(after.came[i] == own);
            }
        },
        Step::Drop { request: other } => {
            if let Some(ticket) = other.ticket {
                let left = before.forget(ticket);
                wf_laws::lemma_uncalled(before.called, ticket);
                wf_laws::lemma_uncalled(before.came, ticket);
                if before.is_queued(request) {
                    let i = wf_laws::lemma_place(before, request);
                    assert(left.pending[i].is_live());
                }
                lemma_wake_loses_nobody(left, request);
            }
        },
        Step::ReleaseRead => {
            let left = before.reader_left();
            if before.is_queued(request) {
                let i = wf_laws::lemma_place(before, request);
                assert(left.pending[i] == before.pending[i]);
            }
            lemma_wake_loses_nobody(left, request);
        },
        Step::ReleaseWrite => {
            let left = before.writer_left();
            if before.is_queued(request) {
                let i = wf_laws::lemma_place(before, request);
                assert(left.pending[i] == before.pending[i]);
            }
            lemma_wake_loses_nobody(left, request);
        },
    }
}

proof fn lemma_wake_loses_nobody(before: StateView, request: RequestView)
    requires
        request.ticket is Some,
    ensures
        before.is_called(request) ==> before.after_wake().is_called(request),
        before.is_queued(request) ==> before.after_wake().is_queued(request)
            || before.after_wake().is_called(request),
{
    if before.is_free() && before.is_queued(request) {
        let after = before.after_wake();
        let from = model::passed(before.pending);
        let woken = model::woken(before.pending);
        let i = wf_laws::lemma_place(before, request);
        model::lemma_woken(before.pending);
        if i < from {
            assert(woken.contains(before.pending[i]));
            let j = choose|j: int| 0 <= j < woken.len() && woken[j] == before.pending[i];
            assert(after.called[j] == before.pending[i].call());
        } else {
            assert(after.pending[i - from] == before.pending[i]);
        }
    }
}

} // verus!
