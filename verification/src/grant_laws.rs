use core::task::Waker;
use vstd::prelude::*;

use crate::model;
use crate::model::Call;
use crate::model::RequestView;
use crate::model::StateView;
use crate::run_laws;
use crate::run_laws::Step;
use crate::wf_laws;

verus! {

broadcast use vstd::seq_lib::group_filter_ensures;

/// The state after each of `polls` was polled, from left to right.
pub open spec fn poll_each(state: StateView, polls: Seq<(RequestView, Waker)>) -> StateView
    decreases polls.len(),
{
    if polls.len() == 0 {
        state
    } else {
        let (request, waker) = polls.last();
        poll_each(state, polls.drop_last()).after_poll(request, waker)
    }
}

/// Whether each of `polls` is granted, when they are polled from left to right.
pub open spec fn each_granted(state: StateView, polls: Seq<(RequestView, Waker)>) -> bool
    decreases polls.len(),
{
    polls.len() > 0 ==> {
        &&& each_granted(state, polls.drop_last())
        &&& !poll_each(state, polls.drop_last()).must_wait(polls.last().0)
    }
}

/// Read requests proceed at the same time: where no writer is inside or called and
/// there is no place in the queue, not even a dropped one, any number of them is
/// granted, whoever else reads.
pub proof fn law_readers_share(state: StateView, polls: Seq<(RequestView, Waker)>)
    requires
        !state.is_writing,
        !state.calls_a_writer(),
        state.pending.len() == 0,
        forall|i: int| 0 <= i < polls.len() ==> (#[trigger] polls[i]).0.is_reader,
    ensures
        each_granted(state, polls),
        poll_each(state, polls).reader_count == state.reader_count + polls.len(),
        !poll_each(state, polls).is_writing,
        !poll_each(state, polls).calls_a_writer(),
        poll_each(state, polls).pending.len() == 0,
    decreases polls.len(),
{
    if polls.len() > 0 {
        let earlier = polls.drop_last();
        assert forall|i: int| 0 <= i < earlier.len() implies (
        #[trigger] earlier[i]).0.is_reader by {
            assert(earlier[i] == polls[i]);
        }
        law_readers_share(state, earlier);
        let (request, waker) = polls.last();
        assert(polls.last() == polls[polls.len() - 1]);
        let before = poll_each(state, earlier);
        let after = before.after_poll(request, waker);
        if let Some(ticket) = request.ticket {
            wf_laws::lemma_uncalled(before.called, ticket);
        }
    }
}

/// A write request waits for all others to finish: it is let in only when nobody is
/// inside, nobody else is called, and nobody else waits unless it is called itself.
/// Having to wait it changes nothing but the queue.
pub proof fn law_writer_waits_for_all(state: StateView, request: RequestView, waker: Waker)
    requires
        state.wf(),
        state.knows(request),
        !request.is_reader,
    ensures
        !state.must_wait(request) ==> {
            &&& !state.is_writing
            &&& state.reader_count == 0
            &&& forall|i: int|
                0 <= i < state.called.len() ==> request.ticket == Some(
                    (#[trigger] state.called[i]).ticket,
                )
            &&& state.is_called(request) || model::live(state.pending).len() == 0
            &&& state.after_poll(request, waker).is_writing
            &&& state.after_poll(request, waker).reader_count == 0
            &&& state.after_poll(request, waker).called.len() == 0
        },
        state.must_wait(request) ==> {
            let after = state.after_poll(request, waker);
            &&& after.is_writing == state.is_writing
            &&& after.reader_count == state.reader_count
            &&& after.called == state.called
            &&& after.pending.drop_last() == state.pending
            &&& after.pending.last().waker == waker
        },
{
    assert(state.queued(request, waker).pending.drop_last() =~= state.pending);
    if !state.must_wait(request) {
        wf_laws::law_entering_keeps_wf(state, request);
        if state.is_called(request) {
            let own = Call { is_reader: false, ticket: request.ticket->0 };
            let c = choose|c: int| 0 <= c < state.called.len() && state.called[c] == own;
            assert(!state.called[c].is_reader);
        }
    }
}

/// A poll leaves the places in the queue as they are, whatever comes of it: at most
/// it adds one at the back, and being let in it adds none.
pub proof fn law_poll_keeps_places(state: StateView, request: RequestView, waker: Waker)
    ensures
        state.after_poll(request, waker).pending.take(state.pending.len() as int)
            == state.pending,
        !state.must_wait(request) ==> state.after_poll(request, waker).pending == state.pending,
{
    assert(state.after_poll(request, waker).pending.take(state.pending.len() as int)
        =~= state.pending);
}

/// Dropping a request that was let in only passes over the places that it still has:
/// while it is inside nobody is called or woken, and nobody leaves.
pub proof fn law_dropping_inside(state: StateView, request: RequestView, waker: Waker)
    requires
        state.wf(),
        state.knows(request),
        !state.must_wait(request),
        request.ticket is Some,
    ensures
        ({
            let inside = state.after_poll(request, waker);
            let dropped = inside.after_drop(request);
            &&& inside.knows(request)
            &&& inside.woken_by_drop(request).len() == 0
            &&& dropped.pending == model::without(inside.pending, request.ticket->0)
            &&& dropped.called == inside.called
            &&& dropped.is_writing == inside.is_writing
            &&& dropped.reader_count == inside.reader_count
        }),
{
    let ticket = request.ticket->0;
    let inside = state.after_poll(request, waker);
    wf_laws::law_entering_keeps_wf(state, request);
    wf_laws::lemma_uncalled(state.called, ticket);
    assert forall|i: int| 0 <= i < inside.called.len() implies (
    #[trigger] inside.called[i]).ticket != ticket by {
        assert(inside.called.contains(inside.called[i]));
    }
    lemma_uncalled_all(inside.called, ticket);
}

/// Those who are called are let in, all of them and in whatever order they come.
pub proof fn law_all_called_are_let_in(state: StateView, polls: Seq<(RequestView, Waker)>)
    requires
        state.wf(),
        forall|i: int| 0 <= i < polls.len() ==> state.is_called((#[trigger] polls[i]).0),
        forall|i: int, j: int|
            0 <= i < j < polls.len() ==> (#[trigger] polls[i]).0.ticket != (
            #[trigger] polls[j]).0.ticket,
    ensures
        each_granted(state, polls),
{
    lemma_called_are_let_in(state, polls, polls.len() as int);
    assert(polls.take(polls.len() as int) =~= polls);
}

/// After the first `count` of `polls` the others are still called.
proof fn lemma_called_are_let_in(
    state: StateView,
    polls: Seq<(RequestView, Waker)>,
    count: int,
)
    requires
        state.wf(),
        0 <= count <= polls.len(),
        forall|i: int| 0 <= i < polls.len() ==> state.is_called((#[trigger] polls[i]).0),
        forall|i: int, j: int|
            0 <= i < j < polls.len() ==> (#[trigger] polls[i]).0.ticket != (
            #[trigger] polls[j]).0.ticket,
    ensures
        each_granted(state, polls.take(count)),
        poll_each(state, polls.take(count)).wf(),
        forall|i: int|
            count <= i < polls.len() ==> poll_each(state, polls.take(count)).is_called(
                (#[trigger] polls[i]).0,
            ),
    decreases count,
{
    if count > 0 {
        let done = polls.take(count);
        assert(done.drop_last() =~= polls.take(count - 1));
        lemma_called_are_let_in(state, polls, count - 1);
        let before = poll_each(state, polls.take(count - 1));
        let (request, waker) = polls[count - 1];
        assert(done.last() == polls[count - 1]);
        assert(before.is_called(polls[count - 1].0));
        wf_laws::law_called_need_not_wait(before, request);
        wf_laws::law_entering_keeps_wf(before, request);
        let step = Step::Poll { request, waker };
        assert forall|i: int| count <= i < polls.len() implies before.after(step).is_called(
            (#[trigger] polls[i]).0,
        ) by {
            assert(before.is_called(polls[i].0));
            assert(polls[count - 1].0.ticket != polls[i].0.ticket);
            run_laws::law_nobody_is_lost(before, step, polls[i].0);
        }
    } else {
        assert(polls.take(0) =~= Seq::empty());
    }
}

/// Who is woken is called: when the cell gets free, each live request that leaves
/// the queue is let in at its next poll.
pub proof fn law_woken_are_called(state: StateView)
    ensures
        forall|i: int|
            0 <= i < state.next_called().len() ==> state.after_wake().is_called(
                RequestView {
                    is_reader: (#[trigger] state.next_called()[i]).is_reader,
                    ticket: Some(state.next_called()[i].ticket),
                },
            ),
{
    if state.is_free() {
        let after = state.after_wake();
        assert forall|i: int| 0 <= i < state.next_called().len() implies after.is_called(
            RequestView {
                is_reader: (#[trigger] state.next_called()[i]).is_reader,
                ticket: Some(state.next_called()[i].ticket),
            },
        ) by {
            assert(after.called[i] == state.next_called()[i].call());
        }
    }
}

/// Leaving undoes entering: whoever comes new to a free cell, and is the only one,
/// leaves it as it was.
pub proof fn law_leaving_undoes_entering(state: StateView, request: RequestView, waker: Waker)
    requires
        state.is_free(),
        state.pending.len() == 0,
        request.ticket is None,
    ensures
        !state.must_wait(request),
        request.is_reader ==> state.after_poll(request, waker).after_read() == state,
        !request.is_reader ==> state.after_poll(request, waker).after_write() == state,
{
    model::lemma_none_live(state.pending);
    model::lemma_woken(state.pending);
    assert(state.pending =~= Seq::empty());
    assert(state.called =~= Seq::empty());
    assert(model::left_waiting(state.pending) =~= state.pending);
    if model::woken(state.pending).len() > 0 {
        assert(state.pending.take(model::passed(state.pending)).contains(
            model::woken(state.pending)[0],
        ));
    }
    assert(model::calls_of(model::woken(state.pending)) =~= state.called);
    if request.is_reader {
        assert(state.after_poll(request, waker).after_read() =~= state);
    } else {
        assert(state.after_poll(request, waker).after_write() =~= state);
    }
}

/// A request that is given up leaves the cell as it was for the others: after it
/// was queued and dropped, the live requests are those of before, and the same are
/// called.
pub proof fn law_giving_up_undoes_queueing(state: StateView, request: RequestView, waker: Waker)
    requires
        state.wf(),
        state.is_settled(),
        request.ticket is None,
        state.next_ticket < u64::MAX,
        state.must_wait(request),
    ensures
        ({
            let queued = state.after_poll(request, waker);
            let gone = queued.after_drop(request.after_poll(state));
            &&& model::live(gone.pending) == model::live(state.pending)
            &&& gone.called == state.called
            &&& gone.is_writing == state.is_writing
            &&& gone.reader_count == state.reader_count
        }),
{
    let ticket = state.ticket_for(request);
    let queued = state.after_poll(request, waker);
    let gone = queued.forget(ticket);
    lemma_uncalled_all(state.called, ticket);
    if state.is_free() {
        model::lemma_none_live(state.pending);
        assert(!state.calls_a_writer());
    }
    reveal(Seq::filter);
    assert(gone.pending.drop_last() =~= state.pending);
}

proof fn lemma_uncalled_all(called: Seq<Call>, ticket: u64)
    requires
        forall|i: int| 0 <= i < called.len() ==> (#[trigger] called[i]).ticket != ticket,
    ensures
        model::uncalled(called, ticket) == called,
    decreases called.len(),
{
    reveal(Seq::filter);
    if called.len() > 0 {
        let earlier = called.drop_last();
        assert(called.last() == called[called.len() - 1]);
        assert forall|i: int| 0 <= i < earlier.len() implies (
        #[trigger] earlier[i]).ticket != ticket by {
            assert(earlier[i] == called[i]);
        }
        lemma_uncalled_all(earlier, ticket);
        assert(earlier.push(called.last()) =~= called);
    }
}

} // verus!
