use core::task::Waker;
use vstd::prelude::*;

use crate::cell::CellView;
use crate::model;
use crate::model::Call;
use crate::model::RequestView;
use crate::model::StateView;
use crate::model::WaitingView;
use crate::queue_laws;
use crate::wf_laws;

verus! {

broadcast use vstd::seq_lib::group_filter_ensures;

/// Waking takes one waker for each place, its own and in order, and calls its
/// request.
pub proof fn law_one_waker_and_one_call_each(entries: Seq<WaitingView>)
    ensures
        model::wakers_of(entries).len() == entries.len(),
        model::calls_of(entries).len() == entries.len(),
        forall|i: int|
            0 <= i < entries.len() ==> #[trigger] model::wakers_of(entries)[i] == entries[i].waker,
        forall|i: int|
            0 <= i < entries.len() ==> {
                &&& (#[trigger] model::calls_of(entries)[i]).is_reader == entries[i].is_reader
                &&& model::calls_of(entries)[i].ticket == entries[i].ticket
            },
{
}

/// A new cell has nobody inside, nobody called and nobody queued.
pub proof fn law_new_cell_is_empty()
    ensures
        StateView::initial().pending.len() == 0,
        StateView::initial().called.len() == 0,
        StateView::initial().came.len() == 0,
        !StateView::initial().is_writing,
        StateView::initial().reader_count == 0,
        StateView::initial().next_ticket == 0,
{
}

/// While somebody is inside or expected, nobody is woken and nothing changes.
pub proof fn law_nobody_wakes_too_early(state: StateView)
    requires
        state.is_writing || state.reader_count > 0 || state.called.len() > 0,
    ensures
        state.next_called().len() == 0,
        state.after_wake() == state,
{
}

/// When a cell is free, a front part of the queue leaves it. Every request of that
/// part that was not dropped is woken and called, in order, and the rest of the queue
/// stays. The requests woken are all readers, up to the next writer or the end of the
/// queue, or one writer that had only dropped places before it.
pub proof fn law_free_cell_wakes_who_is_next(state: StateView)
    requires
        !state.is_writing,
        state.reader_count == 0,
        state.called.len() == 0,
    ensures
        ({
            let after = state.after_wake();
            let woken = state.next_called();
            let gone = state.pending.len() - after.pending.len();
            &&& 0 <= gone
            &&& after.pending == state.pending.skip(gone)
            &&& woken == state.pending.take(gone).filter(|entry: WaitingView| !entry.dropped)
            &&& after.called.len() == woken.len()
            &&& forall|i: int|
                0 <= i < woken.len() ==> (#[trigger] after.called[i]).is_reader
                    == woken[i].is_reader && after.called[i].ticket == woken[i].ticket
            &&& {
                ||| {
                    &&& forall|i: int|
                        0 <= i < gone ==> (#[trigger] state.pending[i]).dropped
                            || state.pending[i].is_reader
                    &&& gone < state.pending.len() ==> woken.len() > 0
                        && !state.pending[gone].dropped && !state.pending[gone].is_reader
                }
                ||| {
                    &&& gone > 0
                    &&& !state.pending[gone - 1].dropped
                    &&& !state.pending[gone - 1].is_reader
                    &&& forall|i: int| 0 <= i < gone - 1 ==> (#[trigger] state.pending[i]).dropped
                }
            }
            &&& after.came == state.came
            &&& !after.is_writing
            &&& after.reader_count == 0
            &&& after.next_ticket == state.next_ticket
        }),
{
    let after = state.after_wake();
    let woken = state.next_called();
    let pending = state.pending;
    let gone = pending.len() - after.pending.len();
    model::lemma_first_writer(pending);
    model::lemma_woken(pending);
    assert(gone == model::passed(pending));
    let is_live = |entry: WaitingView| entry.is_live();
    let undropped = |entry: WaitingView| !entry.dropped;
    assert(is_live =~= undropped);
    let ahead = model::ahead_of_writer(pending) as int;
    let front = pending.take(ahead);
    if model::writer_is_next(pending) {
        model::lemma_live_step(pending, ahead);
        assert(model::live(front) =~= Seq::empty());
        assert(model::live(pending.take(gone)) =~= seq![pending[ahead]]);
        assert forall|i: int| 0 <= i < gone - 1 implies (#[trigger] pending[i]).dropped by {
            if !pending[i].dropped {
                assert(front[i] == pending[i]);
                model::lemma_some_live(front, i);
            }
        }
    } else {
        assert forall|i: int| 0 <= i < gone implies (#[trigger] pending[i]).dropped
            || pending[i].is_reader by {
            assert(!pending[i].is_live_writer());
        }
    }
}

/// If anybody waits who was not dropped, a cell that gets free wakes somebody: when
/// a reader leaves, when the writer leaves, and when a called request is dropped.
pub proof fn law_waiting_is_ended(state: StateView, i: int)
    requires
        0 <= i < state.pending.len(),
        !state.pending[i].dropped,
    ensures
        !state.is_writing && state.reader_count == 1 && state.called.len() == 0
            ==> state.woken_by_read().len() > 0,
        state.reader_count == 0 && state.called.len() == 0 ==> state.woken_by_write().len() > 0,
        forall|request: RequestView|
            !state.is_writing && state.reader_count == 0 && request.ticket is Some
                && request.ticket != Some(state.pending[i].ticket) && (forall|j: int|
                0 <= j < state.called.len() ==> request.ticket == Some(
                    (#[trigger] state.called[j]).ticket,
                )) ==> (#[trigger] state.woken_by_drop(request)).len() > 0,
{
    model::lemma_some_live(state.pending, i);
    queue_laws::law_somebody_wakes(state.pending);
    assert forall|request: RequestView|
        !state.is_writing && state.reader_count == 0 && request.ticket is Some && request.ticket
            != Some(state.pending[i].ticket) && (forall|j: int|
            0 <= j < state.called.len() ==> request.ticket == Some(
                (#[trigger] state.called[j]).ticket,
            )) implies (#[trigger] state.woken_by_drop(request)).len() > 0 by {
        let ticket = request.ticket->0;
        let gone = state.forget(ticket);
        wf_laws::lemma_uncalled(state.called, ticket);
        if gone.called.len() > 0 {
            assert(gone.called.contains(gone.called[0]));
            let j = choose|j: int|
                0 <= j < state.called.len() && state.called[j] == gone.called[0];
            assert(state.called[j].ticket == ticket);
        }
        assert(!gone.pending[i].dropped);
        model::lemma_some_live(gone.pending, i);
        queue_laws::law_somebody_wakes(gone.pending);
    }
}

/// A reader that leaves counts down, and the cell is handed on as any that is free:
/// whoever gets called is woken, one for one and in order.
pub proof fn law_reader_hands_on(state: StateView)
    requires
        state.reader_count > 0,
    ensures
        ({
            let left = StateView { reader_count: (state.reader_count - 1) as nat, ..state };
            &&& state.after_read() == left.after_wake()
            &&& state.woken_by_read() == left.next_called()
        }),
        state.after_read().reader_count == state.reader_count - 1,
        state.after_read().is_writing == state.is_writing,
        state.called.len() == 0 ==> {
            let woken = state.woken_by_read();
            let called = state.after_read().called;
            &&& called.len() == woken.len()
            &&& forall|i: int|
                0 <= i < woken.len() ==> (#[trigger] called[i]).is_reader == woken[i].is_reader
                    && called[i].ticket == woken[i].ticket
        },
        state.called.len() > 0 ==> state.woken_by_read().len() == 0 && state.after_read().called
            == state.called,
        state.reader_count > 1 ==> state.woken_by_read().len() == 0 && state.after_read().pending
            == state.pending,
{
}

/// A writer that leaves is no longer inside, and the cell is handed on as any that is
/// free: whoever gets called is woken, one for one and in order.
pub proof fn law_writer_hands_on(state: StateView)
    ensures
        ({
            let left = StateView { is_writing: false, ..state };
            &&& state.after_write() == left.after_wake()
            &&& state.woken_by_write() == left.next_called()
        }),
        !state.after_write().is_writing,
        state.after_write().reader_count == state.reader_count,
        state.called.len() == 0 ==> {
            let woken = state.woken_by_write();
            let called = state.after_write().called;
            &&& called.len() == woken.len()
            &&& forall|i: int|
                0 <= i < woken.len() ==> (#[trigger] called[i]).is_reader == woken[i].is_reader
                    && called[i].ticket == woken[i].ticket
        },
        state.called.len() > 0 ==> state.woken_by_write().len() == 0 && state.after_write().called
            == state.called,
{
}

/// Dropping a request marks its places and no others, takes its marks and no others,
/// and hands a cell on that gets free. A request that never had to wait leaves
/// everything as it is.
pub proof fn law_drop_is_for_one_request(state: StateView, request: RequestView)
    ensures
        request.ticket is None ==> state.after_drop(request) == state && state.woken_by_drop(
            request,
        ).len() == 0,
        request.ticket matches Some(ticket) ==> {
            let gone = StateView {
                pending: Seq::new(
                    state.pending.len(),
                    |i: int|
                        WaitingView {
                            is_reader: state.pending[i].is_reader,
                            waker: state.pending[i].waker,
                            dropped: state.pending[i].dropped || state.pending[i].ticket == ticket,
                            ticket: state.pending[i].ticket,
                        },
                ),
                called: state.called.filter(|call: Call| call.ticket != ticket),
                came: state.came.filter(|call: Call| call.ticket != ticket),
                is_writing: state.is_writing,
                reader_count: state.reader_count,
                next_ticket: state.next_ticket,
            };
            &&& state.after_drop(request) == gone.after_wake()
            &&& state.woken_by_drop(request) == gone.next_called()
        },
        state.after_drop(request).is_writing == state.is_writing,
        state.after_drop(request).reader_count == state.reader_count,
        state.after_drop(request).next_ticket == state.next_ticket,
{
    if let Some(ticket) = request.ticket {
        let places = Seq::new(
            state.pending.len(),
            |i: int|
                WaitingView {
                    is_reader: state.pending[i].is_reader,
                    waker: state.pending[i].waker,
                    dropped: state.pending[i].dropped || state.pending[i].ticket == ticket,
                    ticket: state.pending[i].ticket,
                },
        );
        assert(model::without(state.pending, ticket) =~= places);
    }
}

/// Whoever is called by a release or a drop is woken by it: a request that is called
/// after and was not before has its waker among those handed out.
pub proof fn law_who_gets_called_is_woken(state: StateView, request: RequestView)
    ensures
        forall|call: Call| #[trigger]
            state.after_read().called.contains(call) && !state.called.contains(call) ==> exists|i: int|
                0 <= i < state.woken_by_read().len() && call.is_reader == (
                #[trigger] state.woken_by_read()[i]).is_reader && call.ticket
                    == state.woken_by_read()[i].ticket,
        forall|call: Call| #[trigger]
            state.after_write().called.contains(call) && !state.called.contains(call) ==> exists|
                i: int,
            |
                0 <= i < state.woken_by_write().len() && call.is_reader == (
                #[trigger] state.woken_by_write()[i]).is_reader && call.ticket
                    == state.woken_by_write()[i].ticket,
        forall|call: Call| #[trigger]
            state.after_drop(request).called.contains(call) && !state.called.contains(call)
                ==> exists|i: int|
                0 <= i < state.woken_by_drop(request).len() && call.is_reader == (
                #[trigger] state.woken_by_drop(request)[i]).is_reader && call.ticket
                    == state.woken_by_drop(request)[i].ticket,
{
    lemma_called_is_woken(state.reader_left());
    assert(state.woken_by_read() == state.reader_left().next_called());
    lemma_called_is_woken(state.writer_left());
    assert(state.woken_by_write() == state.writer_left().next_called());
    if let Some(ticket) = request.ticket {
        let gone = state.forget(ticket);
        lemma_called_is_woken(gone);
        assert(state.woken_by_drop(request) == gone.next_called());
        assert(state.after_drop(request) == gone.after_wake());
        assert forall|call: Call| gone.called.contains(call) implies state.called.contains(
            call,
        ) by {
            wf_laws::lemma_uncalled(state.called, ticket);
        }
    }
}

proof fn lemma_called_is_woken(state: StateView)
    ensures
        forall|call: Call| #[trigger]
            state.after_wake().called.contains(call) && !state.called.contains(call) ==> exists|
                i: int,
            |
                0 <= i < state.next_called().len() && call.is_reader == (
                #[trigger] state.next_called()[i]).is_reader && call.ticket
                    == state.next_called()[i].ticket,
{
    let after = state.after_wake();
    assert forall|call: Call| #[trigger]
        after.called.contains(call) && !state.called.contains(call) implies exists|i: int|
        0 <= i < state.next_called().len() && call.is_reader == (
        #[trigger] state.next_called()[i]).is_reader && call.ticket
            == state.next_called()[i].ticket by {
        let i = choose|i: int| 0 <= i < after.called.len() && after.called[i] == call;
        assert(after.called[i] == state.next_called()[i].call());
    }
}

/// A poll that has to wait, of a reader as well as of a writer and however often it
/// was polled before, adds exactly one live place at the back, with the waker just
/// given, and touches nobody else.
pub proof fn law_waiting_poll_adds_a_place(state: StateView, request: RequestView, waker: Waker)
    requires
        state.must_wait(request),
    ensures
        ({
            let after = state.after_poll(request, waker);
            let place = after.pending.last();
            &&& after.pending == state.pending.push(place)
            &&& place.waker == waker
            &&& place.is_reader == request.is_reader
            &&& !place.dropped
            &&& request.ticket matches Some(ticket) ==> place.ticket == ticket
                && after.next_ticket == state.next_ticket
            &&& request.ticket is None && state.next_ticket < u64::MAX ==> place.ticket
                == state.next_ticket && after.next_ticket == state.next_ticket + 1
            &&& after.called == state.called
            &&& after.came == state.came
            &&& after.is_writing == state.is_writing
            &&& after.reader_count == state.reader_count
            &&& request.after_poll(state).is_reader == request.is_reader
            &&& request.after_poll(state).ticket == Some(place.ticket)
        }),
{
    let after = state.after_poll(request, waker);
    assert(after.pending =~= state.pending.push(after.pending.last()));
}

/// A poll that is granted lets one more reader or the writer in. It leaves the queue
/// and the request as they are, takes the calls of this request and no others, and
/// remembers a request that had to wait. Dropping the request then wakes nobody.
pub proof fn law_granted_poll_enters(state: StateView, request: RequestView, waker: Waker)
    requires
        !state.must_wait(request),
    ensures
        ({
            let after = state.after_poll(request, waker);
            &&& after.pending == state.pending
            &&& after.reader_count == state.reader_count + (if request.is_reader {
                1int
            } else {
                0
            })
            &&& after.is_writing == (state.is_writing || !request.is_reader)
            &&& after.next_ticket == state.next_ticket
            &&& request.ticket is None ==> after.called == state.called && after.came == state.came
            &&& request.ticket matches Some(ticket) ==> {
                &&& after.called == state.called.filter(|call: Call| call.ticket != ticket)
                &&& after.came == state.came.push(Call { is_reader: request.is_reader, ticket })
            }
            &&& request.after_poll(state) == request
            &&& after.woken_by_drop(request).len() == 0
        }),
{
}

/// Nobody is let in beside a writer, and no writer beside readers. Otherwise who is
/// called is let in.
pub proof fn law_who_is_inside_decides(state: StateView, request: RequestView)
    ensures
        state.is_writing ==> state.must_wait(request),
        !request.is_reader && state.reader_count > 0 ==> state.must_wait(request),
        request.ticket is Some && state.called.contains(
            Call { is_reader: request.is_reader, ticket: request.ticket->0 },
        ) && !state.is_writing && (request.is_reader || state.reader_count == 0)
            ==> !state.must_wait(request),
{
}

/// Who was not called is let in only if that keeps out nobody who came earlier. A
/// read request is let in, however many readers are inside, if there is no writer
/// inside, no place in the queue and no writer called. A write request is let in if
/// nobody is inside, nobody is called and every place in the queue is dropped.
pub proof fn law_newcomers_wait_their_turn(state: StateView, request: RequestView)
    requires
        request.ticket matches Some(ticket) ==> !state.called.contains(
            Call { is_reader: request.is_reader, ticket },
        ),
    ensures
        request.is_reader ==> (!state.must_wait(request) <==> !state.is_writing
            && state.pending.len() == 0 && (forall|i: int|
            0 <= i < state.called.len() ==> (#[trigger] state.called[i]).is_reader)),
        !request.is_reader ==> (!state.must_wait(request) <==> !state.is_writing
            && state.reader_count == 0 && state.called.len() == 0 && (forall|i: int|
            0 <= i < state.pending.len() ==> (#[trigger] state.pending[i]).dropped)),
{
    if forall|i: int| 0 <= i < state.pending.len() ==> (#[trigger] state.pending[i]).dropped {
        model::lemma_none_live(state.pending);
    } else {
        let i = choose|i: int|
            0 <= i < state.pending.len() && !(#[trigger] state.pending[i]).dropped;
        model::lemma_some_live(state.pending, i);
    }
}

/// A request has room unless a counter is used up.
pub proof fn law_room_until_a_counter_is_full(state: StateView, request: RequestView)
    ensures
        state.reader_count < usize::MAX && state.next_ticket < u64::MAX ==> state.has_room_for(
            request,
        ),
        !request.is_reader && request.ticket is Some ==> state.has_room_for(request),
        !state.must_wait(request) && !request.is_reader ==> state.has_room_for(request),
        !state.must_wait(request) && state.reader_count < usize::MAX ==> state.has_room_for(
            request,
        ),
        state.must_wait(request) && request.ticket is Some ==> state.has_room_for(request),
        state.must_wait(request) && state.next_ticket < u64::MAX ==> state.has_room_for(request),
{
}

/// A request that has room does not overrun a counter, whether it has to wait or is
/// let in.
pub proof fn law_room_is_enough(state: StateView, request: RequestView, waker: Waker)
    requires
        state.has_room_for(request),
        state.reader_count <= usize::MAX,
        state.next_ticket <= u64::MAX,
    ensures
        state.after_poll(request, waker).reader_count <= usize::MAX,
        state.after_poll(request, waker).next_ticket <= u64::MAX,
{
}

/// A cell knows every request that never had to wait, every one with a place that was
/// not dropped, every one that it called and every one that it let in, and no others.
pub proof fn law_known_requests(state: StateView, request: RequestView)
    ensures
        request.ticket is None ==> state.knows(request),
        request.ticket matches Some(ticket) ==> (state.knows(request) <==> {
            ||| exists|i: int|
                0 <= i < state.pending.len() && !(#[trigger] state.pending[i]).dropped
                    && state.pending[i].ticket == ticket && state.pending[i].is_reader
                    == request.is_reader
            ||| state.called.contains(Call { is_reader: request.is_reader, ticket })
            ||| state.came.contains(Call { is_reader: request.is_reader, ticket })
        }),
{
    if request.ticket is Some {
        let ticket = request.ticket->0;
        if exists|i: int|
            0 <= i < state.pending.len() && !(#[trigger] state.pending[i]).dropped
                && state.pending[i].ticket == ticket && state.pending[i].is_reader
                == request.is_reader {
            let i = choose|i: int|
                0 <= i < state.pending.len() && !(#[trigger] state.pending[i]).dropped
                    && state.pending[i].ticket == ticket && state.pending[i].is_reader
                    == request.is_reader;
            assert(state.pending[i].is_live());
        }
        if state.is_queued(request) {
            let i = wf_laws::lemma_place(state, request);
            assert(!state.pending[i].dropped);
        }
    }
}

/// A cell keeps its value whatever becomes of requests and permits, and lets in and
/// hands on as its state does. A request that is granted is over, so that it is
/// dropped at once.
pub proof fn law_cell_keeps_its_value<T>(cell: CellView<T>, request: RequestView, waker: Waker)
    ensures
        cell.after_poll(request, waker).value == cell.value,
        cell.after_cancel(request).value == cell.value,
        cell.after_read().value == cell.value,
        cell.after_write().value == cell.value,
        cell.state.must_wait(request) ==> cell.after_poll(request, waker).state
            == cell.state.after_poll(request, waker),
        !cell.state.must_wait(request) ==> cell.after_poll(request, waker).state
            == cell.state.after_poll(request, waker).after_drop(request),
        cell.after_cancel(request).state == cell.state.after_drop(request),
        cell.after_read().state == cell.state.after_read(),
        cell.after_write().state == cell.state.after_write(),
        CellView::initial(cell.value).value == cell.value,
        CellView::initial(cell.value).state == StateView::initial(),
{
}

} // verus!
