use core::task::Waker;
use vstd::prelude::*;

use crate::model;
use crate::model::Call;
use crate::model::RequestView;
use crate::model::StateView;

verus! {

broadcast use vstd::seq_lib::group_filter_ensures;

/// Of the marks, those of the others are kept.
pub(crate) proof fn lemma_uncalled(calls: Seq<Call>, ticket: u64)
    ensures
        forall|call: Call|
            #![trigger model::uncalled(calls, ticket).contains(call)]
            model::uncalled(calls, ticket).contains(call) <==> calls.contains(call) && call.ticket
                != ticket,
        forall|other: u64|
            #![trigger model::marks(model::uncalled(calls, ticket), other)]
            model::marks(model::uncalled(calls, ticket), other) <==> model::marks(calls, other)
                && other != ticket,
        model::marks_a_writer(model::uncalled(calls, ticket)) ==> model::marks_a_writer(calls),
        model::uncalled(calls, ticket).len() <= calls.len(),
{
    let others = |call: Call| call.ticket != ticket;
    let kept = model::uncalled(calls, ticket);
    assert forall|call: Call| kept.contains(call) <==> calls.contains(call) && call.ticket
        != ticket by {
        if kept.contains(call) {
            let i = choose|i: int| 0 <= i < kept.len() && kept[i] == call;
            assert(others(calls.filter(others)[i]));
            calls.lemma_filter_contains_rev(others, call);
        }
        if calls.contains(call) && call.ticket != ticket {
            let i = choose|i: int| 0 <= i < calls.len() && calls[i] == call;
            assert(others(calls[i]));
        }
    }
    assert forall|other: u64| model::marks(kept, other) <==> model::marks(calls, other) && other
        != ticket by {
        if model::marks(kept, other) {
            let i = choose|i: int| 0 <= i < kept.len() && (#[trigger] kept[i]).ticket == other;
            assert(kept.contains(kept[i]));
            let j = choose|j: int| 0 <= j < calls.len() && calls[j] == kept[i];
            assert(calls[j].ticket == other);
        }
        if model::marks(calls, other) && other != ticket {
            let i = choose|i: int| 0 <= i < calls.len() && (#[trigger] calls[i]).ticket == other;
            assert(calls.contains(calls[i]));
            assert(kept.contains(calls[i]));
            let j = choose|j: int| 0 <= j < kept.len() && kept[j] == calls[i];
            assert(kept[j].ticket == other);
        }
    }
    if model::marks_a_writer(kept) {
        let i = choose|i: int| 0 <= i < kept.len() && !(#[trigger] kept[i]).is_reader;
        assert(kept.contains(kept[i]));
        let j = choose|j: int| 0 <= j < calls.len() && calls[j] == kept[i];
        assert(!calls[j].is_reader);
    }
}

/// The place that a queued request has.
pub(crate) proof fn lemma_place(state: StateView, request: RequestView) -> (i: int)
    requires
        state.is_queued(request),
    ensures
        0 <= i < state.pending.len(),
        state.pending[i].is_live(),
        request.ticket == Some(state.pending[i].ticket),
        request.is_reader == state.pending[i].is_reader,
{
    choose|i: int|
        {
            &&& 0 <= i < state.pending.len()
            &&& (#[trigger] state.pending[i]).is_live()
            &&& request.ticket == Some(state.pending[i].ticket)
            &&& request.is_reader == state.pending[i].is_reader
        }
}

/// The tickets in use are those that were handed out.
proof fn lemma_used_is_known(state: StateView, ticket: u64, is_reader: bool)
    requires
        state.tickets_are_known(),
        state.uses(ticket, is_reader),
    ensures
        ticket < state.next_ticket,
{
    let mark = Call { is_reader, ticket };
    if state.called.contains(mark) {
        let i = choose|i: int| 0 <= i < state.called.len() && state.called[i] == mark;
        assert(state.called[i].ticket == ticket);
    } else if state.came.contains(mark) {
        let i = choose|i: int| 0 <= i < state.came.len() && state.came[i] == mark;
        assert(state.came[i].ticket == ticket);
    }
}

/// A known request uses its ticket.
proof fn lemma_known_is_used(state: StateView, request: RequestView)
    requires
        state.knows(request),
        request.ticket is Some,
    ensures
        state.uses(request.ticket->0, request.is_reader),
{
    if state.is_queued(request) {
        let i = lemma_place(state, request);
        assert(state.pending[i].ticket == request.ticket->0);
    }
}

/// Taking away a request with its places and marks keeps the invariant.
pub proof fn law_forget_keeps_wf(before: StateView, ticket: u64)
    requires
        before.wf(),
    ensures
        before.forget(ticket).wf(),
{
    let after = before.forget(ticket);
    lemma_uncalled(before.called, ticket);
    lemma_uncalled(before.came, ticket);
    assert(after.writer_is_alone());
    assert(after.tickets_are_known()) by {
        assert forall|i: int| 0 <= i < after.called.len() implies (
        #[trigger] after.called[i]).ticket < after.next_ticket by {
            assert(after.called.contains(after.called[i]));
        }
        assert forall|i: int| 0 <= i < after.came.len() implies (
        #[trigger] after.came[i]).ticket < after.next_ticket by {
            assert(after.came.contains(after.came[i]));
        }
    }
    assert forall|other: u64, is_reader: bool| #[trigger]
        after.uses(other, is_reader) implies before.uses(other, is_reader) by {
        if !before.called.contains(Call { is_reader, ticket: other }) && !before.came.contains(
            Call { is_reader, ticket: other },
        ) {
            let i = choose|i: int|
                0 <= i < after.pending.len() && (#[trigger] after.pending[i]).ticket == other
                    && after.pending[i].is_reader == is_reader;
            assert(before.pending[i].ticket == other);
        }
    }
    assert(after.kinds_agree()) by {
        assert forall|other: u64| !(#[trigger] after.uses(other, true) && after.uses(other, false)) by {
            if after.uses(other, true) && after.uses(other, false) {
                assert(before.uses(other, true));
            }
        }
    }
    assert(after.called_are_first()) by {
        assert forall|i: int, j: int|
            #![trigger after.called[i], after.pending[j]]
            0 <= i < after.called.len() && 0 <= j < after.pending.len()
                && after.pending[j].is_live() && !after.had_turn(
                after.pending[j].ticket,
            ) implies after.called[i].ticket < after.pending[j].ticket by {
            assert(after.called.contains(after.called[i]));
            let k = choose|k: int|
                0 <= k < before.called.len() && before.called[k] == after.called[i];
            assert(before.pending[j].is_live());
            assert(!before.had_turn(before.pending[j].ticket));
            assert(before.called[k].ticket < before.pending[j].ticket);
        }
    }
    assert(after.queue_is_ordered()) by {
        assert forall|i: int, j: int|
            #![trigger after.pending[i], after.pending[j]]
            0 <= i < j < after.pending.len() && after.pending[i].is_live()
                && after.pending[j].is_live() && after.pending[j].ticket < after.pending[i].ticket
                && !after.had_turn(after.pending[j].ticket) implies model::has_place(
            after.pending,
            i,
            after.pending[j].ticket,
        ) by {
            assert(before.pending[i].is_live() && before.pending[j].is_live());
            assert(!before.had_turn(before.pending[j].ticket));
            assert(model::has_place(before.pending, i, before.pending[j].ticket));
            let k = choose|k: int|
                0 <= k < i && (#[trigger] before.pending[k]).is_live() && before.pending[k].ticket
                    == before.pending[j].ticket;
            assert(after.pending[k].is_live());
        }
    }
}

/// Queueing a request that has to wait keeps the invariant, and leaves the request
/// known.
pub proof fn law_queueing_keeps_wf(before: StateView, request: RequestView, waker: Waker)
    requires
        before.wf(),
        before.knows(request),
        before.must_wait(request),
        before.has_room_for(request),
    ensures
        before.queued(request, waker).wf(),
        before.queued(request, waker).is_queued(request.after_poll(before)),
{
    let after = before.queued(request, waker);
    let last = before.pending.len() as int;
    let ticket = before.ticket_for(request);
    assert(after.pending[last].ticket == ticket);
    assert(after.called == before.called && after.came == before.came);
    if before.is_called(request) {
        law_called_need_not_wait(before, request);
    }
    if request.ticket is Some {
        lemma_known_is_used(before, request);
        lemma_used_is_known(before, ticket, request.is_reader);
    }
    assert(after.tickets_are_known());
    assert forall|other: u64, is_reader: bool| #[trigger]
        after.uses(other, is_reader) implies before.uses(other, is_reader) || (other == ticket
        && is_reader == request.is_reader) by {
        if !before.called.contains(Call { is_reader, ticket: other }) && !before.came.contains(
            Call { is_reader, ticket: other },
        ) {
            let i = choose|i: int|
                0 <= i < after.pending.len() && (#[trigger] after.pending[i]).ticket == other
                    && after.pending[i].is_reader == is_reader;
            if i < last {
                assert(before.pending[i].ticket == other);
            }
        }
    }
    assert(after.kinds_agree()) by {
        assert forall|other: u64| !(#[trigger] after.uses(other, true) && after.uses(other, false)) by {
            if after.uses(other, true) && after.uses(other, false) {
                if request.ticket is None && other == ticket {
                    if before.uses(other, !request.is_reader) {
                        lemma_used_is_known(before, other, !request.is_reader);
                    }
                }
                assert(!(before.uses(other, true) && before.uses(other, false)));
            }
        }
    }
    assert(after.called_are_first()) by {
        assert forall|i: int, j: int|
            #![trigger after.called[i], after.pending[j]]
            0 <= i < after.called.len() && 0 <= j < after.pending.len()
                && after.pending[j].is_live() && !after.had_turn(
                after.pending[j].ticket,
            ) implies after.called[i].ticket < after.pending[j].ticket by {
            if j < last {
                assert(before.pending[j] == after.pending[j]);
                assert(before.called[i].ticket < before.pending[j].ticket);
            } else if request.ticket is Some {
                lemma_unturned_is_queued(before, request);
                let k = lemma_place(before, request);
                assert(before.called[i].ticket < before.pending[k].ticket);
            }
        }
    }
    assert(after.queue_is_ordered()) by {
        assert forall|i: int, j: int|
            #![trigger after.pending[i], after.pending[j]]
            0 <= i < j < after.pending.len() && after.pending[i].is_live()
                && after.pending[j].is_live() && after.pending[j].ticket < after.pending[i].ticket
                && !after.had_turn(after.pending[j].ticket) implies model::has_place(
            after.pending,
            i,
            after.pending[j].ticket,
        ) by {
            assert(before.pending[i] == after.pending[i]);
            if j < last {
                assert(before.pending[j] == after.pending[j]);
                assert(model::has_place(before.pending, i, before.pending[j].ticket));
                let k = choose|k: int|
                    0 <= k < i && (#[trigger] before.pending[k]).is_live()
                        && before.pending[k].ticket == before.pending[j].ticket;
                assert(after.pending[k].is_live());
            } else {
                lemma_unturned_is_queued(before, request);
                let k = lemma_place(before, request);
                if k < i {
                    assert(after.pending[k].is_live());
                } else {
                    assert(model::has_place(before.pending, i, before.pending[k].ticket));
                    let m = choose|m: int|
                        0 <= m < i && (#[trigger] before.pending[m]).is_live()
                            && before.pending[m].ticket == before.pending[k].ticket;
                    assert(after.pending[m].is_live());
                }
            }
        }
    }
    assert(after.pending[last].is_live());
}

/// A known request that had to wait and had no turn is queued.
proof fn lemma_unturned_is_queued(state: StateView, request: RequestView)
    requires
        state.knows(request),
        request.ticket is Some,
        !state.had_turn(request.ticket->0),
    ensures
        state.is_queued(request),
{
    let mark = Call { is_reader: request.is_reader, ticket: request.ticket->0 };
    if state.is_called(request) {
        let i = choose|i: int| 0 <= i < state.called.len() && state.called[i] == mark;
        assert(state.called[i].ticket == mark.ticket);
    } else if state.has_come(request) {
        let i = choose|i: int| 0 <= i < state.came.len() && state.came[i] == mark;
        assert(state.came[i].ticket == mark.ticket);
    }
}

/// Whoever is called is let in.
pub proof fn law_called_need_not_wait(state: StateView, request: RequestView)
    requires
        state.wf(),
        state.is_called(request),
    ensures
        !state.must_wait(request),
{
    let call = Call { is_reader: request.is_reader, ticket: request.ticket->0 };
    let i = choose|i: int| 0 <= i < state.called.len() && state.called[i] == call;
    assert(state.called[i] == call);
    if !request.is_reader {
        assert(state.calls_a_writer());
    }
}

/// Calling who is next keeps the invariant, and leaves nobody in front of a free
/// cell.
pub proof fn law_wake_keeps_wf(before: StateView)
    requires
        before.wf(),
    ensures
        before.after_wake().wf(),
        before.after_wake().is_settled(),
{
    if before.is_free() {
        let after = before.after_wake();
        let from = model::passed(before.pending);
        let woken = model::woken(before.pending);
        model::lemma_woken(before.pending);
        assert forall|i: int| 0 <= i < woken.len() implies exists|a: int|
            0 <= a < from && before.pending[a] == #[trigger] woken[i] by {
            let gone = before.pending.take(from);
            let a = choose|a: int| 0 <= a < gone.len() && gone[a] == woken[i];
            assert(before.pending[a] == woken[i]);
        }
        assert forall|j: int|
            0 <= j < from && (#[trigger] before.pending[j]).is_live() implies after.calls(
            before.pending[j].ticket,
        ) by {
            let i = choose|i: int| 0 <= i < woken.len() && woken[i] == before.pending[j];
            assert(after.called[i].ticket == before.pending[j].ticket);
        }
        assert forall|ticket: u64| !before.calls(ticket) by {}
        assert(after.writer_is_alone()) by {
            if after.calls_a_writer() {
                let i = choose|i: int|
                    0 <= i < after.called.len() && !(#[trigger] after.called[i]).is_reader;
                assert(!woken[i].is_reader);
            }
        }
        assert forall|i: int| 0 <= i < after.called.len() implies (
        #[trigger] after.called[i]).ticket < after.next_ticket by {
            assert(after.called[i] == woken[i].call());
        }
        assert forall|ticket: u64, is_reader: bool| #[trigger]
            after.uses(ticket, is_reader) implies before.uses(ticket, is_reader) by {
            let mark = Call { is_reader, ticket };
            if after.called.contains(mark) {
                let i = choose|i: int| 0 <= i < after.called.len() && after.called[i] == mark;
                let a = choose|a: int| 0 <= a < from && before.pending[a] == woken[i];
                assert(after.called[i] == woken[i].call());
                assert(before.pending[a].ticket == ticket);
            } else if !after.came.contains(mark) {
                let i = choose|i: int|
                    0 <= i < after.pending.len() && (#[trigger] after.pending[i]).ticket == ticket
                        && after.pending[i].is_reader == is_reader;
                assert(before.pending[i + from] == after.pending[i]);
            }
        }
        assert(after.kinds_agree()) by {
            assert forall|ticket: u64| !(#[trigger] after.uses(ticket, true) && after.uses(
                ticket,
                false,
            )) by {
                if after.uses(ticket, true) && after.uses(ticket, false) {
                    assert(before.uses(ticket, true));
                }
            }
        }
        assert(after.called_are_first()) by {
            assert forall|i: int, j: int|
                #![trigger after.called[i], after.pending[j]]
                0 <= i < after.called.len() && 0 <= j < after.pending.len()
                    && after.pending[j].is_live() && !after.had_turn(
                    after.pending[j].ticket,
                ) implies after.called[i].ticket < after.pending[j].ticket by {
                assert(after.called[i] == woken[i].call());
                let a = choose|a: int| 0 <= a < from && before.pending[a] == woken[i];
                assert(after.pending[j] == before.pending[j + from]);
                assert(before.pending[a].is_live());
                assert(!before.had_turn(before.pending[j + from].ticket));
                if before.pending[j + from].ticket < before.pending[a].ticket {
                    assert(model::has_place(before.pending, a, before.pending[j + from].ticket));
                }
            }
        }
        assert(after.queue_is_ordered()) by {
            assert forall|i: int, j: int|
                #![trigger after.pending[i], after.pending[j]]
                0 <= i < j < after.pending.len() && after.pending[i].is_live()
                    && after.pending[j].is_live() && after.pending[j].ticket
                    < after.pending[i].ticket && !after.had_turn(
                    after.pending[j].ticket,
                ) implies model::has_place(after.pending, i, after.pending[j].ticket) by {
                let ticket = after.pending[j].ticket;
                assert(after.pending[i] == before.pending[i + from]);
                assert(after.pending[j] == before.pending[j + from]);
                assert(!before.had_turn(ticket));
                assert(model::has_place(before.pending, i + from, ticket));
                let k = choose|k: int|
                    0 <= k < i + from && (#[trigger] before.pending[k]).is_live()
                        && before.pending[k].ticket == ticket;
                assert(k >= from);
                assert(after.pending[k - from].is_live());
            }
        }
    }
}

/// Letting a request in keeps the invariant, and leaves the request known.
pub proof fn law_entering_keeps_wf(before: StateView, request: RequestView)
    requires
        before.wf(),
        before.knows(request),
        !before.must_wait(request),
    ensures
        before.welcome(request).wf(),
        before.welcome(request).enter(request.is_reader).wf(),
        before.welcome(request).enter(request.is_reader).knows(request),
{
    let known = before.welcome(request);
    if let Some(ticket) = request.ticket {
        let own = Call { is_reader: request.is_reader, ticket };
        lemma_uncalled(before.called, ticket);
        lemma_known_is_used(before, request);
        lemma_used_is_known(before, ticket, request.is_reader);
        assert(known.came[before.came.len() as int] == own);
        assert(known.has_come(request));
        assert(forall|i: int| 0 <= i < before.came.len() ==> known.came[i] == before.came[i]);
        assert forall|other: u64| before.had_turn(other) implies #[trigger] known.had_turn(
            other,
        ) by {
            if before.saw(other) {
                let i = choose|i: int|
                    0 <= i < before.came.len() && (#[trigger] before.came[i]).ticket == other;
                assert(known.came[i].ticket == other);
            } else if other == ticket {
                assert(known.came[before.came.len() as int].ticket == other);
            }
        }
        assert(known.tickets_are_known()) by {
            assert forall|i: int| 0 <= i < known.called.len() implies (
            #[trigger] known.called[i]).ticket < known.next_ticket by {
                assert(known.called.contains(known.called[i]));
            }
        }
        assert forall|other: u64, is_reader: bool| #[trigger]
            known.uses(other, is_reader) implies before.uses(other, is_reader) by {
            let mark = Call { is_reader, ticket: other };
            if known.came.contains(mark) && mark != own {
                let i = choose|i: int| 0 <= i < known.came.len() && known.came[i] == mark;
                assert(before.came[i] == mark);
            } else if !known.came.contains(mark) && !known.called.contains(mark) {
                let i = choose|i: int|
                    0 <= i < known.pending.len() && (#[trigger] known.pending[i]).ticket == other
                        && known.pending[i].is_reader == is_reader;
                assert(before.pending[i].ticket == other);
            }
        }
        assert(known.kinds_agree()) by {
            assert forall|other: u64| !(#[trigger] known.uses(other, true) && known.uses(
                other,
                false,
            )) by {
                if known.uses(other, true) && known.uses(other, false) {
                    assert(before.uses(other, true));
                }
            }
        }
        assert(known.called_are_first()) by {
            assert forall|i: int, j: int|
                #![trigger known.called[i], known.pending[j]]
                0 <= i < known.called.len() && 0 <= j < known.pending.len()
                    && known.pending[j].is_live() && !known.had_turn(
                    known.pending[j].ticket,
                ) implies known.called[i].ticket < known.pending[j].ticket by {
                assert(known.called.contains(known.called[i]));
                let k = choose|k: int|
                    0 <= k < before.called.len() && before.called[k] == known.called[i];
                assert(before.called[k].ticket < before.pending[j].ticket);
            }
        }
        assert(known.queue_is_ordered()) by {
            assert forall|i: int, j: int|
                #![trigger known.pending[i], known.pending[j]]
                0 <= i < j < known.pending.len() && known.pending[i].is_live()
                    && known.pending[j].is_live() && known.pending[j].ticket
                    < known.pending[i].ticket && !known.had_turn(
                    known.pending[j].ticket,
                ) implies model::has_place(known.pending, i, known.pending[j].ticket) by {
                assert(before.pending[i].is_live());
                assert(model::has_place(before.pending, i, before.pending[j].ticket));
            }
        }
    }
    lemma_alone_after_welcome(before, request);
    lemma_holders(known, known.enter(request.is_reader));
}

/// With a request that is let in no called one is excluded.
proof fn lemma_alone_after_welcome(before: StateView, request: RequestView)
    requires
        before.wf(),
        before.knows(request),
        !before.must_wait(request),
    ensures
        before.welcome(request).writer_is_alone(),
        before.welcome(request).enter(request.is_reader).writer_is_alone(),
{
    let known = before.welcome(request);
    if let Some(ticket) = request.ticket {
        lemma_uncalled(before.called, ticket);
    }
    if before.is_called(request) {
        let call = Call { is_reader: request.is_reader, ticket: request.ticket->0 };
        let i = choose|i: int| 0 <= i < before.called.len() && before.called[i] == call;
        assert(before.called[i] == call);
        if request.is_reader {
            if before.calls_a_writer() {
                let w = choose|w: int|
                    0 <= w < before.called.len() && !(#[trigger] before.called[w]).is_reader;
                assert(w == i);
            }
        } else {
            assert(before.calls_a_writer());
            if known.called.len() > 0 {
                assert(known.called.contains(known.called[0]));
                let j = choose|j: int|
                    0 <= j < before.called.len() && before.called[j] == known.called[0];
                assert(j == i);
            }
        }
    }
}

/// Who is inside concerns only that a writer is alone.
proof fn lemma_holders(before: StateView, after: StateView)
    requires
        before.wf(),
        after == (StateView {
            is_writing: after.is_writing,
            reader_count: after.reader_count,
            ..before
        }),
        after.writer_is_alone(),
    ensures
        after.wf(),
{
    assert forall|ticket: u64, is_reader: bool| #[trigger]
        after.uses(ticket, is_reader) == before.uses(ticket, is_reader) by {
        assert(after.pending == before.pending);
    }
    assert(after.kinds_agree()) by {
        assert forall|ticket: u64| !(#[trigger] after.uses(ticket, true) && after.uses(
            ticket,
            false,
        )) by {
            assert(before.uses(ticket, true) == after.uses(ticket, true));
        }
    }
    assert(after.called_are_first()) by {
        assert(before.called_are_first());
    }
    assert(after.queue_is_ordered()) by {
        assert(before.queue_is_ordered());
    }
}

/// Letting go keeps the invariant.
pub proof fn law_leaving_keeps_wf(before: StateView)
    requires
        before.wf(),
    ensures
        before.reader_count > 0 ==> before.reader_left().wf(),
        before.writer_left().wf(),
{
    if before.reader_count > 0 {
        lemma_holders(before, before.reader_left());
    }
    lemma_holders(before, before.writer_left());
}

} // verus!
