use vstd::prelude::*;

use crate::model;
use crate::model::RequestView;
use crate::model::StateView;
use crate::model::WaitingView;
use crate::wf_laws;

verus! {

broadcast use vstd::seq_lib::group_filter_ensures;

/// Live requests are woken in the order of the queue: those woken, followed by
/// those that still wait, are the live requests of the queue in their order. No
/// live request gets lost, and none is woken while it keeps its place.
pub proof fn law_wake_in_order(pending: Seq<WaitingView>)
    ensures
        model::live(pending) == model::woken(pending) + model::live(
            model::left_waiting(pending),
        ),
{
    model::lemma_first_writer(pending);
    let ahead = model::ahead_of_writer(pending) as int;
    let is_live = |entry: WaitingView| entry.is_live();
    assert(pending =~= pending.take(ahead) + pending.skip(ahead));
    Seq::filter_distributes_over_add(pending.take(ahead), pending.skip(ahead), is_live);
    if model::writer_is_next(pending) {
        let next = seq![pending[ahead]];
        assert(pending.skip(ahead) =~= next + pending.skip(ahead + 1));
        Seq::filter_distributes_over_add(next, pending.skip(ahead + 1), is_live);
        assert(model::live(next) =~= next) by {
            reveal(Seq::filter);
            assert(next.drop_last() =~= Seq::empty());
            assert(next.drop_last().filter(is_live) =~= Seq::empty());
        }
    }
}

/// A wake up is for one writer alone, or for readers only, and never for a
/// request that was dropped.
pub proof fn law_wake_readers_or_one_writer(pending: Seq<WaitingView>)
    ensures
        forall|i: int|
            0 <= i < model::woken(pending).len() ==> {
                let entry = #[trigger] model::woken(pending)[i];
                &&& entry.is_live()
                &&& pending.contains(entry)
                &&& entry.is_reader || model::woken(pending).len() == 1
            },
{
    model::lemma_woken(pending);
    let gone = pending.take(model::passed(pending));
    assert forall|i: int| 0 <= i < model::woken(pending).len() implies pending.contains(
        #[trigger] model::woken(pending)[i],
    ) by {
        let at = choose|at: int| 0 <= at < gone.len() && gone[at] == model::woken(pending)[i];
        assert(pending[at] == gone[at]);
    }
}

/// Readers are woken together: when readers are woken, no live reader remains
/// ahead of the next writer.
pub proof fn law_readers_wake_together(pending: Seq<WaitingView>)
    requires
        !model::writer_is_next(pending),
    ensures
        model::left_waiting(pending).len() > 0 ==> model::left_waiting(
            pending,
        )[0].is_live_writer(),
{
    model::lemma_first_writer(pending);
}

/// Whoever leaves wakes somebody if anybody waits. When nobody is woken, the
/// queue is empty.
pub proof fn law_somebody_wakes(pending: Seq<WaitingView>)
    ensures
        model::woken(pending).len() == 0 <==> model::live(pending).len() == 0,
        model::woken(pending).len() == 0 ==> model::left_waiting(pending).len() == 0,
{
    model::lemma_first_writer(pending);
    law_wake_in_order(pending);
}

/// A dropped request is never woken, and dropping it leaves the other requests
/// in their order.
pub proof fn law_dropped_is_passed_over(pending: Seq<WaitingView>, ticket: u64)
    ensures
        model::live(model::without(pending, ticket)) == model::live(
            pending,
        ).filter(|entry: WaitingView| entry.ticket != ticket),
        forall|i: int|
            0 <= i < model::woken(model::without(pending, ticket)).len() ==> (
            #[trigger] model::woken(model::without(pending, ticket))[i]).ticket
                != ticket,
{
    let without = model::without(pending, ticket);
    let others = |entry: WaitingView| entry.ticket != ticket;
    lemma_live_without(pending, ticket);
    law_wake_in_order(without);
    let woken = model::woken(without);
    assert forall|i: int| 0 <= i < woken.len() implies (#[trigger] woken[i]).ticket != ticket by {
        let kept = model::live(pending).filter(others);
        assert(kept[i] == woken[i]);
        assert(others(kept[i]));
    }
}

proof fn lemma_live_without(pending: Seq<WaitingView>, ticket: u64)
    ensures
        model::live(model::without(pending, ticket)) == model::live(
            pending,
        ).filter(|entry: WaitingView| entry.ticket != ticket),
    decreases pending.len(),
{
    reveal(Seq::filter);
    let without = model::without(pending, ticket);
    if pending.len() > 0 {
        lemma_live_without(pending.drop_last(), ticket);
        assert(without.drop_last() =~= model::without(pending.drop_last(), ticket));
        let earlier = model::live(pending.drop_last());
        if pending.last().is_live() {
            assert(model::live(pending).drop_last() =~= earlier);
        }
    }
}

/// A request that was dropped is no longer queued, called or remembered.
pub proof fn law_dropped_is_gone(state: StateView, request: RequestView)
    requires
        request.ticket is Some,
    ensures
        !state.forget(request.ticket->0).knows(request),
        !state.after_drop(request).knows(request),
{
    let ticket = request.ticket->0;
    let gone = state.forget(ticket);
    wf_laws::lemma_uncalled(state.called, ticket);
    wf_laws::lemma_uncalled(state.came, ticket);
    law_dropped_is_passed_over(state.pending, ticket);
    if gone.is_free() {
        let after = gone.after_wake();
        let woken = model::woken(gone.pending);
        model::lemma_woken(gone.pending);
        assert(!after.is_called(request)) by {
            if after.is_called(request) {
                let i = choose|i: int|
                    0 <= i < after.called.len() && after.called[i].ticket == ticket;
                assert(woken[i].ticket == ticket);
            }
        }
        assert forall|i: int| 0 <= i < after.pending.len() implies !(
        #[trigger] after.pending[i]).is_live() || after.pending[i].ticket != ticket by {
            assert(after.pending[i] == gone.pending[i + model::passed(gone.pending)]);
        }
    }
}

/// Dropped places have no influence on who is woken, nor on which live requests
/// still wait.
pub proof fn law_dropped_places_do_not_count(pending: Seq<WaitingView>)
    ensures
        model::woken(pending) == model::woken(model::live(pending)),
        model::live(model::left_waiting(pending)) == model::left_waiting(model::live(pending)),
{
    model::lemma_first_writer(pending);
    let ahead = model::ahead_of_writer(pending) as int;
    let is_live = |entry: WaitingView| entry.is_live();
    let front = pending.take(ahead);
    let back = pending.skip(ahead);
    let all = model::live(pending);
    let readers = model::live(front);
    assert(pending =~= front + back);
    Seq::filter_distributes_over_add(front, back, is_live);
    assert(all == readers + model::live(back));
    let live_ahead = readers.len() as int;
    assert forall|i: int| 0 <= i < live_ahead implies !(#[trigger] all[i]).is_live_writer() by {
        assert(readers.contains(readers[i]));
        front.lemma_filter_contains_rev(is_live, readers[i]);
        let at = choose|at: int| 0 <= at < front.len() && front[at] == readers[i];
        assert(pending[at] == readers[i]);
    }
    if ahead < pending.len() {
        let next = seq![pending[ahead]];
        let rest = pending.skip(ahead + 1);
        assert(back =~= next + rest);
        Seq::filter_distributes_over_add(next, rest, is_live);
        assert(model::live(next) =~= next) by {
            lemma_all_live(next);
        }
        assert(all[live_ahead] == pending[ahead]);
        assert(all.skip(live_ahead + 1) =~= model::live(rest));
    } else {
        assert(back =~= Seq::empty());
        model::lemma_none_live(back);
    }
    model::lemma_ahead_of_writer(all, live_ahead as nat);
    assert(all.take(live_ahead) =~= readers);
    assert(all.skip(live_ahead) =~= model::live(back));
    assert forall|i: int| 0 <= i < readers.len() implies (#[trigger] readers[i]).is_live() by {
        assert(is_live(front.filter(is_live)[i]));
    }
    lemma_all_live(readers);
    law_wake_in_order(pending);
}

proof fn lemma_all_live(pending: Seq<WaitingView>)
    requires
        forall|i: int| 0 <= i < pending.len() ==> (#[trigger] pending[i]).is_live(),
    ensures
        model::live(pending) == pending,
    decreases pending.len(),
{
    reveal(Seq::filter);
    if pending.len() > 0 {
        let earlier = pending.drop_last();
        assert(pending.last() == pending[pending.len() - 1]);
        assert forall|i: int| 0 <= i < earlier.len() implies (#[trigger] earlier[i]).is_live() by {
            assert(earlier[i] == pending[i]);
        }
        lemma_all_live(earlier);
        assert(earlier.push(pending.last()) =~= pending);
    }
}

} // verus!
