use core::task::Waker;
use std::collections::VecDeque;
use vstd::prelude::*;

use crate::flag::Flag;
use crate::model;
use crate::model::Call;
use crate::model::RequestView;
use crate::model::StateView;
use crate::model::WaitingView;
use crate::poll::Poll;
use crate::wf_laws;

verus! {

/// A request that has to wait, with the waker of the task to wake for it.
#[derive(Debug)]
struct PendingWaker {
    is_reader: bool,
    waker: Waker,
    /// Raised once the request has been dropped.
    future_dropped: Flag,
    /// Tells the requests of a cell apart.
    ticket: u64,
}

/// Who holds a cell, who waits for it, and who was called and is expected or has
/// come.
#[derive(Debug)]
pub struct State {
    pending: VecDeque<PendingWaker>,
    called: Vec<Call>,
    came: Vec<Call>,
    is_writing: bool,
    reader_count: usize,
    next_ticket: u64,
}

/// A request for read or for write access, from when it is made until it is
/// dropped.
#[derive(Debug)]
pub struct AcquireFuture {
    is_reader: bool,
    ticket: Option<u64>,
}

impl View for PendingWaker {
    type V = WaitingView;

    closed spec fn view(&self) -> WaitingView {
        WaitingView {
            is_reader: self.is_reader,
            waker: self.waker,
            dropped: self.future_dropped@,
            ticket: self.ticket,
        }
    }
}

spec fn views(pending: Seq<PendingWaker>) -> Seq<WaitingView> {
    pending.map_values(|entry: PendingWaker| entry@)
}

impl View for State {
    type V = StateView;

    closed spec fn view(&self) -> StateView {
        StateView {
            pending: views(self.pending@),
            called: self.called@,
            came: self.came@,
            is_writing: self.is_writing,
            reader_count: self.reader_count as nat,
            next_ticket: self.next_ticket as nat,
        }
    }
}

impl View for AcquireFuture {
    type V = RequestView;

    closed spec fn view(&self) -> RequestView {
        RequestView { is_reader: self.is_reader, ticket: self.ticket }
    }
}

impl State {
    #[verifier::type_invariant]
    spec fn is_wf(self) -> bool {
        self@.wf()
    }

    /// Calls who is next, if nobody is inside or expected: takes out of the queue
    /// every read request up to the first write request, or that write request
    /// alone where it is in front, dropping on the way the places of requests that
    /// are no longer there. Returns the wakers to wake, in the order of the queue.
    #[must_use]
    pub fn wake_pending(&mut self) -> (wakers: Vec<Waker>)
        ensures
            wakers@ == model::wakers_of(old(self)@.next_called()),
            wakers@.len() == old(self)@.next_called().len(),
            forall|i: int|
                0 <= i < wakers@.len() ==> #[trigger] wakers@[i] == old(self)@.next_called()[i].waker,
            final(self)@ == old(self)@.after_wake(),
            final(self)@.wf(),
            final(self)@.is_settled(),
    {
        proof {
            use_type_invariant(&*self);
            wf_laws::law_wake_keeps_wf(self@);
        }
        let mut found_pending: Vec<Waker> = Vec::new();
        if self.is_writing || self.reader_count > 0 || self.called.len() > 0 {
            assert(model::wakers_of(Seq::empty()) =~= Seq::empty());
            return found_pending;
        }
        let ghost start = self@.pending;
        let ghost mut seen: int = 0;
        let State { pending: mut queue, came, is_writing, reader_count, next_ticket, .. } =
            self.take();
        let mut called: Vec<Call> = Vec::new();
        proof {
            assert(start.skip(0) =~= start);
            reveal(Seq::filter);
            assert(model::live(start.take(0)) =~= Seq::empty());
            assert(model::wakers_of(Seq::empty()) =~= Seq::empty());
            assert(model::calls_of(Seq::empty()) =~= Seq::empty());
        }
        loop
            invariant_except_break
                0 <= seen <= start.len(),
                views(queue@) == start.skip(seen),
                forall|i: int| 0 <= i < seen ==> !(#[trigger] start[i]).is_live_writer(),
                found_pending@ == model::wakers_of(model::live(start.take(seen))),
                called@ == model::calls_of(model::live(start.take(seen))),
            ensures
                views(queue@) == model::left_waiting(start),
                found_pending@ == model::wakers_of(model::woken(start)),
                called@ == model::calls_of(model::woken(start)),
            decreases start.len() - seen,
        {
            let ghost before = queue@;
            assert(before.len() == views(before).len());
            match queue.pop_front() {
                None => {
                    proof {
                        model::lemma_ahead_of_writer(start, seen as nat);
                        assert(start.take(seen) =~= start);
                    }
                    break;
                },
                Some(pending) => {
                    proof {
                        assert(pending@ == views(before)[0]);
                        assert(views(queue@) =~= views(before).drop_first());
                        assert(views(queue@) =~= start.skip(seen + 1));
                        model::lemma_live_step(start, seen);
                    }
                    if !pending.future_dropped.is_raised() {
                        let call = Call { is_reader: pending.is_reader, ticket: pending.ticket };
                        if pending.is_reader {
                            found_pending.push(pending.waker);
                            called.push(call);
                        } else if found_pending.len() == 0 {
                            // found a writer, exit
                            found_pending.push(pending.waker);
                            called.push(call);
                            proof {
                                model::lemma_ahead_of_writer(start, seen as nat);
                            }
                            break;
                        } else {
                            // there were already pending readers, store back this writer
                            queue.push_front(pending);
                            proof {
                                model::lemma_ahead_of_writer(start, seen as nat);
                                assert(views(queue@) =~= start.skip(seen));
                            }
                            break;
                        }
                    }
                    proof {
                        seen = seen + 1;
                    }
                },
            }
        }
        assert((StateView {
            pending: views(queue@),
            called: called@,
            came: came@,
            is_writing,
            reader_count: reader_count as nat,
            next_ticket: next_ticket as nat,
        }) =~= old(self)@.after_wake());
        *self = State { pending: queue, called, came, is_writing, reader_count, next_ticket };
        found_pending
    }

    /// Moves the state out, to be taken apart and put together again.
    fn take(&mut self) -> (taken: State)
        ensures
            taken == *old(self),
    {
        let mut taken = State::default();
        core::mem::swap(&mut taken, self);
        taken
    }

    /// How many readers hold the cell.
    pub fn reader_count(&self) -> (count: usize)
        ensures
            count == self@.reader_count,
    {
        self.reader_count
    }

    /// Whether a writer holds the cell.
    pub fn is_writing(&self) -> (writing: bool)
        ensures
            writing == self@.is_writing,
    {
        self.is_writing
    }

    /// Whether `request` can be polled without running out of tickets or readers.
    pub fn has_room_for(&self, request: &AcquireFuture) -> (room: bool)
        ensures
            room == self@.has_room_for(request@),
            self@.reader_count < usize::MAX && self@.next_ticket < u64::MAX ==> room,
    {
        if self.must_wait(request) {
            request.ticket.is_some() || self.next_ticket < u64::MAX
        } else {
            !request.is_reader || self.reader_count < usize::MAX
        }
    }

    /// Whether `request` can be one of this cell: it never had to wait, or it is
    /// queued or called here, or was let in.
    pub fn knows(&self, request: &AcquireFuture) -> (known: bool)
        ensures
            known == self@.knows(request@),
    {
        match request.ticket {
            None => true,
            Some(ticket) => has_mark(&self.called, request.is_reader, ticket) || self.is_queued(
                request.is_reader,
                ticket,
            ) || has_mark(&self.came, request.is_reader, ticket),
        }
    }

    fn is_queued(&self, is_reader: bool, ticket: u64) -> (queued: bool)
        ensures
            queued == self@.is_queued(RequestView { is_reader, ticket: Some(ticket) }),
    {
        let ghost request = RequestView { is_reader, ticket: Some(ticket) };
        let mut i: usize = 0;
        while i < self.pending.len()
            invariant
                i <= self.pending@.len(),
                request == (RequestView { is_reader, ticket: Some(ticket) }),
                forall|j: int|
                    0 <= j < i && (#[trigger] self@.pending[j]).is_live()
                        && self@.pending[j].ticket == ticket ==> self@.pending[j].is_reader
                        != is_reader,
            decreases self.pending.len() - i,
        {
            let entry = &self.pending[i];
            assert(self@.pending[i as int] == entry@);
            if !entry.future_dropped.is_raised() && entry.ticket == ticket && entry.is_reader
                == is_reader {
                assert(self@.is_queued(request));
                return true;
            }
            i = i + 1;
        }
        false
    }

    fn is_called(&self, request: &AcquireFuture) -> (called: bool)
        ensures
            called == self@.is_called(request@),
    {
        match request.ticket {
            None => false,
            Some(ticket) => has_mark(&self.called, request.is_reader, ticket),
        }
    }

    fn calls_a_writer(&self) -> (called: bool)
        ensures
            called == self@.calls_a_writer(),
    {
        let mut i: usize = 0;
        while i < self.called.len()
            invariant
                i <= self.called@.len(),
                forall|j: int| 0 <= j < i ==> (#[trigger] self@.called[j]).is_reader,
            decreases self.called.len() - i,
        {
            if !self.called[i].is_reader {
                assert(!self@.called[i as int].is_reader);
                return true;
            }
            i = i + 1;
        }
        false
    }

    fn has_live_pending(&self) -> (found: bool)
        ensures
            found == (model::live(self@.pending).len() > 0),
    {
        let ghost pending = self@.pending;
        let mut i: usize = 0;
        while i < self.pending.len()
            invariant
                i <= self.pending@.len(),
                pending == self@.pending,
                forall|j: int| 0 <= j < i ==> !(#[trigger] pending[j]).is_live(),
            decreases self.pending.len() - i,
        {
            let entry = &self.pending[i];
            assert(pending[i as int] == entry@);
            if !entry.future_dropped.is_raised() {
                proof {
                    model::lemma_some_live(pending, i as int);
                }
                return true;
            }
            i = i + 1;
        }
        proof {
            model::lemma_none_live(pending);
        }
        false
    }

    fn must_wait(&self, request: &AcquireFuture) -> (wait: bool)
        ensures
            wait == self@.must_wait(request@),
    {
        if self.is_writing || !request.is_reader && self.reader_count > 0 {
            return true;
        }
        if self.is_called(request) {
            return false;
        }
        if request.is_reader {
            self.pending.len() > 0 || self.calls_a_writer()
        } else {
            self.called.len() > 0 || self.has_live_pending()
        }
    }

    /// Takes away the places and the marks of the request with `ticket`.
    fn forget(&mut self, ticket: u64)
        ensures
            final(self)@ == old(self)@.forget(ticket),
            final(self)@.wf(),
    {
        proof {
            use_type_invariant(&*self);
            wf_laws::law_forget_keeps_wf(self@, ticket);
        }
        let State { pending: mut queue, called, came, is_writing, reader_count, next_ticket } =
            self.take();
        let ghost start = queue@;
        let count: usize = queue.len();
        let mut i: usize = 0;
        while i < count
            invariant
                i <= count == start.len(),
                queue@.len() == count,
                views(queue@) == views(start).skip(i as int) + model::without(
                    views(start).take(i as int),
                    ticket,
                ),
            decreases count - i,
        {
            let ghost before = views(queue@);
            if let Some(mut entry) = queue.pop_front() {
                let ghost found = entry@;
                assert(found == before[0]);
                assert(before[0] == views(start)[i as int]);
                if entry.ticket == ticket {
                    entry.future_dropped.raise();
                }
                assert(entry@ == model::without_entry(found, ticket));
                queue.push_back(entry);
                assert(views(queue@) =~= before.drop_first().push(entry@));
                assert(views(queue@) =~= views(start).skip(i + 1) + model::without(
                    views(start).take(i + 1),
                    ticket,
                ));
            }
            i = i + 1;
        }
        assert(views(queue@) =~= model::without(views(start), ticket));
        let called = other_marks(&called, ticket);
        let came = other_marks(&came, ticket);
        assert((StateView {
            pending: views(queue@),
            called: called@,
            came: came@,
            is_writing,
            reader_count: reader_count as nat,
            next_ticket: next_ticket as nat,
        }) =~= old(self)@.forget(ticket));
        *self = State { pending: queue, called, came, is_writing, reader_count, next_ticket };
    }

    /// Takes note that the request with `ticket` has come.
    fn welcome(&mut self, is_reader: bool, ticket: u64)
        requires
            old(self)@.welcome(RequestView { is_reader, ticket: Some(ticket) }).wf(),
        ensures
            final(self)@ == old(self)@.welcome(RequestView { is_reader, ticket: Some(ticket) }),
    {
        let State { pending, called, mut came, is_writing, reader_count, next_ticket } =
            self.take();
        let called = other_marks(&called, ticket);
        came.push(Call { is_reader, ticket });
        assert((StateView {
            pending: views(pending@),
            called: called@,
            came: came@,
            is_writing,
            reader_count: reader_count as nat,
            next_ticket: next_ticket as nat,
        }) =~= old(self)@.welcome(RequestView { is_reader, ticket: Some(ticket) }));
        *self = State { pending, called, came, is_writing, reader_count, next_ticket };
    }

    /// Takes note that a reader has left, and returns the wakers to wake.
    #[must_use]
    pub fn release_read(&mut self) -> (wakers: Vec<Waker>)
        requires
            old(self)@.reader_count > 0,
        ensures
            wakers@ == model::wakers_of(old(self)@.woken_by_read()),
            wakers@.len() == old(self)@.woken_by_read().len(),
            forall|i: int|
                0 <= i < wakers@.len() ==> #[trigger] wakers@[i] == old(self)@.woken_by_read()[i].waker,
            old(self)@.called.len() == 0 ==> wakers@.len() == final(self)@.called.len(),
            final(self)@.reader_count == old(self)@.reader_count - 1,
            final(self)@ == old(self)@.after_read(),
            final(self)@.wf(),
            final(self)@.is_settled(),
    {
        proof {
            use_type_invariant(&*self);
            wf_laws::law_leaving_keeps_wf(self@);
        }
        self.reader_count = self.reader_count - 1;
        self.wake_pending()
    }

    /// Takes note that the writer has left, and returns the wakers to wake.
    #[must_use]
    pub fn release_write(&mut self) -> (wakers: Vec<Waker>)
        requires
            old(self)@.is_writing,
        ensures
            wakers@ == model::wakers_of(old(self)@.woken_by_write()),
            wakers@.len() == old(self)@.woken_by_write().len(),
            forall|i: int|
                0 <= i < wakers@.len() ==> #[trigger] wakers@[i] == old(self)@.woken_by_write()[i].waker,
            wakers@.len() == final(self)@.called.len(),
            !final(self)@.is_writing,
            final(self)@ == old(self)@.after_write(),
            final(self)@.wf(),
            final(self)@.is_settled(),
    {
        proof {
            use_type_invariant(&*self);
            wf_laws::law_leaving_keeps_wf(self@);
        }
        self.is_writing = false;
        self.wake_pending()
    }
}

fn has_mark(calls: &Vec<Call>, is_reader: bool, ticket: u64) -> (found: bool)
    ensures
        found == calls@.contains(Call { is_reader, ticket }),
{
    let ghost wanted = Call { is_reader, ticket };
    let mut i: usize = 0;
    while i < calls.len()
        invariant
            i <= calls@.len(),
            wanted == (Call { is_reader, ticket }),
            forall|j: int| 0 <= j < i ==> calls@[j] != wanted,
        decreases calls.len() - i,
    {
        if calls[i].ticket == ticket && calls[i].is_reader == is_reader {
            assert(calls@[i as int] == wanted);
            return true;
        }
        i = i + 1;
    }
    false
}

fn other_marks(calls: &Vec<Call>, ticket: u64) -> (others: Vec<Call>)
    ensures
        others@ == model::uncalled(calls@, ticket),
{
    let mut others: Vec<Call> = Vec::new();
    let mut i: usize = 0;
    assert(model::uncalled(calls@.take(0), ticket) =~= Seq::empty()) by {
        reveal(Seq::filter);
    }
    while i < calls.len()
        invariant
            i <= calls@.len(),
            others@ == model::uncalled(calls@.take(i as int), ticket),
        decreases calls.len() - i,
    {
        let call = Call { is_reader: calls[i].is_reader, ticket: calls[i].ticket };
        proof {
            reveal(Seq::filter);
            assert(calls@.take(i + 1).drop_last() =~= calls@.take(i as int));
            assert(calls@.take(i + 1).last() == call);
        }
        if call.ticket != ticket {
            others.push(call);
        }
        i = i + 1;
    }
    assert(calls@.take(i as int) =~= calls@);
    others
}

impl Default for State {
    fn default() -> (state: Self)
        ensures
            state@ == StateView::initial(),
            state@.pending.len() == 0,
            state@.called.len() == 0,
            state@.came.len() == 0,
            !state@.is_writing,
            state@.reader_count == 0,
            state@.next_ticket == 0,
    {
        let pending: VecDeque<PendingWaker> = VecDeque::new();
        assert(views(pending@) =~= Seq::empty());
        State {
            pending,
            called: Vec::new(),
            came: Vec::new(),
            is_writing: false,
            reader_count: 0,
            next_ticket: 0,
        }
    }
}

impl AcquireFuture {
    /// Makes a request. It asks for nothing until it is polled.
    pub fn new(is_reader: bool) -> (request: Self)
        ensures
            request@ == (RequestView { is_reader, ticket: None }),
    {
        AcquireFuture { is_reader, ticket: None }
    }

    /// Whether this is a request to read.
    pub fn is_reader(&self) -> (is_reader: bool)
        ensures
            is_reader == self@.is_reader,
    {
        self.is_reader
    }

    /// Whether the request ever had to wait.
    pub fn has_waited(&self) -> (waited: bool)
        ensures
            waited == self@.ticket is Some,
    {
        self.ticket.is_some()
    }

    /// Tries to get hold of the cell. A request that has to wait goes to the back
    /// of the queue, and `waker` is handed out when its turn has come. One that is
    /// let in leaves the queue as it is, and is to be dropped.
    pub fn poll(&mut self, state: &mut State, waker: Waker) -> (polled: Poll<()>)
        requires
            old(state)@.knows(old(self)@),
            old(state)@.has_room_for(old(self)@),
        ensures
            polled == if old(state)@.must_wait(old(self)@) {
                Poll::Pending
            } else {
                Poll::Ready(())
            },
            final(state)@ == old(state)@.after_poll(old(self)@, waker),
            polled is Pending ==> {
                &&& final(state)@.pending.drop_last() == old(state)@.pending
                &&& final(state)@.pending.len() == old(state)@.pending.len() + 1
                &&& final(state)@.pending.last().waker == waker
                &&& final(state)@.pending.last().is_reader == old(self)@.is_reader
                &&& !final(state)@.pending.last().dropped
                &&& final(self)@.ticket == Some(final(state)@.pending.last().ticket)
                &&& final(state)@.is_writing == old(state)@.is_writing
                &&& final(state)@.reader_count == old(state)@.reader_count
            },
            polled is Ready ==> {
                &&& final(state)@.pending == old(state)@.pending
                &&& !old(state)@.is_writing
                &&& old(self)@.is_reader ==> !final(state)@.is_writing
                    && final(state)@.reader_count == old(state)@.reader_count + 1
                &&& !old(self)@.is_reader ==> final(state)@.is_writing
                    && final(state)@.reader_count == 0
                &&& final(self)@.ticket == old(self)@.ticket
            },
            final(state)@.wf(),
            final(self)@ == old(self)@.after_poll(old(state)@),
            final(self)@.is_reader == old(self)@.is_reader,
            final(state)@.knows(final(self)@),
    {
        proof {
            use_type_invariant(&*state);
        }
        let ghost before = state@;
        let ghost request = self@;
        if state.must_wait(self) {
            proof {
                wf_laws::law_queueing_keeps_wf(before, request, waker);
            }
            let State { pending: mut queue, called, came, is_writing, reader_count, next_ticket } =
                state.take();
            let (ticket, next_ticket): (u64, u64) = match self.ticket {
                Some(ticket) => (ticket, next_ticket),
                None => (next_ticket, next_ticket + 1),
            };
            self.ticket = Some(ticket);
            let entry = PendingWaker {
                is_reader: self.is_reader,
                waker,
                future_dropped: Flag::default(),
                ticket,
            };
            queue.push_back(entry);
            proof {
                assert(views(queue@) =~= before.pending.push(entry@));
                assert((StateView {
                    pending: views(queue@),
                    called: called@,
                    came: came@,
                    is_writing,
                    reader_count: reader_count as nat,
                    next_ticket: next_ticket as nat,
                }) =~= before.queued(request, waker));
            }
            *state = State { pending: queue, called, came, is_writing, reader_count, next_ticket };
            Poll::Pending
        } else {
            proof {
                wf_laws::law_entering_keeps_wf(before, request);
            }
            if let Some(ticket) = self.ticket {
                state.welcome(self.is_reader, ticket);
            }
            if self.is_reader {
                state.reader_count = state.reader_count + 1;
            } else {
                state.is_writing = true;
            }
            Poll::Ready(())
        }
    }

    /// Drops the request: whatever places it has in the queue are passed over. If
    /// it was called and nobody else is inside or expected, who is next is called
    /// in its place. Returns the wakers to wake.
    #[must_use]
    pub fn abandon(self, state: &mut State) -> (wakers: Vec<Waker>)
        requires
            old(state)@.knows(self@),
        ensures
            wakers@ == model::wakers_of(old(state)@.woken_by_drop(self@)),
            wakers@.len() == old(state)@.woken_by_drop(self@).len(),
            forall|i: int|
                0 <= i < wakers@.len() ==> #[trigger] wakers@[i] == old(state)@.woken_by_drop(self@)[i].waker,
            final(state)@ == old(state)@.after_drop(self@),
            final(state)@.wf(),
    {
        match self.ticket {
            Some(ticket) => {
                state.forget(ticket);
                state.wake_pending()
            },
            None => {
                proof {
                    use_type_invariant(&*state);
                    assert(model::wakers_of(Seq::empty()) =~= Seq::empty());
                }
                Vec::new()
            },
        }
    }
}

} // verus!
