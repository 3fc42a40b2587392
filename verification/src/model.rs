use core::task::Waker;
use vstd::prelude::*;

verus! {

broadcast use vstd::seq_lib::group_filter_ensures;

/// A place in the queue of a cell.
pub struct WaitingView {
    pub is_reader: bool,
    pub waker: Waker,
    /// Whether the request has been dropped since it was queued.
    pub dropped: bool,
    pub ticket: u64,
}

/// The mark of a request that has left the queue: it was called, or it has come and
/// was let in.
#[derive(Debug)]
pub struct Call {
    pub is_reader: bool,
    pub ticket: u64,
}

/// What a [`State`](crate::state::State) stands for.
#[verifier::ext_equal]
pub struct StateView {
    /// The queue, with the place that was taken first in front.
    pub pending: Seq<WaitingView>,
    /// The requests that were woken and are expected to come.
    pub called: Seq<Call>,
    /// The requests that were let in after they had to wait, and have not been
    /// dropped since.
    pub came: Seq<Call>,
    pub is_writing: bool,
    pub reader_count: nat,
    /// The next ticket to hand out.
    pub next_ticket: nat,
}

/// What an [`AcquireFuture`](crate::state::AcquireFuture) stands for.
pub struct RequestView {
    pub is_reader: bool,
    /// The request's ticket, once it had to wait. Tickets count up, so that an
    /// earlier request has a smaller one.
    pub ticket: Option<u64>,
}

impl WaitingView {
    pub open spec fn is_live(self) -> bool {
        !self.dropped
    }

    pub open spec fn is_live_writer(self) -> bool {
        self.is_live() && !self.is_reader
    }

    pub open spec fn call(self) -> Call {
        Call { is_reader: self.is_reader, ticket: self.ticket }
    }
}

/// The places of `pending` whose request has not been dropped, in order.
pub open spec fn live(pending: Seq<WaitingView>) -> Seq<WaitingView> {
    pending.filter(|entry: WaitingView| entry.is_live())
}

/// How many places are ahead of the first live write request, all of them where
/// there is no such request.
pub open spec fn ahead_of_writer(pending: Seq<WaitingView>) -> nat
    decreases pending.len(),
{
    if pending.len() == 0 || pending[0].is_live_writer() {
        0
    } else {
        1 + ahead_of_writer(pending.drop_first())
    }
}

/// Whether a live write request is next, with no live read request before it.
pub open spec fn writer_is_next(pending: Seq<WaitingView>) -> bool {
    let ahead = ahead_of_writer(pending) as int;
    live(pending.take(ahead)).len() == 0 && ahead < pending.len()
}

/// The requests that are next: the first live write request if no live read
/// request is before it, and otherwise every live read request ahead of it.
pub open spec fn woken(pending: Seq<WaitingView>) -> Seq<WaitingView> {
    let ahead = ahead_of_writer(pending) as int;
    if writer_is_next(pending) {
        seq![pending[ahead]]
    } else {
        live(pending.take(ahead))
    }
}

/// How many places leave the queue when those of [`woken`] do: theirs, and the
/// dropped ones before and between them.
pub open spec fn passed(pending: Seq<WaitingView>) -> int {
    if writer_is_next(pending) {
        ahead_of_writer(pending) as int + 1
    } else {
        ahead_of_writer(pending) as int
    }
}

/// The places that remain in the queue when those of [`woken`] have left it.
pub open spec fn left_waiting(pending: Seq<WaitingView>) -> Seq<WaitingView> {
    pending.skip(passed(pending))
}

/// The wakers of `entries`, in order.
pub open spec fn wakers_of(entries: Seq<WaitingView>) -> Seq<Waker> {
    entries.map_values(|entry: WaitingView| entry.waker)
}

/// The calls for `entries`, in order.
pub open spec fn calls_of(entries: Seq<WaitingView>) -> Seq<Call> {
    entries.map_values(|entry: WaitingView| entry.call())
}

/// The place after the request with `ticket` was dropped.
pub open spec fn without_entry(entry: WaitingView, ticket: u64) -> WaitingView {
    WaitingView { dropped: entry.dropped || entry.ticket == ticket, ..entry }
}

/// The queue after the request with `ticket` was dropped.
pub open spec fn without(pending: Seq<WaitingView>, ticket: u64) -> Seq<WaitingView> {
    pending.map_values(|entry: WaitingView| without_entry(entry, ticket))
}

/// The marks of the others, without that of the request with `ticket`.
pub open spec fn uncalled(called: Seq<Call>, ticket: u64) -> Seq<Call> {
    called.filter(|call: Call| call.ticket != ticket)
}

/// Whether `calls` holds a mark of a request with `ticket`.
pub open spec fn marks(calls: Seq<Call>, ticket: u64) -> bool {
    exists|i: int| 0 <= i < calls.len() && (#[trigger] calls[i]).ticket == ticket
}

/// Whether `calls` holds a mark of a write request.
pub open spec fn marks_a_writer(calls: Seq<Call>) -> bool {
    exists|i: int| 0 <= i < calls.len() && !(#[trigger] calls[i]).is_reader
}

/// Whether one of the first `end` places is a live one with `ticket`.
pub open spec fn has_place(pending: Seq<WaitingView>, end: int, ticket: u64) -> bool {
    exists|i: int|
        0 <= i < end && (#[trigger] pending[i]).is_live() && pending[i].ticket == ticket
}

impl StateView {
    /// Nobody holds the cell and nobody waits for it.
    pub open spec fn initial() -> StateView {
        StateView {
            pending: Seq::empty(),
            called: Seq::empty(),
            came: Seq::empty(),
            is_writing: false,
            reader_count: 0,
            next_ticket: 0,
        }
    }

    /// Whether a request with `ticket` is called.
    pub open spec fn calls(self, ticket: u64) -> bool {
        marks(self.called, ticket)
    }

    /// Whether a request with `ticket` was let in and not dropped.
    pub open spec fn saw(self, ticket: u64) -> bool {
        marks(self.came, ticket)
    }

    /// Whether a request with `ticket` was called, be it that it has come or not.
    pub open spec fn had_turn(self, ticket: u64) -> bool {
        self.calls(ticket) || self.saw(ticket)
    }

    /// Whether `request` is called.
    pub open spec fn is_called(self, request: RequestView) -> bool {
        &&& request.ticket is Some
        &&& self.called.contains(
            Call { is_reader: request.is_reader, ticket: request.ticket->0 },
        )
    }

    pub open spec fn calls_a_writer(self) -> bool {
        marks_a_writer(self.called)
    }

    /// Whether `request` has a live place in the queue.
    pub open spec fn is_queued(self, request: RequestView) -> bool {
        exists|i: int|
            {
                &&& 0 <= i < self.pending.len()
                &&& (#[trigger] self.pending[i]).is_live()
                &&& request.ticket == Some(self.pending[i].ticket)
                &&& request.is_reader == self.pending[i].is_reader
            }
    }

    /// Whether `request` was let in and not dropped.
    pub open spec fn has_come(self, request: RequestView) -> bool {
        &&& request.ticket is Some
        &&& self.came.contains(Call { is_reader: request.is_reader, ticket: request.ticket->0 })
    }

    /// Whether `request` can be one of this cell: it never had to wait, or it is
    /// queued or called here, or was let in.
    pub open spec fn knows(self, request: RequestView) -> bool {
        ||| request.ticket is None
        ||| self.is_called(request)
        ||| self.is_queued(request)
        ||| self.has_come(request)
    }

    /// Whether a place or a mark is that of a request with `ticket` of this kind.
    pub open spec fn uses(self, ticket: u64, is_reader: bool) -> bool {
        ||| exists|i: int|
            0 <= i < self.pending.len() && (#[trigger] self.pending[i]).ticket == ticket
                && self.pending[i].is_reader == is_reader
        ||| self.called.contains(Call { is_reader, ticket })
        ||| self.came.contains(Call { is_reader, ticket })
    }

    /// Nobody is inside, and nobody who was called is expected.
    pub open spec fn is_free(self) -> bool {
        !self.is_writing && self.reader_count == 0 && self.called.len() == 0
    }

    /// A writer is alone: with one inside there is no reader and nobody is called,
    /// and one that is called is called alone, with nobody inside.
    pub open spec fn writer_is_alone(self) -> bool {
        &&& self.is_writing ==> self.reader_count == 0 && self.called.len() == 0
        &&& self.calls_a_writer() ==> self.called.len() == 1 && self.reader_count == 0
    }

    /// Every ticket in use was handed out.
    pub open spec fn tickets_are_known(self) -> bool {
        &&& forall|i: int|
            0 <= i < self.pending.len() ==> (#[trigger] self.pending[i]).ticket < self.next_ticket
        &&& forall|i: int|
            0 <= i < self.called.len() ==> (#[trigger] self.called[i]).ticket < self.next_ticket
        &&& forall|i: int|
            0 <= i < self.came.len() ==> (#[trigger] self.came[i]).ticket < self.next_ticket
    }

    /// A ticket belongs to one request, which is to read or to write.
    pub open spec fn kinds_agree(self) -> bool {
        forall|ticket: u64|
            #![trigger self.uses(ticket, true)]
            !(self.uses(ticket, true) && self.uses(ticket, false))
    }

    /// Earlier requests are called first: one that is queued and had no turn yet is
    /// later than all that are called.
    pub open spec fn called_are_first(self) -> bool {
        forall|i: int, j: int|
            #![trigger self.called[i], self.pending[j]]
            0 <= i < self.called.len() && 0 <= j < self.pending.len() && self.pending[j].is_live()
                && !self.had_turn(self.pending[j].ticket) ==> self.called[i].ticket
                < self.pending[j].ticket
    }

    /// Earlier requests are queued first: a request that is queued behind a later
    /// one and had no turn yet has another place ahead of it.
    pub open spec fn queue_is_ordered(self) -> bool {
        forall|i: int, j: int|
            #![trigger self.pending[i], self.pending[j]]
            0 <= i < j < self.pending.len() && self.pending[i].is_live()
                && self.pending[j].is_live() && self.pending[j].ticket < self.pending[i].ticket
                && !self.had_turn(self.pending[j].ticket) ==> has_place(
                self.pending,
                i,
                self.pending[j].ticket,
            )
    }

    pub open spec fn wf(self) -> bool {
        &&& self.writer_is_alone()
        &&& self.tickets_are_known()
        &&& self.kinds_agree()
        &&& self.called_are_first()
        &&& self.queue_is_ordered()
    }

    /// Nobody queues in front of a cell that is free.
    pub open spec fn is_settled(self) -> bool {
        self.is_free() ==> self.pending.len() == 0
    }

    /// Whether `request` has to wait if it is polled now. A writer inside keeps
    /// everyone out, and readers inside keep writers out. Unless it is called, a
    /// read request also waits behind every place in the queue, be its request
    /// dropped or not, and behind a writer that is called, and a write request
    /// behind every live place and everyone who is called.
    pub open spec fn must_wait(self, request: RequestView) -> bool {
        ||| self.is_writing
        ||| !request.is_reader && self.reader_count > 0
        ||| !self.is_called(request) && (if request.is_reader {
            self.pending.len() > 0 || self.calls_a_writer()
        } else {
            live(self.pending).len() > 0 || self.called.len() > 0
        })
    }

    /// The ticket that `request` has, or gets if it has to wait now.
    pub open spec fn ticket_for(self, request: RequestView) -> u64 {
        match request.ticket {
            Some(ticket) => ticket,
            None => self.next_ticket as u64,
        }
    }

    /// The counters can take up one more attempt at `request`.
    pub open spec fn has_room_for(self, request: RequestView) -> bool {
        if self.must_wait(request) {
            request.ticket is None ==> self.next_ticket < u64::MAX
        } else {
            request.is_reader ==> self.reader_count < usize::MAX
        }
    }

    /// The state without the request with `ticket`: its places in the queue are
    /// passed over from now on, and its marks are gone.
    pub open spec fn forget(self, ticket: u64) -> StateView {
        StateView {
            pending: without(self.pending, ticket),
            called: uncalled(self.called, ticket),
            came: uncalled(self.came, ticket),
            ..self
        }
    }

    /// The state after `request` has come: it is no longer expected. If it had to
    /// wait, it is remembered until it is dropped.
    pub open spec fn welcome(self, request: RequestView) -> StateView {
        match request.ticket {
            Some(ticket) => StateView {
                called: uncalled(self.called, ticket),
                came: self.came.push(Call { is_reader: request.is_reader, ticket }),
                ..self
            },
            None => self,
        }
    }

    /// The cell in the hands of one more reader, or of a writer.
    pub open spec fn enter(self, is_reader: bool) -> StateView {
        if is_reader {
            StateView { reader_count: self.reader_count + 1, ..self }
        } else {
            StateView { is_writing: true, ..self }
        }
    }

    /// `request` at the back of the queue.
    pub open spec fn queued(self, request: RequestView, waker: Waker) -> StateView {
        let entry = WaitingView {
            is_reader: request.is_reader,
            waker,
            dropped: false,
            ticket: self.ticket_for(request),
        };
        StateView {
            pending: self.pending.push(entry),
            next_ticket: if request.ticket is None {
                self.next_ticket + 1
            } else {
                self.next_ticket
            },
            ..self
        }
    }

    /// The state after one attempt at `request`. A request that is let in leaves the
    /// queue as it is: places that it still has there are passed over only once it is
    /// dropped.
    pub open spec fn after_poll(self, request: RequestView, waker: Waker) -> StateView {
        if self.must_wait(request) {
            self.queued(request, waker)
        } else {
            self.welcome(request).enter(request.is_reader)
        }
    }

    /// The requests to wake if the cell is free.
    pub open spec fn next_called(self) -> Seq<WaitingView> {
        if self.is_free() {
            woken(self.pending)
        } else {
            Seq::empty()
        }
    }

    /// The state after those who are next were called, if the cell is free.
    pub open spec fn after_wake(self) -> StateView {
        if self.is_free() {
            StateView {
                pending: left_waiting(self.pending),
                called: calls_of(woken(self.pending)),
                ..self
            }
        } else {
            self
        }
    }

    /// The state after `request` was dropped. If it was the last one called, the
    /// next ones are called in its place.
    pub open spec fn after_drop(self, request: RequestView) -> StateView {
        match request.ticket {
            Some(ticket) => self.forget(ticket).after_wake(),
            None => self,
        }
    }

    /// The requests to wake when `request` is dropped.
    pub open spec fn woken_by_drop(self, request: RequestView) -> Seq<WaitingView> {
        match request.ticket {
            Some(ticket) => self.forget(ticket).next_called(),
            None => Seq::empty(),
        }
    }

    /// One reader less inside.
    pub open spec fn reader_left(self) -> StateView {
        StateView { reader_count: (self.reader_count - 1) as nat, ..self }
    }

    /// The state after a reader left.
    pub open spec fn after_read(self) -> StateView {
        self.reader_left().after_wake()
    }

    /// The requests to wake when a reader leaves.
    pub open spec fn woken_by_read(self) -> Seq<WaitingView> {
        self.reader_left().next_called()
    }

    /// No writer inside.
    pub open spec fn writer_left(self) -> StateView {
        StateView { is_writing: false, ..self }
    }

    /// The state after the writer left.
    pub open spec fn after_write(self) -> StateView {
        self.writer_left().after_wake()
    }

    /// The requests to wake when the writer leaves.
    pub open spec fn woken_by_write(self) -> Seq<WaitingView> {
        self.writer_left().next_called()
    }
}

impl RequestView {
    /// The request after one attempt at it in `state`: it has a ticket once it had
    /// to wait.
    pub open spec fn after_poll(self, state: StateView) -> RequestView {
        if state.must_wait(self) {
            RequestView { ticket: Some(state.ticket_for(self)), ..self }
        } else {
            self
        }
    }
}

/// `ahead_of_writer` finds the first live write request.
pub(crate) proof fn lemma_first_writer(pending: Seq<WaitingView>)
    ensures
        ahead_of_writer(pending) <= pending.len(),
        ahead_of_writer(pending) < pending.len() ==> pending[ahead_of_writer(
            pending,
        ) as int].is_live_writer(),
        forall|i: int|
            0 <= i < ahead_of_writer(pending) ==> !(#[trigger] pending[i]).is_live_writer(),
    decreases pending.len(),
{
    if pending.len() > 0 && !pending[0].is_live_writer() {
        let rest = pending.drop_first();
        lemma_first_writer(rest);
        assert forall|i: int| 0 <= i < ahead_of_writer(pending) implies !(
        #[trigger] pending[i]).is_live_writer() by {
            if i > 0 {
                assert(pending[i] == rest[i - 1]);
            }
        }
    }
}

/// The first live write request is where `ahead_of_writer` says.
pub(crate) proof fn lemma_ahead_of_writer(pending: Seq<WaitingView>, ahead: nat)
    requires
        ahead <= pending.len(),
        forall|i: int| 0 <= i < ahead ==> !(#[trigger] pending[i]).is_live_writer(),
        ahead < pending.len() ==> pending[ahead as int].is_live_writer(),
    ensures
        ahead_of_writer(pending) == ahead,
{
    lemma_first_writer(pending);
}

/// The live places of a queue's front grow with it, one place at a time.
pub(crate) proof fn lemma_live_step(pending: Seq<WaitingView>, i: int)
    requires
        0 <= i < pending.len(),
    ensures
        live(pending.take(i + 1)) == if pending[i].is_live() {
            live(pending.take(i)).push(pending[i])
        } else {
            live(pending.take(i))
        },
{
    reveal(Seq::filter);
    assert(pending.take(i + 1).drop_last() =~= pending.take(i));
}

/// What is woken are the live places of those passed, each a reader or alone.
pub(crate) proof fn lemma_woken(pending: Seq<WaitingView>)
    ensures
        0 <= passed(pending) <= pending.len(),
        forall|j: int|
            0 <= j < passed(pending) && (#[trigger] pending[j]).is_live() ==> woken(
                pending,
            ).contains(pending[j]),
        forall|i: int|
            0 <= i < woken(pending).len() ==> pending.take(passed(pending)).contains(
                #[trigger] woken(pending)[i],
            ) && woken(pending)[i].is_live(),
        forall|i: int|
            0 <= i < woken(pending).len() && !(#[trigger] woken(pending)[i]).is_reader ==> woken(
                pending,
            ).len() == 1,
        woken(pending).len() == 0 ==> left_waiting(pending).len() == 0,
{
    lemma_first_writer(pending);
    let ahead = ahead_of_writer(pending) as int;
    let front = pending.take(ahead);
    let is_live = |entry: WaitingView| entry.is_live();
    let gone = pending.take(passed(pending));
    if writer_is_next(pending) {
        assert(gone[ahead] == woken(pending)[0]);
        assert forall|j: int|
            0 <= j < passed(pending) && (#[trigger] pending[j]).is_live() implies woken(
            pending,
        ).contains(pending[j]) by {
            if j < ahead {
                assert(front[j] == pending[j]);
                assert(is_live(front[j]));
                assert(live(front).contains(front[j]));
                assert(false);
            }
            assert(woken(pending)[0] == pending[j]);
        }
    } else {
        assert forall|j: int|
            0 <= j < passed(pending) && (#[trigger] pending[j]).is_live() implies woken(
            pending,
        ).contains(pending[j]) by {
            assert(front[j] == pending[j]);
            assert(is_live(front[j]));
        }
        assert forall|i: int| 0 <= i < woken(pending).len() implies {
            let entry = #[trigger] woken(pending)[i];
            entry.is_live() && entry.is_reader && gone.contains(entry)
        } by {
            let entry = front.filter(is_live)[i];
            assert(front.filter(is_live).contains(entry));
            front.lemma_filter_contains_rev(is_live, entry);
            let at = choose|at: int| 0 <= at < front.len() && front[at] == entry;
            assert(pending[at] == entry);
        }
        if woken(pending).len() == 0 {
            assert(ahead == pending.len());
        }
    }
}

pub(crate) proof fn lemma_some_live(pending: Seq<WaitingView>, i: int)
    requires
        0 <= i < pending.len(),
        pending[i].is_live(),
    ensures
        live(pending).len() > 0,
{
    let is_live = |entry: WaitingView| entry.is_live();
    assert(is_live(pending[i]));
    assert(pending.filter(is_live).contains(pending[i]));
}

pub(crate) proof fn lemma_none_live(pending: Seq<WaitingView>)
    requires
        forall|i: int| 0 <= i < pending.len() ==> !(#[trigger] pending[i]).is_live(),
    ensures
        live(pending).len() == 0,
{
    let is_live = |entry: WaitingView| entry.is_live();
    if live(pending).len() > 0 {
        let entry = pending.filter(is_live)[0];
        assert(is_live(entry));
        assert(pending.filter(is_live).contains(entry));
        pending.lemma_filter_contains_rev(is_live, entry);
    }
}

} // verus!
