use core::marker::PhantomData;
use core::task::Waker;
use vstd::prelude::*;

use crate::cell::Acquire;
use crate::cell::CellView;
use crate::model;
use crate::model::RequestView;
use crate::poll::Poll;
use crate::state::AcquireFuture;
use crate::state::State;

verus! {

/// An unsync read-write cell that handles read and write requests in order.
/// Read requests can proceed at the same time as another read request, but
/// write requests must wait for all other requests to finish before proceeding.
///
/// A request that cannot proceed takes the last place in the queue. When the cell
/// gets free those in front are called: their wakers are handed out, and they are
/// let in before anyone who comes later and would keep them out.
#[derive(Debug)]
pub struct AsyncRwCell<T> {
    state: State,
    inner: T,
}

impl<T> View for AsyncRwCell<T> {
    type V = CellView<T>;

    closed spec fn view(&self) -> CellView<T> {
        CellView { state: self.state@, value: self.inner }
    }
}

impl<T> Default for AsyncRwCell<T> where T: Default {
    fn default() -> (cell: Self)
        ensures
            cell@ == CellView::initial(cell@.value),
            call_ensures(T::default, (), cell@.value),
    {
        Self::new(T::default())
    }
}

impl<T> AsyncRwCell<T> {
    pub fn new(value: T) -> (cell: Self)
        ensures
            cell@ == CellView::initial(value),
            cell@.value == value,
    {
        AsyncRwCell { state: State::default(), inner: value }
    }

    /// Makes a request to read, which [`poll_read`](Self::poll_read) drives.
    pub fn read(&self) -> (request: AcquireFuture)
        ensures
            request@ == (RequestView { is_reader: true, ticket: None }),
    {
        AcquireFuture::new(true)
    }

    /// Makes a request to write, which [`poll_write`](Self::poll_write) drives.
    pub fn write(&self) -> (request: AcquireFuture)
        ensures
            request@ == (RequestView { is_reader: false, ticket: None }),
    {
        AcquireFuture::new(false)
    }

    /// Whether `request` can be polled without running out of tickets or readers.
    pub fn has_room_for(&self, request: &AcquireFuture) -> (room: bool)
        ensures
            room == self@.state.has_room_for(request@),
            self@.state.reader_count < usize::MAX && self@.state.next_ticket < u64::MAX ==> room,
    {
        self.state.has_room_for(request)
    }

    /// Whether `request` can be one of this cell.
    pub fn knows(&self, request: &AcquireFuture) -> (known: bool)
        ensures
            known == self@.state.knows(request@),
    {
        self.state.knows(request)
    }

    /// Whether a reader holds the cell.
    pub fn is_reading(&self) -> (reading: bool)
        ensures
            reading == (self@.state.reader_count > 0),
    {
        self.state.reader_count() > 0
    }

    /// Whether a writer holds the cell.
    pub fn is_writing(&self) -> (writing: bool)
        ensures
            writing == self@.state.is_writing,
    {
        self.state.is_writing()
    }

    /// Tries to get hold of the cell to read it.
    pub fn poll_read(&mut self, request: AcquireFuture, waker: Waker) -> (acquired: Acquire<
        AsyncRwCellReadPermit<T>,
    >)
        requires
            request@.is_reader,
            old(self)@.state.knows(request@),
            old(self)@.state.has_room_for(request@),
        ensures
            match acquired {
                Acquire::Granted(_) => {
                    &&& !old(self)@.state.must_wait(request@)
                    &&& !final(self)@.state.is_writing
                    &&& final(self)@.state.reader_count == old(self)@.state.reader_count + 1
                },
                Acquire::Waiting(waiting) => {
                    &&& old(self)@.state.must_wait(request@)
                    &&& waiting@ == request@.after_poll(old(self)@.state)
                    &&& final(self)@.state.knows(waiting@)
                    &&& final(self)@.state.pending.drop_last() == old(self)@.state.pending
                    &&& final(self)@.state.pending.len() == old(self)@.state.pending.len() + 1
                    &&& final(self)@.state.pending.last().waker == waker
                    &&& final(self)@.state.pending.last().is_reader == waiting@.is_reader
                    &&& !final(self)@.state.pending.last().dropped
                    &&& waiting@.ticket == Some(final(self)@.state.pending.last().ticket)
                    &&& waiting@.is_reader == request@.is_reader
                },
            },
            final(self)@ == old(self)@.after_poll(request@, waker),
            final(self)@.value == old(self)@.value,
            final(self)@.state.wf(),
    {
        let mut request = request;
        match request.poll(&mut self.state, waker) {
            Poll::Ready(()) => {
                // somebody is inside now, so there is nobody to wake
                let wakers = request.abandon(&mut self.state);
                assert(wakers@.len() == 0);
                Acquire::Granted(AsyncRwCellReadPermit { cell: PhantomData })
            },
            Poll::Pending => Acquire::Waiting(request),
        }
    }

    /// Tries to get hold of the cell to write it.
    pub fn poll_write(&mut self, request: AcquireFuture, waker: Waker) -> (acquired: Acquire<
        AsyncRwCellWritePermit<T>,
    >)
        requires
            !request@.is_reader,
            old(self)@.state.knows(request@),
            old(self)@.state.has_room_for(request@),
        ensures
            match acquired {
                Acquire::Granted(_) => {
                    &&& !old(self)@.state.must_wait(request@)
                    &&& !old(self)@.state.is_writing
                    &&& final(self)@.state.is_writing
                    &&& final(self)@.state.reader_count == 0
                },
                Acquire::Waiting(waiting) => {
                    &&& old(self)@.state.must_wait(request@)
                    &&& waiting@ == request@.after_poll(old(self)@.state)
                    &&& final(self)@.state.knows(waiting@)
                    &&& final(self)@.state.pending.drop_last() == old(self)@.state.pending
                    &&& final(self)@.state.pending.len() == old(self)@.state.pending.len() + 1
                    &&& final(self)@.state.pending.last().waker == waker
                    &&& final(self)@.state.pending.last().is_reader == waiting@.is_reader
                    &&& !final(self)@.state.pending.last().dropped
                    &&& waiting@.ticket == Some(final(self)@.state.pending.last().ticket)
                    &&& waiting@.is_reader == request@.is_reader
                },
            },
            final(self)@ == old(self)@.after_poll(request@, waker),
            final(self)@.value == old(self)@.value,
            final(self)@.state.wf(),
    {
        let mut request = request;
        match request.poll(&mut self.state, waker) {
            Poll::Ready(()) => {
                // somebody is inside now, so there is nobody to wake
                let wakers = request.abandon(&mut self.state);
                assert(wakers@.len() == 0);
                Acquire::Granted(AsyncRwCellWritePermit { cell: PhantomData })
            },
            Poll::Pending => Acquire::Waiting(request),
        }
    }

    /// Gives up `request`, and returns the wakers to wake.
    #[must_use]
    pub fn cancel(&mut self, request: AcquireFuture) -> (wakers: Vec<Waker>)
        requires
            old(self)@.state.knows(request@),
        ensures
            wakers@ == model::wakers_of(old(self)@.state.woken_by_drop(request@)),
            wakers@.len() == old(self)@.state.woken_by_drop(request@).len(),
            forall|i: int|
                0 <= i < wakers@.len() ==> #[trigger] wakers@[i] == old(self)@.state.woken_by_drop(request@)[i].waker,
            final(self)@.value == old(self)@.value,
            final(self)@ == old(self)@.after_cancel(request@),
            final(self)@.state.wf(),
    {
        request.abandon(&mut self.state)
    }
}

/// Read access to the [`AsyncRwCell`] that granted it.
#[derive(Debug)]
#[must_use]
pub struct AsyncRwCellReadPermit<T> {
    cell: PhantomData<T>,
}

impl<T> AsyncRwCellReadPermit<T> {
    /// The value in the cell.
    pub fn deref<'a>(&'a self, cell: &'a AsyncRwCell<T>) -> (value: &'a T)
        requires
            cell@.state.reader_count > 0,
        ensures
            *value == cell@.value,
    {
        &cell.inner
    }

    /// Gives the access back, and returns the wakers to wake.
    #[must_use]
    pub fn release(self, cell: &mut AsyncRwCell<T>) -> (wakers: Vec<Waker>)
        requires
            old(cell)@.state.reader_count > 0,
        ensures
            wakers@ == model::wakers_of(old(cell)@.state.woken_by_read()),
            wakers@.len() == old(cell)@.state.woken_by_read().len(),
            forall|i: int|
                0 <= i < wakers@.len() ==> #[trigger] wakers@[i] == old(cell)@.state.woken_by_read()[i].waker,
            old(cell)@.state.called.len() == 0 ==> wakers@.len()
                == final(cell)@.state.called.len(),
            final(cell)@.state.reader_count == old(cell)@.state.reader_count - 1,
            final(cell)@.value == old(cell)@.value,
            final(cell)@ == old(cell)@.after_read(),
            final(cell)@.state.wf(),
    {
        cell.state.release_read()
    }
}

/// Write access to the [`AsyncRwCell`] that granted it.
#[derive(Debug)]
#[must_use]
pub struct AsyncRwCellWritePermit<T> {
    cell: PhantomData<T>,
}

impl<T> AsyncRwCellWritePermit<T> {
    /// The value in the cell.
    pub fn deref<'a>(&'a self, cell: &'a AsyncRwCell<T>) -> (value: &'a T)
        requires
            cell@.state.is_writing,
        ensures
            *value == cell@.value,
    {
        &cell.inner
    }

    /// The value in the cell, to be changed.
    pub fn deref_mut<'a>(&'a mut self, cell: &'a mut AsyncRwCell<T>) -> (value: &'a mut T)
        requires
            old(cell)@.state.is_writing,
        ensures
            *value == old(cell)@.value,
            final(cell)@ == (CellView { value: *final(value), ..old(cell)@ }),
    {
        &mut cell.inner
    }

    /// Gives the access back, and returns the wakers to wake.
    #[must_use]
    pub fn release(self, cell: &mut AsyncRwCell<T>) -> (wakers: Vec<Waker>)
        requires
            old(cell)@.state.is_writing,
        ensures
            wakers@ == model::wakers_of(old(cell)@.state.woken_by_write()),
            wakers@.len() == old(cell)@.state.woken_by_write().len(),
            forall|i: int|
                0 <= i < wakers@.len() ==> #[trigger] wakers@[i] == old(cell)@.state.woken_by_write()[i].waker,
            wakers@.len() == final(cell)@.state.called.len(),
            !final(cell)@.state.is_writing,
            final(cell)@.value == old(cell)@.value,
            final(cell)@ == old(cell)@.after_write(),
            final(cell)@.state.wf(),
    {
        cell.state.release_write()
    }
}

} // verus!
