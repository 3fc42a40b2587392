use core::marker::PhantomData;
use core::task::Waker;
use vstd::prelude::*;

use crate::cell::Acquire;
use crate::cell::CellView;
use crate::model;
use crate::model::RequestView;
use crate::poll::Poll;
use crate::state::AcquireFuture;
use crate::state::State;

verus! {

/// An unsync read-write cell that handles read and write requests in order.
/// Read requests can proceed at the same time as another read request, but
/// write requests must wait for all other requests to finish before proceeding.
///
/// A request that cannot proceed takes the last place in the queue. When the cell
/// gets free those in front are called: their wakers are handed out, and they are
/// let in before anyone who comes later and would keep them out.
#[derive(Debug)]
pub struct AsyncRefCell<T> {
    state: State,
    inner: T,
}

impl<T> View for AsyncRefCell<T> {
    type V = CellView<T>;

    closed spec fn view(&self) -> CellView<T> {
        CellView { state: self.state@, value: self.inner }
    }
}

impl<T> Default for AsyncRefCell<T> where T: Default {
    fn default() -> (cell: Self)
        ensures
            cell@ == CellView::initial(cell@.value),
            call_ensures(T::default, (), cell@.value),
    {
        Self::new(T::default())
    }
}

impl<T> AsyncRefCell<T> {
    pub fn new(value: T) -> (cell: Self)
        ensures
            cell@ == CellView::initial(value),
            cell@.value == value,
    {
        AsyncRefCell { state: State::default(), inner: value }
    }

    /// Makes a request for a shared borrow, which
    /// [`poll_borrow`](Self::poll_borrow) drives.
    pub fn borrow(&self) -> (request: AcquireFuture)
        ensures
            request@ == (RequestView { is_reader: true, ticket: None }),
    {
        AcquireFuture::new(true)
    }

    /// Makes a request for an exclusive borrow, which
    /// [`poll_borrow_mut`](Self::poll_borrow_mut) drives.
    pub fn borrow_mut(&self) -> (request: AcquireFuture)
        ensures
            request@ == (RequestView { is_reader: false, ticket: None }),
    {
        AcquireFuture::new(false)
    }

    /// Whether `request` can be polled without running out of tickets or readers.
    pub fn has_room_for(&self, request: &AcquireFuture) -> (room: bool)
        ensures
            room == self@.state.has_room_for(request@),
            self@.state.reader_count < usize::MAX && self@.state.next_ticket < u64::MAX ==> room,
    {
        self.state.has_room_for(request)
    }

    /// Whether `request` can be one of this cell.
    pub fn knows(&self, request: &AcquireFuture) -> (known: bool)
        ensures
            known == self@.state.knows(request@),
    {
        self.state.knows(request)
    }

    /// Whether a shared borrow is out.
    pub fn is_borrowed(&self) -> (borrowed: bool)
        ensures
            borrowed == (self@.state.reader_count > 0),
    {
        self.state.reader_count() > 0
    }

    /// Whether the exclusive borrow is out.
    pub fn is_borrowed_mut(&self) -> (borrowed: bool)
        ensures
            borrowed == self@.state.is_writing,
    {
        self.state.is_writing()
    }

    /// Tries to borrow the cell.
    pub fn poll_borrow(&mut self, request: AcquireFuture, waker: Waker) -> (acquired: Acquire<
        AsyncRefCellBorrow<T>,
    >)
        requires
            request@.is_reader,
            old(self)@.state.knows(request@),
            old(self)@.state.has_room_for(request@),
        ensures
            match acquired {
                Acquire::Granted(_) => {
                    &&& !old(self)@.state.must_wait(request@)
                    &&& !final(self)@.state.is_writing
                    &&& final(self)@.state.reader_count == old(self)@.state.reader_count + 1
                },
                Acquire::Waiting(waiting) => {
                    &&& old(self)@.state.must_wait(request@)
                    &&& waiting@ == request@.after_poll(old(self)@.state)
                    &&& final(self)@.state.knows(waiting@)
                    &&& final(self)@.state.pending.drop_last() == old(self)@.state.pending
                    &&& final(self)@.state.pending.len() == old(self)@.state.pending.len() + 1
                    &&& final(self)@.state.pending.last().waker == waker
                    &&& final(self)@.state.pending.last().is_reader == waiting@.is_reader
                    &&& !final(self)@.state.pending.last().dropped
                    &&& waiting@.ticket == Some(final(self)@.state.pending.last().ticket)
                    &&& waiting@.is_reader == request@.is_reader
                },
            },
            final(self)@ == old(self)@.after_poll(request@, waker),
            final(self)@.value == old(self)@.value,
            final(self)@.state.wf(),
    {
        let mut request = request;
        match request.poll(&mut self.state, waker) {
            Poll::Ready(()) => {
                // somebody is inside now, so there is nobody to wake
                let wakers = request.abandon(&mut self.state);
                assert(wakers@.len() == 0);
                Acquire::Granted(AsyncRefCellBorrow { cell: PhantomData })
            },
            Poll::Pending => Acquire::Waiting(request),
        }
    }

    /// Tries to borrow the cell mutably.
    pub fn poll_borrow_mut(&mut self, request: AcquireFuture, waker: Waker) -> (acquired: Acquire<
        AsyncRefCellBorrowMut<T>,
    >)
        requires
            !request@.is_reader,
            old(self)@.state.knows(request@),
            old(self)@.state.has_room_for(request@),
        ensures
            match acquired {
                Acquire::Granted(_) => {
                    &&& !old(self)@.state.must_wait(request@)
                    &&& !old(self)@.state.is_writing
                    &&& final(self)@.state.is_writing
                    &&& final(self)@.state.reader_count == 0
                },
                Acquire::Waiting(waiting) => {
                    &&& old(self)@.state.must_wait(request@)
                    &&& waiting@ == request@.after_poll(old(self)@.state)
                    &&& final(self)@.state.knows(waiting@)
                    &&& final(self)@.state.pending.drop_last() == old(self)@.state.pending
                    &&& final(self)@.state.pending.len() == old(self)@.state.pending.len() + 1
                    &&& final(self)@.state.pending.last().waker == waker
                    &&& final(self)@.state.pending.last().is_reader == waiting@.is_reader
                    &&& !final(self)@.state.pending.last().dropped
                    &&& waiting@.ticket == Some(final(self)@.state.pending.last().ticket)
                    &&& waiting@.is_reader == request@.is_reader
                },
            },
            final(self)@ == old(self)@.after_poll(request@, waker),
            final(self)@.value == old(self)@.value,
            final(self)@.state.wf(),
    {
        let mut request = request;
        match request.poll(&mut self.state, waker) {
            Poll::Ready(()) => {
                // somebody is inside now, so there is nobody to wake
                let wakers = request.abandon(&mut self.state);
                assert(wakers@.len() == 0);
                Acquire::Granted(AsyncRefCellBorrowMut { cell: PhantomData })
            },
            Poll::Pending => Acquire::Waiting(request),
        }
    }

    /// Gives up `request`, and returns the wakers to wake.
    #[must_use]
    pub fn cancel(&mut self, request: AcquireFuture) -> (wakers: Vec<Waker>)
        requires
            old(self)@.state.knows(request@),
        ensures
            wakers@ == model::wakers_of(old(self)@.state.woken_by_drop(request@)),
            wakers@.len() == old(self)@.state.woken_by_drop(request@).len(),
            forall|i: int|
                0 <= i < wakers@.len() ==> #[trigger] wakers@[i] == old(self)@.state.woken_by_drop(request@)[i].waker,
            final(self)@.value == old(self)@.value,
            final(self)@ == old(self)@.after_cancel(request@),
            final(self)@.state.wf(),
    {
        request.abandon(&mut self.state)
    }
}

/// A shared borrow of the [`AsyncRefCell`] that granted it.
#[derive(Debug)]
#[must_use]
pub struct AsyncRefCellBorrow<T> {
    cell: PhantomData<T>,
}

impl<T> AsyncRefCellBorrow<T> {
    /// The value in the cell.
    pub fn deref<'a>(&'a self, cell: &'a AsyncRefCell<T>) -> (value: &'a T)
        requires
            cell@.state.reader_count > 0,
        ensures
            *value == cell@.value,
    {
        &cell.inner
    }

    /// Gives the borrow back, and returns the wakers to wake.
    #[must_use]
    pub fn release(self, cell: &mut AsyncRefCell<T>) -> (wakers: Vec<Waker>)
        requires
            old(cell)@.state.reader_count > 0,
        ensures
            wakers@ == model::wakers_of(old(cell)@.state.woken_by_read()),
            wakers@.len() == old(cell)@.state.woken_by_read().len(),
            forall|i: int|
                0 <= i < wakers@.len() ==> #[trigger] wakers@[i] == old(cell)@.state.woken_by_read()[i].waker,
            old(cell)@.state.called.len() == 0 ==> wakers@.len()
                == final(cell)@.state.called.len(),
            final(cell)@.state.reader_count == old(cell)@.state.reader_count - 1,
            final(cell)@.value == old(cell)@.value,
            final(cell)@ == old(cell)@.after_read(),
            final(cell)@.state.wf(),
    {
        cell.state.release_read()
    }
}

/// An exclusive borrow of the [`AsyncRefCell`] that granted it.
#[derive(Debug)]
#[must_use]
pub struct AsyncRefCellBorrowMut<T> {
    cell: PhantomData<T>,
}

impl<T> AsyncRefCellBorrowMut<T> {
    /// The value in the cell.
    pub fn deref<'a>(&'a self, cell: &'a AsyncRefCell<T>) -> (value: &'a T)
        requires
            cell@.state.is_writing,
        ensures
            *value == cell@.value,
    {
        &cell.inner
    }

    /// The value in the cell, to be changed.
    pub fn deref_mut<'a>(&'a mut self, cell: &'a mut AsyncRefCell<T>) -> (value: &'a mut T)
        requires
            old(cell)@.state.is_writing,
        ensures
            *value == old(cell)@.value,
            final(cell)@ == (CellView { value: *final(value), ..old(cell)@ }),
    {
        &mut cell.inner
    }

    /// Gives the borrow back, and returns the wakers to wake.
    #[must_use]
    pub fn release(self, cell: &mut AsyncRefCell<T>) -> (wakers: Vec<Waker>)
        requires
            old(cell)@.state.is_writing,
        ensures
            wakers@ == model::wakers_of(old(cell)@.state.woken_by_write()),
            wakers@.len() == old(cell)@.state.woken_by_write().len(),
            forall|i: int|
                0 <= i < wakers@.len() ==> #[trigger] wakers@[i] == old(cell)@.state.woken_by_write()[i].waker,
            wakers@.len() == final(cell)@.state.called.len(),
            !final(cell)@.state.is_writing,
            final(cell)@.value == old(cell)@.value,
            final(cell)@ == old(cell)@.after_write(),
            final(cell)@.state.wf(),
    {
        cell.state.release_write()
    }
}

} // verus!
