use core::task::Waker;
use vstd::prelude::*;

use crate::model::RequestView;
use crate::model::StateView;
use crate::state::AcquireFuture;

verus! {

/// What came of one attempt to get hold of a cell.
#[derive(Debug)]
#[must_use]
pub enum Acquire<TPermit> {
    /// The request is over and access was granted.
    Granted(TPermit),
    /// The request is in the queue. It is to be tried again when its waker has
    /// been handed out, or to be cancelled.
    Waiting(AcquireFuture),
}

/// What a cell stands for: who holds it and waits for it, and what is in it.
pub struct CellView<T> {
    pub state: StateView,
    pub value: T,
}

impl<T> CellView<T> {
    /// A cell that nobody holds.
    pub open spec fn initial(value: T) -> CellView<T> {
        CellView { state: StateView::initial(), value }
    }

    /// The cell after one attempt at `request`. A request that is granted is over:
    /// it is dropped, with whatever places it still has in the queue.
    pub open spec fn after_poll(self, request: RequestView, waker: Waker) -> CellView<T> {
        let polled = self.state.after_poll(request, waker);
        let state = if self.state.must_wait(request) {
            polled
        } else {
            polled.after_drop(request)
        };
        CellView { state, ..self }
    }

    /// The cell after `request` was given up.
    pub open spec fn after_cancel(self, request: RequestView) -> CellView<T> {
        CellView { state: self.state.after_drop(request), ..self }
    }

    /// The cell after a reader left.
    pub open spec fn after_read(self) -> CellView<T> {
        CellView { state: self.state.after_read(), ..self }
    }

    /// The cell after the writer left.
    pub open spec fn after_write(self) -> CellView<T> {
        CellView { state: self.state.after_write(), ..self }
    }
}

} // verus!
