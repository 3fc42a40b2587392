use core::future::Future;
use core::task::Waker;
use vstd::prelude::*;

use crate::flag::Flag;
use crate::poll::Poll;

verus! {

/// Futures whose result can be awaited multiple times.
pub trait LocalFutureExt: Future {
    fn shared_local(self) -> (shared: SharedLocal<Self>) where Self: Sized, Self::Output: Clone
        ensures
            shared@ == SharedView::initial(self),
            shared.data.future_or_output == FutureOrOutput::Future(self),
            shared.child_waker_state@.can_poll,
            shared.child_waker_state@.wakers.len() == 0,
    {
        SharedLocal::new(self)
    }
}

impl<T: ?Sized> LocalFutureExt for T where T: Future {

}

/// A future, or what it finished with.
pub enum FutureOrOutput<TFuture: Future> {
    Future(TFuture),
    Output(TFuture::Output),
}

/// The part of a [`SharedLocal`] that the tasks awaiting it use.
pub struct SharedLocalData<TFuture: Future> {
    pub future_or_output: FutureOrOutput<TFuture>,
}

/// The part of a [`SharedLocal`] that the waker handed to its future uses.
#[derive(Debug)]
pub struct ChildWakerState {
    can_poll: Flag,
    wakers: Vec<Waker>,
}

/// A !Send-friendly future whose result can be awaited multiple times.
pub struct SharedLocal<TFuture: Future> {
    pub data: SharedLocalData<TFuture>,
    pub child_waker_state: ChildWakerState,
}

/// What a task that polls a [`SharedLocal`] has to do.
#[derive(Debug, PartialEq, Eq)]
#[must_use]
pub enum SharedPoll<TOutput> {
    /// The future has finished, this is a clone of its output.
    Ready(TOutput),
    /// Wait for the waker to be handed out.
    Pending,
    /// Poll the future, and report what came of it with `finish_poll`.
    PollFuture,
}

/// What a [`ChildWakerState`] stands for.
#[verifier::ext_equal]
pub struct ChildWakerView {
    /// Whether the future is new or was woken since it was last polled.
    pub can_poll: bool,
    /// The tasks to wake when the future can go on, in the order in which they
    /// polled.
    pub wakers: Seq<Waker>,
}

impl ChildWakerView {
    /// Nobody has polled yet.
    pub open spec fn initial() -> ChildWakerView {
        ChildWakerView { can_poll: true, wakers: Seq::empty() }
    }

    /// A task polled, which uses up the leave to poll the future.
    pub open spec fn after_poll(self, waker: Waker) -> ChildWakerView {
        ChildWakerView { can_poll: false, wakers: self.wakers.push(waker) }
    }

    /// The future was woken, by a waker that is used up.
    pub open spec fn after_wake(self) -> ChildWakerView {
        ChildWakerView { can_poll: true, wakers: Seq::empty() }
    }

    /// The future was woken, by a waker that stays.
    pub open spec fn after_wake_by_ref(self) -> ChildWakerView {
        ChildWakerView { can_poll: true, ..self }
    }

    /// The tasks were taken to be woken.
    pub open spec fn after_take(self) -> ChildWakerView {
        ChildWakerView { wakers: Seq::empty(), ..self }
    }
}

/// What a [`SharedLocal`] stands for.
pub struct SharedView<TFuture: Future> {
    pub future_or_output: FutureOrOutput<TFuture>,
    pub child: ChildWakerView,
}

impl<TFuture: Future> SharedView<TFuture> {
    /// A future that nobody has polled yet.
    pub open spec fn initial(future: TFuture) -> SharedView<TFuture> {
        SharedView {
            future_or_output: FutureOrOutput::Future(future),
            child: ChildWakerView::initial(),
        }
    }

    /// A task polled. It is noted down while the future has not finished.
    pub open spec fn after_poll(self, waker: Waker) -> SharedView<TFuture> {
        match self.future_or_output {
            FutureOrOutput::Future(_) => SharedView {
                child: self.child.after_poll(waker),
                ..self
            },
            FutureOrOutput::Output(_) => self,
        }
    }

    /// The future finished with `output`.
    pub open spec fn after_finish(self, output: TFuture::Output) -> SharedView<TFuture> {
        SharedView {
            future_or_output: FutureOrOutput::Output(output),
            child: self.child.after_take(),
        }
    }
}

impl<TFuture: Future> View for SharedLocal<TFuture> {
    type V = SharedView<TFuture>;

    open spec fn view(&self) -> SharedView<TFuture> {
        SharedView {
            future_or_output: self.data.future_or_output,
            child: self.child_waker_state@,
        }
    }
}

impl View for ChildWakerState {
    type V = ChildWakerView;

    closed spec fn view(&self) -> ChildWakerView {
        ChildWakerView { can_poll: self.can_poll@, wakers: self.wakers@ }
    }
}

impl ChildWakerState {
    fn new() -> (state: Self)
        ensures
            state@ == ChildWakerView::initial(),
            state@.can_poll,
            state@.wakers.len() == 0,
    {
        ChildWakerState { can_poll: Flag::raised(), wakers: Vec::new() }
    }

    /// Notes down the waker of a task that polls, and tells whether the task has to
    /// poll the future: no other task has since the future was last woken.
    #[must_use]
    pub fn register(&mut self, waker: Waker) -> (poll_future: bool)
        ensures
            poll_future == old(self)@.can_poll,
            final(self)@ == old(self)@.after_poll(waker),
            final(self)@.wakers == old(self)@.wakers.push(waker),
            !final(self)@.can_poll,
    {
        self.wakers.push(waker);
        self.can_poll.lower()
    }

    /// Takes the wakers of all tasks that wait, to be woken.
    #[must_use]
    pub fn take_wakers(&mut self) -> (wakers: Vec<Waker>)
        ensures
            wakers@ == old(self)@.wakers,
            final(self)@ == old(self)@.after_take(),
            final(self)@.wakers.len() == 0,
            final(self)@.can_poll == old(self)@.can_poll,
    {
        let mut wakers: Vec<Waker> = Vec::new();
        core::mem::swap(&mut wakers, &mut self.wakers);
        wakers
    }

    /// The future can go on: it may be polled again, and the wakers of all tasks
    /// that wait for it are handed out to be woken.
    #[must_use]
    pub fn wake(&mut self) -> (wakers: Vec<Waker>)
        ensures
            wakers@ == old(self)@.wakers,
            final(self)@ == old(self)@.after_wake(),
            final(self)@.wakers.len() == 0,
            final(self)@.can_poll,
    {
        self.can_poll.raise();
        self.take_wakers()
    }

    /// The future can go on: it may be polled again, and the wakers of all tasks
    /// that wait for it are shown to be woken. They stay for the next time.
    #[must_use]
    pub fn wake_by_ref(&mut self) -> (wakers: &Vec<Waker>)
        ensures
            wakers@ == old(self)@.wakers,
            final(self)@ == old(self)@.after_wake_by_ref(),
            final(self)@.wakers == old(self)@.wakers,
            final(self)@.can_poll,
    {
        self.can_poll.raise();
        &self.wakers
    }
}

impl<TFuture: Future> SharedLocalData<TFuture> where TFuture::Output: Clone {
    /// A clone of what the future finished with, `None` while it has not finished.
    pub fn output(&self) -> (output: Option<TFuture::Output>)
        ensures
            match self.future_or_output {
                FutureOrOutput::Future(_) => output is None,
                FutureOrOutput::Output(kept) => output matches Some(result) && call_ensures(
                    TFuture::Output::clone,
                    (&kept,),
                    result,
                ),
            },
    {
        match &self.future_or_output {
            FutureOrOutput::Future(_) => None,
            FutureOrOutput::Output(result) => Some(result.clone()),
        }
    }

    /// The future that a task was told to poll, `None` once it has finished.
    pub fn future_mut(&mut self) -> (future: Option<&mut TFuture>)
        ensures
            match old(self).future_or_output {
                FutureOrOutput::Future(unfinished) => {
                    &&& future matches Some(found) && *found == unfinished
                        && final(self).future_or_output == FutureOrOutput::Future(*final(found))
                },
                FutureOrOutput::Output(_) => future is None && *final(self) == *old(self),
            },
    {
        match &mut self.future_or_output {
            FutureOrOutput::Future(future) => Some(future),
            FutureOrOutput::Output(_) => None,
        }
    }

    /// Takes note of what came of polling the future: a result is kept for those
    /// who poll later.
    pub fn finish_poll(&mut self, polled: Poll<TFuture::Output>) -> (finished: Poll<
        TFuture::Output,
    >)
        requires
            old(self).future_or_output is Future,
        ensures
            finished == polled,
            match polled {
                Poll::Ready(result) => {
                    &&& final(self).future_or_output matches FutureOrOutput::Output(output)
                        && call_ensures(TFuture::Output::clone, (&result,), output)
                },
                Poll::Pending => *final(self) == *old(self),
            },
    {
        match polled {
            Poll::Ready(result) => {
                self.future_or_output = FutureOrOutput::Output(result.clone());
                Poll::Ready(result)
            },
            Poll::Pending => Poll::Pending,
        }
    }
}

impl<TFuture: Future> SharedLocal<TFuture> where TFuture::Output: Clone {
    pub fn new(future: TFuture) -> (shared: Self)
        ensures
            shared@ == SharedView::initial(future),
            shared.data.future_or_output == FutureOrOutput::Future(future),
            shared.child_waker_state@.can_poll,
            shared.child_waker_state@.wakers.len() == 0,
    {
        SharedLocal {
            data: SharedLocalData { future_or_output: FutureOrOutput::Future(future) },
            child_waker_state: ChildWakerState::new(),
        }
    }

    /// What a task with `waker` has to do. While the future has not finished the
    /// task is noted down, and polls the future itself only if no other task has
    /// done so since the future was last woken.
    pub fn poll(&mut self, waker: Waker) -> (polled: SharedPoll<TFuture::Output>)
        ensures
            match old(self)@.future_or_output {
                FutureOrOutput::Future(_) => if old(self)@.child.can_poll {
                    polled is PollFuture
                } else {
                    polled is Pending
                },
                FutureOrOutput::Output(output) => polled matches SharedPoll::Ready(result)
                    && call_ensures(TFuture::Output::clone, (&output,), result),
            },
            final(self)@ == old(self)@.after_poll(waker),
            final(self).data == old(self).data,
            polled is PollFuture <==> old(self).data.future_or_output is Future
                && old(self).child_waker_state@.can_poll,
            polled is Ready <==> old(self).data.future_or_output is Output,
            polled is Ready ==> final(self).child_waker_state@ == old(self).child_waker_state@,
            !(polled is Ready) ==> {
                &&& !final(self).child_waker_state@.can_poll
                &&& final(self).child_waker_state@.wakers
                    == old(self).child_waker_state@.wakers.push(waker)
            },
    {
        match self.data.output() {
            Some(output) => SharedPoll::Ready(output),
            None => {
                if self.child_waker_state.register(waker) {
                    SharedPoll::PollFuture
                } else {
                    SharedPoll::Pending
                }
            },
        }
    }

    /// Takes note of what came of polling the future. A result is kept for those
    /// who poll later, and the wakers of all tasks that wait are returned to be
    /// woken.
    pub fn finish_poll(&mut self, polled: Poll<TFuture::Output>) -> (finished: (
        Poll<TFuture::Output>,
        Vec<Waker>,
    ))
        requires
            old(self)@.future_or_output is Future,
        ensures
            finished.0 == polled,
            match polled {
                Poll::Ready(result) => {
                    &&& final(self)@.future_or_output matches FutureOrOutput::Output(output)
                        && call_ensures(TFuture::Output::clone, (&result,), output)
                        && final(self)@ == old(self)@.after_finish(output)
                    &&& finished.1@ == old(self)@.child.wakers
                },
                Poll::Pending => {
                    &&& final(self)@ == old(self)@
                    &&& finished.1@ == Seq::<Waker>::empty()
                },
            },
            final(self).child_waker_state@.can_poll == old(self).child_waker_state@.can_poll,
            polled is Ready ==> {
                &&& final(self).data.future_or_output is Output
                &&& finished.1@ == old(self).child_waker_state@.wakers
                &&& final(self).child_waker_state@.wakers.len() == 0
            },
            polled is Pending ==> {
                &&& final(self).data == old(self).data
                &&& finished.1@.len() == 0
                &&& final(self).child_waker_state@.wakers == old(self).child_waker_state@.wakers
            },
    {
        match self.data.finish_poll(polled) {
            Poll::Ready(result) => (Poll::Ready(result), self.child_waker_state.take_wakers()),
            Poll::Pending => (Poll::Pending, Vec::new()),
        }
    }
}

} // verus!
