use core::future::Future;
use core::task::Waker;
use vstd::prelude::*;

use crate::future::ChildWakerView;
use crate::future::FutureOrOutput;
use crate::future::SharedView;

verus! {

/// Something that happens to a shared future.
pub enum SharedStep<TFuture: Future> {
    /// A task polls.
    Poll { waker: Waker },
    /// A task polls the future, which becomes `future` and has not finished.
    Progress { future: TFuture },
    /// A task polls the future, which finishes with `output`.
    Finish { output: TFuture::Output },
    /// The future is woken, by a waker that is used up.
    Wake,
    /// The future is woken, by a waker that stays.
    WakeByRef,
}

impl<TFuture: Future> SharedView<TFuture> {
    /// Whether `step` can happen: a future that has finished is not polled.
    pub open spec fn allows(self, step: SharedStep<TFuture>) -> bool {
        step is Progress || step is Finish ==> self.future_or_output is Future
    }

    pub open spec fn after(self, step: SharedStep<TFuture>) -> SharedView<TFuture> {
        match step {
            SharedStep::Poll { waker } => self.after_poll(waker),
            SharedStep::Progress { future } => SharedView {
                future_or_output: FutureOrOutput::Future(future),
                ..self
            },
            SharedStep::Finish { output } => self.after_finish(output),
            SharedStep::Wake => SharedView { child: self.child.after_wake(), ..self },
            SharedStep::WakeByRef => SharedView { child: self.child.after_wake_by_ref(), ..self },
        }
    }

    /// The waker that `step` notes down, if it notes one down.
    pub open spec fn noted_by(self, step: SharedStep<TFuture>) -> Seq<Waker> {
        match step {
            SharedStep::Poll { waker } if self.future_or_output is Future => seq![waker],
            _ => Seq::empty(),
        }
    }

    /// The wakers that `step` hands out to be woken and no longer keeps.
    pub open spec fn handed_out_by(self, step: SharedStep<TFuture>) -> Seq<Waker> {
        match step {
            SharedStep::Finish { .. } => self.child.wakers,
            SharedStep::Wake => self.child.wakers,
            _ => Seq::empty(),
        }
    }
}

/// `shared` after `steps`.
pub open spec fn run_shared<TFuture: Future>(
    shared: SharedView<TFuture>,
    steps: Seq<SharedStep<TFuture>>,
) -> SharedView<TFuture>
    decreases steps.len(),
{
    if steps.len() == 0 {
        shared
    } else {
        run_shared(shared, steps.drop_last()).after(steps.last())
    }
}

/// Whether `steps` can happen to `shared`, one after the other.
pub open spec fn can_run_shared<TFuture: Future>(
    shared: SharedView<TFuture>,
    steps: Seq<SharedStep<TFuture>>,
) -> bool
    decreases steps.len(),
{
    steps.len() > 0 ==> can_run_shared(shared, steps.drop_last()) && run_shared(
        shared,
        steps.drop_last(),
    ).allows(steps.last())
}

/// The wakers that were noted down during `steps`, in order.
pub open spec fn noted_in<TFuture: Future>(
    shared: SharedView<TFuture>,
    steps: Seq<SharedStep<TFuture>>,
) -> Seq<Waker>
    decreases steps.len(),
{
    if steps.len() == 0 {
        Seq::empty()
    } else {
        let earlier = steps.drop_last();
        noted_in(shared, earlier) + run_shared(shared, earlier).noted_by(steps.last())
    }
}

/// The wakers that were handed out during `steps`, in order.
pub open spec fn handed_out_in<TFuture: Future>(
    shared: SharedView<TFuture>,
    steps: Seq<SharedStep<TFuture>>,
) -> Seq<Waker>
    decreases steps.len(),
{
    if steps.len() == 0 {
        Seq::empty()
    } else {
        let earlier = steps.drop_last();
        handed_out_in(shared, earlier) + run_shared(shared, earlier).handed_out_by(steps.last())
    }
}

/// The result can be awaited multiple times: once the future has finished with
/// `output`, that is what every later poll finds, whatever happens in between,
/// and nobody is left waiting.
pub proof fn law_output_stays<TFuture: Future>(
    shared: SharedView<TFuture>,
    output: TFuture::Output,
    steps: Seq<SharedStep<TFuture>>,
)
    requires
        can_run_shared(shared.after_finish(output), steps),
    ensures
        run_shared(shared.after_finish(output), steps).future_or_output == FutureOrOutput::<
            TFuture,
        >::Output(output),
        run_shared(shared.after_finish(output), steps).child.wakers.len() == 0,
    decreases steps.len(),
{
    if steps.len() > 0 {
        law_output_stays(shared, output, steps.drop_last());
    }
}

/// Nobody who waits is forgotten: whatever happens, the wakers that were handed out,
/// followed by those that are still noted down, are all that were noted down, each
/// as often as its task polled and in order.
pub proof fn law_waiters_are_kept<TFuture: Future>(
    future: TFuture,
    steps: Seq<SharedStep<TFuture>>,
)
    ensures
        ({
            let shared = SharedView::initial(future);
            handed_out_in(shared, steps) + run_shared(shared, steps).child.wakers == noted_in(
                shared,
                steps,
            )
        }),
    decreases steps.len(),
{
    let shared = SharedView::initial(future);
    if steps.len() == 0 {
        assert(handed_out_in(shared, steps) + run_shared(shared, steps).child.wakers =~= noted_in(
            shared,
            steps,
        ));
    } else {
        let earlier = steps.drop_last();
        law_waiters_are_kept(future, earlier);
        let before = run_shared(shared, earlier);
        assert(before.handed_out_by(steps.last()) + before.after(steps.last()).child.wakers
            =~= before.child.wakers + before.noted_by(steps.last()));
        assert(handed_out_in(shared, steps) + run_shared(shared, steps).child.wakers
            =~= handed_out_in(shared, earlier) + (before.handed_out_by(steps.last())
            + before.after(steps.last()).child.wakers));
        assert(noted_in(shared, steps) =~= handed_out_in(shared, earlier) + (before.child.wakers
            + before.noted_by(steps.last())));
    }
}

/// Whether `step` wakes the future.
pub open spec fn is_wake<TFuture: Future>(step: SharedStep<TFuture>) -> bool {
    step is Wake || step is WakeByRef
}

/// The future is polled once for each time it is woken: after a task was told to
/// poll it, whatever happens, no other is told so until it is woken.
pub proof fn law_one_poll_for_each_wake<TFuture: Future>(
    shared: SharedView<TFuture>,
    first: Waker,
    steps: Seq<SharedStep<TFuture>>,
)
    requires
        shared.future_or_output is Future,
        forall|i: int| 0 <= i < steps.len() ==> !is_wake(#[trigger] steps[i]),
    ensures
        !run_shared(shared.after_poll(first), steps).child.can_poll,
    decreases steps.len(),
{
    if steps.len() > 0 {
        let earlier = steps.drop_last();
        assert(forall|i: int| 0 <= i < earlier.len() ==> earlier[i] == steps[i]);
        law_one_poll_for_each_wake(shared, first, earlier);
        assert(!is_wake(steps[steps.len() - 1]));
    }
}

/// A future that was woken is polled by the next task that comes.
pub proof fn law_woken_future_is_polled(child: ChildWakerView)
    ensures
        child.after_wake().can_poll,
        child.after_wake_by_ref().can_poll,
        child.after_wake_by_ref().wakers == child.wakers,
{
}

/// A new future waits to be polled by the first task that comes, and nobody waits
/// for it.
pub proof fn law_new_future_is_polled<TFuture: Future>(future: TFuture)
    ensures
        SharedView::initial(future).future_or_output == FutureOrOutput::Future(future),
        SharedView::initial(future).child.can_poll,
        SharedView::initial(future).child.wakers.len() == 0,
        ChildWakerView::initial().can_poll,
        ChildWakerView::initial().wakers.len() == 0,
{
}

/// Every task that polls an unfinished future is noted down behind those who wait
/// already, however many they are and whether it polls the future itself or not.
/// One that finds the output changes nothing.
pub proof fn law_every_task_is_noted_down<TFuture: Future>(
    shared: SharedView<TFuture>,
    waker: Waker,
)
    ensures
        shared.child.after_poll(waker).wakers == shared.child.wakers.push(waker),
        !shared.child.after_poll(waker).can_poll,
        shared.after_poll(waker).future_or_output == shared.future_or_output,
        shared.future_or_output is Future ==> {
            &&& shared.after_poll(waker).child.wakers == shared.child.wakers.push(waker)
            &&& !shared.after_poll(waker).child.can_poll
        },
        shared.future_or_output is Output ==> shared.after_poll(waker) == shared,
{
}

/// Nobody is woken twice for one poll: once the wakers were handed out, by a waker
/// that is used up or because the future has finished, none of them is kept.
pub proof fn law_handed_out_is_not_kept<TFuture: Future>(
    shared: SharedView<TFuture>,
    output: TFuture::Output,
)
    ensures
        shared.child.after_wake().wakers.len() == 0,
        shared.child.after_take().wakers.len() == 0,
        shared.child.after_take().can_poll == shared.child.can_poll,
        shared.after_finish(output).child.wakers.len() == 0,
        shared.after_finish(output).child.can_poll == shared.child.can_poll,
        shared.after_finish(output).future_or_output == FutureOrOutput::<TFuture>::Output(output),
{
}

} // verus!
