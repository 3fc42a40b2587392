use deno_unsync::LocalFutureExt;
use deno_unsync::Poll;
use deno_unsync::SharedLocal;
use deno_unsync::SharedPoll;
use std::cell::Cell;
use std::future::Future;
use std::pin::Pin;
use std::rc::Rc;
use std::sync::Arc;
use std::task::Context;
use std::task::Wake;
use std::task::Waker;

struct Noop;

impl Wake for Noop {
    fn wake(self: Arc<Self>) {}
}

fn waker() -> Waker {
    Waker::from(Arc::new(Noop))
}

/// Polls as a task does, and returns what it got and whom it has to wake.
fn poll<F>(shared: &mut SharedLocal<F>, waker: &Waker, child: &Waker) -> (Poll<F::Output>, Vec<Waker>)
where
    F: Future + Unpin,
    F::Output: Clone,
{
    match shared.poll(waker.clone()) {
        SharedPoll::Ready(output) => (Poll::Ready(output), Vec::new()),
        SharedPoll::Pending => (Poll::Pending, Vec::new()),
        SharedPoll::PollFuture => {
            let future = shared.data.future_mut().unwrap();
            let polled = match Pin::new(future).poll(&mut Context::from_waker(child)) {
                std::task::Poll::Ready(output) => Poll::Ready(output),
                std::task::Poll::Pending => Poll::Pending,
            };
            shared.finish_poll(polled)
        }
    }
}

/// Counts how often it is polled, and finishes when it is told to.
struct Manual {
    polls: Rc<Cell<usize>>,
    done: Rc<Cell<bool>>,
}

impl Future for Manual {
    type Output = usize;

    fn poll(self: Pin<&mut Self>, _: &mut Context<'_>) -> std::task::Poll<usize> {
        self.polls.set(self.polls.get() + 1);
        if self.done.get() {
            std::task::Poll::Ready(self.polls.get())
        } else {
            std::task::Poll::Pending
        }
    }
}

#[test]
fn test_shared_local_future() {
    let mut shared = SharedLocal::new(Box::pin(async { 42 }));
    assert_eq!(poll(&mut shared, &waker(), &waker()).0, Poll::Ready(42));
    assert_eq!(poll(&mut shared, &waker(), &waker()).0, Poll::Ready(42));
}

#[test]
fn test_shared_local() {
    let mut shared = Box::pin(async { 42 }).shared_local();
    assert_eq!(poll(&mut shared, &waker(), &waker()).0, Poll::Ready(42));
    assert_eq!(poll(&mut shared, &waker(), &waker()).0, Poll::Ready(42));
}

#[test]
fn multiple_tasks_waiting() {
    let polls = Rc::new(Cell::new(0));
    let done = Rc::new(Cell::new(false));
    let manual = Manual { polls: polls.clone(), done: done.clone() };
    let mut shared = manual.shared_local();
    let tasks: Vec<Waker> = (0..10).map(|_| waker()).collect();
    for task in &tasks {
        let (polled, woken) = poll(&mut shared, task, &waker());
        assert_eq!(polled, Poll::Pending);
        assert!(woken.is_empty());
    }
    // the first task polled the future, the others wait for it to be woken
    assert_eq!(polls.get(), 1);

    done.set(true);
    let woken = shared.child_waker_state.wake();
    assert_eq!(woken.len(), 10);
    for (found, task) in woken.iter().zip(&tasks) {
        assert!(found.will_wake(task));
    }
    for task in &tasks {
        assert_eq!(poll(&mut shared, task, &waker()).0, Poll::Ready(2));
    }
    assert_eq!(polls.get(), 2);
}

#[test]
fn finishing_wakes_all_who_wait() {
    let polls = Rc::new(Cell::new(0));
    let done = Rc::new(Cell::new(false));
    let mut shared = SharedLocal::new(Manual { polls: polls.clone(), done: done.clone() });
    let (first, second) = (waker(), waker());
    assert_eq!(poll(&mut shared, &first, &waker()).0, Poll::Pending);
    done.set(true);
    // this wake leaves the first task noted down
    let shown = shared.child_waker_state.wake_by_ref();
    assert_eq!(shown.len(), 1);
    assert!(shown[0].will_wake(&first));
    let (polled, woken) = poll(&mut shared, &second, &waker());
    assert_eq!(polled, Poll::Ready(2));
    assert_eq!(woken.len(), 2);
    assert!(woken[0].will_wake(&first));
    assert!(woken[1].will_wake(&second));
    assert!(shared.child_waker_state.wake().is_empty());
    assert_eq!(poll(&mut shared, &first, &waker()).0, Poll::Ready(2));
    assert!(shared.data.future_mut().is_none());
}

#[test]
fn a_wake_takes_the_waiting_tasks_once() {
    let polls = Rc::new(Cell::new(0));
    let done = Rc::new(Cell::new(false));
    let mut shared = SharedLocal::new(Manual { polls: polls.clone(), done });
    assert_eq!(poll(&mut shared, &waker(), &waker()).0, Poll::Pending);
    assert_eq!(shared.child_waker_state.wake().len(), 1);
    assert!(shared.child_waker_state.wake().is_empty());
    assert_eq!(poll(&mut shared, &waker(), &waker()).0, Poll::Pending);
    assert_eq!(polls.get(), 2);
}
