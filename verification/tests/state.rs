use deno_unsync::AcquireFuture;
use deno_unsync::Poll;
use deno_unsync::State;
use std::sync::Arc;
use std::task::Wake;
use std::task::Waker;

struct Noop;

impl Wake for Noop {
    fn wake(self: Arc<Self>) {}
}

fn waker() -> Waker {
    Waker::from(Arc::new(Noop))
}

fn wait(state: &mut State, is_reader: bool, waker: &Waker) -> AcquireFuture {
    let mut request = AcquireFuture::new(is_reader);
    assert_eq!(request.poll(state, waker.clone()), Poll::Pending);
    request
}

#[test]
fn nobody_to_wake() {
    let mut state = State::default();
    assert!(state.wake_pending().is_empty());
}

#[test]
fn nobody_is_woken_while_a_writer_is_inside() {
    let mut state = State::default();
    let mut writer = AcquireFuture::new(false);
    assert_eq!(writer.poll(&mut state, waker()), Poll::Ready(()));
    assert!(state.is_writing());
    let reader = waker();
    wait(&mut state, true, &reader);
    assert!(state.wake_pending().is_empty());
    let woken = state.release_write();
    assert_eq!(woken.len(), 1);
    assert!(woken[0].will_wake(&reader));
    // the reader is expected
    assert!(state.wake_pending().is_empty());
}

#[test]
fn waking_stops_at_a_writer() {
    let mut state = State::default();
    let mut writer = AcquireFuture::new(false);
    assert_eq!(writer.poll(&mut state, waker()), Poll::Ready(()));
    let wakers = [waker(), waker(), waker(), waker(), waker()];
    let mut one = wait(&mut state, true, &wakers[0]);
    let mut two = wait(&mut state, true, &wakers[1]);
    let mut three = wait(&mut state, false, &wakers[2]);
    let mut four = wait(&mut state, false, &wakers[3]);
    let mut five = wait(&mut state, true, &wakers[4]);

    let woken = state.release_write();
    assert_eq!(woken.len(), 2);
    assert!(woken[0].will_wake(&wakers[0]));
    assert!(woken[1].will_wake(&wakers[1]));
    assert_eq!(two.poll(&mut state, waker()), Poll::Ready(()));
    assert_eq!(one.poll(&mut state, waker()), Poll::Ready(()));
    assert!(state.release_read().is_empty());
    let woken = state.release_read();
    assert_eq!(woken.len(), 1);
    assert!(woken[0].will_wake(&wakers[2]));
    assert_eq!(three.poll(&mut state, waker()), Poll::Ready(()));
    let woken = state.release_write();
    assert_eq!(woken.len(), 1);
    assert!(woken[0].will_wake(&wakers[3]));
    assert_eq!(four.poll(&mut state, waker()), Poll::Ready(()));
    let woken = state.release_write();
    assert_eq!(woken.len(), 1);
    assert!(woken[0].will_wake(&wakers[4]));
    assert_eq!(five.poll(&mut state, waker()), Poll::Ready(()));
    assert!(state.release_read().is_empty());
}

#[test]
fn waking_passes_over_dropped_requests() {
    let mut state = State::default();
    let mut writer = AcquireFuture::new(false);
    assert_eq!(writer.poll(&mut state, waker()), Poll::Ready(()));
    let wakers = [waker(), waker(), waker(), waker()];
    let first = wait(&mut state, false, &wakers[0]);
    wait(&mut state, true, &wakers[1]);
    let third = wait(&mut state, false, &wakers[2]);
    wait(&mut state, true, &wakers[3]);
    assert!(first.abandon(&mut state).is_empty());
    assert!(third.abandon(&mut state).is_empty());
    let woken = state.release_write();
    assert_eq!(woken.len(), 2);
    assert!(woken[0].will_wake(&wakers[1]));
    assert!(woken[1].will_wake(&wakers[3]));
}

#[test]
fn dropping_the_last_called_request_calls_the_next() {
    let mut state = State::default();
    let mut writer = AcquireFuture::new(false);
    assert_eq!(writer.poll(&mut state, waker()), Poll::Ready(()));
    let wakers = [waker(), waker(), waker()];
    let first = wait(&mut state, true, &wakers[0]);
    let second = wait(&mut state, true, &wakers[1]);
    let mut third = wait(&mut state, false, &wakers[2]);
    assert_eq!(state.release_write().len(), 2);
    assert!(first.abandon(&mut state).is_empty());
    let woken = second.abandon(&mut state);
    assert_eq!(woken.len(), 1);
    assert!(woken[0].will_wake(&wakers[2]));
    assert!(state.knows(&third));
    assert_eq!(third.poll(&mut state, waker()), Poll::Ready(()));
    assert!(state.release_write().is_empty());
}

#[test]
fn readers_are_counted() {
    let mut state = State::default();
    assert_eq!(state.reader_count(), 0);
    for _ in 0..3 {
        let mut reader = AcquireFuture::new(true);
        assert!(state.has_room_for(&reader));
        assert_eq!(reader.poll(&mut state, waker()), Poll::Ready(()));
    }
    assert_eq!(state.reader_count(), 3);
    let writer = waker();
    wait(&mut state, false, &writer);
    assert!(state.release_read().is_empty());
    assert!(state.release_read().is_empty());
    let woken = state.release_read();
    assert_eq!(state.reader_count(), 0);
    assert_eq!(woken.len(), 1);
    assert!(woken[0].will_wake(&writer));
}

#[test]
fn being_let_in_leaves_the_queue_as_it_is() {
    let mut state = State::default();
    let mut writer = AcquireFuture::new(false);
    assert_eq!(writer.poll(&mut state, waker()), Poll::Ready(()));
    let (first, second) = (waker(), waker());
    let mut next = wait(&mut state, false, &first);
    assert_eq!(next.poll(&mut state, second.clone()), Poll::Pending);
    let woken = state.release_write();
    assert_eq!(woken.len(), 1);
    assert!(woken[0].will_wake(&first));
    assert_eq!(next.poll(&mut state, waker()), Poll::Ready(()));
    assert!(next.has_waited() && state.knows(&next));

    // not dropped yet, the request still has its second place
    let woken = state.release_write();
    assert_eq!(woken.len(), 1);
    assert!(woken[0].will_wake(&second));
    let reader = waker();
    let behind = wait(&mut state, true, &reader);
    let woken = next.abandon(&mut state);
    assert_eq!(woken.len(), 1);
    assert!(woken[0].will_wake(&reader));
    assert!(behind.abandon(&mut state).is_empty());
}

#[test]
fn dropping_a_request_that_was_let_in_passes_over_its_places() {
    let mut state = State::default();
    let mut writer = AcquireFuture::new(false);
    assert_eq!(writer.poll(&mut state, waker()), Poll::Ready(()));
    let (first, second) = (waker(), waker());
    let mut next = wait(&mut state, false, &first);
    assert_eq!(next.poll(&mut state, second), Poll::Pending);
    assert_eq!(state.release_write().len(), 1);
    assert_eq!(next.poll(&mut state, waker()), Poll::Ready(()));
    assert!(next.abandon(&mut state).is_empty());
    assert!(state.is_writing());
    assert!(state.release_write().is_empty());
}

#[test]
fn a_reader_waits_behind_a_dropped_place() {
    let mut state = State::default();
    let mut reader = AcquireFuture::new(true);
    assert_eq!(reader.poll(&mut state, waker()), Poll::Ready(()));
    let writer = wait(&mut state, false, &waker());
    assert!(writer.abandon(&mut state).is_empty());
    let late = waker();
    let mut request = wait(&mut state, true, &late);
    let woken = state.release_read();
    assert_eq!(woken.len(), 1);
    assert!(woken[0].will_wake(&late));
    assert_eq!(request.poll(&mut state, waker()), Poll::Ready(()));
}
