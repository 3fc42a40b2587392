use deno_unsync::Acquire;
use deno_unsync::AcquireFuture;
use deno_unsync::AsyncRwCell;
use deno_unsync::AsyncRwCellReadPermit;
use deno_unsync::AsyncRwCellWritePermit;
use std::sync::atomic::AtomicUsize;
use std::sync::atomic::Ordering;
use std::sync::Arc;
use std::task::Wake;
use std::task::Waker;

struct Counter(AtomicUsize);

impl Wake for Counter {
    fn wake(self: Arc<Self>) {
        self.0.fetch_add(1, Ordering::SeqCst);
    }
}

fn waker() -> Waker {
    Waker::from(Arc::new(Counter(AtomicUsize::new(0))))
}

fn read(cell: &mut AsyncRwCell<i32>) -> AsyncRwCellReadPermit<i32> {
    let request = cell.read();
    read_again(cell, request)
}

fn read_again(cell: &mut AsyncRwCell<i32>, request: AcquireFuture) -> AsyncRwCellReadPermit<i32> {
    match cell.poll_read(request, waker()) {
        Acquire::Granted(permit) => permit,
        Acquire::Waiting(_) => panic!("the read request has to wait"),
    }
}

fn write(cell: &mut AsyncRwCell<i32>) -> AsyncRwCellWritePermit<i32> {
    let request = cell.write();
    write_again(cell, request)
}

fn write_again(cell: &mut AsyncRwCell<i32>, request: AcquireFuture) -> AsyncRwCellWritePermit<i32> {
    match cell.poll_write(request, waker()) {
        Acquire::Granted(permit) => permit,
        Acquire::Waiting(_) => panic!("the write request has to wait"),
    }
}

fn wait_to_read(cell: &mut AsyncRwCell<i32>, waker: &Waker) -> AcquireFuture {
    let request = cell.read();
    match cell.poll_read(request, waker.clone()) {
        Acquire::Granted(_) => panic!("the read request was granted"),
        Acquire::Waiting(request) => request,
    }
}

fn wait_to_write(cell: &mut AsyncRwCell<i32>, waker: &Waker) -> AcquireFuture {
    let request = cell.write();
    match cell.poll_write(request, waker.clone()) {
        Acquire::Granted(_) => panic!("the write request was granted"),
        Acquire::Waiting(request) => request,
    }
}

fn same(found: &[Waker], expected: &[&Waker]) -> bool {
    found.len() == expected.len() && found.iter().zip(expected).all(|(a, b)| a.will_wake(b))
}

#[test]
fn should_allow_multiple_readers() {
    let mut rw_cell = AsyncRwCell::new(0);
    let first = read(&mut rw_cell);
    let second = read(&mut rw_cell);
    assert_eq!(*first.deref(&rw_cell), 0);
    assert_eq!(*second.deref(&rw_cell), 0);
    assert!(first.release(&mut rw_cell).is_empty());
    assert!(second.release(&mut rw_cell).is_empty());
}

#[test]
fn default_holds_the_default_value() {
    let mut cell: AsyncRwCell<i32> = AsyncRwCell::default();
    let permit = read(&mut cell);
    assert_eq!(*permit.deref(&cell), 0);
    assert!(permit.release(&mut cell).is_empty());
}

#[test]
fn read_gives_back_the_last_write() {
    let mut cell = AsyncRwCell::new(1);
    let mut permit = write(&mut cell);
    assert_eq!(*permit.deref(&cell), 1);
    *permit.deref_mut(&mut cell) = 2;
    *permit.deref_mut(&mut cell) += 40;
    assert!(permit.release(&mut cell).is_empty());
    let permit = read(&mut cell);
    assert_eq!(*permit.deref(&cell), 42);
    assert!(permit.release(&mut cell).is_empty());
}

#[test]
fn writer_waits_for_the_last_reader() {
    let mut cell = AsyncRwCell::new(0);
    let first = read(&mut cell);
    let second = read(&mut cell);
    let writer = waker();
    let request = wait_to_write(&mut cell, &writer);
    assert!(first.release(&mut cell).is_empty());
    let woken = second.release(&mut cell);
    assert!(same(&woken, &[&writer]));
    let permit = write_again(&mut cell, request);
    assert!(permit.release(&mut cell).is_empty());
}

#[test]
fn writer_keeps_others_out() {
    let mut cell = AsyncRwCell::new(0);
    let permit = write(&mut cell);
    let (reader, writer) = (waker(), waker());
    wait_to_read(&mut cell, &reader);
    wait_to_write(&mut cell, &writer);
    assert!(same(&permit.release(&mut cell), &[&reader]));
}

#[test]
fn reader_does_not_overtake_a_waiting_writer() {
    let mut cell = AsyncRwCell::new(0);
    let permit = read(&mut cell);
    let (writer, reader) = (waker(), waker());
    let request = wait_to_write(&mut cell, &writer);
    let behind = wait_to_read(&mut cell, &reader);
    assert!(same(&permit.release(&mut cell), &[&writer]));
    let permit = write_again(&mut cell, request);
    assert!(same(&permit.release(&mut cell), &[&reader]));
    let permit = read_again(&mut cell, behind);
    assert!(permit.release(&mut cell).is_empty());
}

#[test]
fn readers_wake_together_and_in_order() {
    let mut cell = AsyncRwCell::new(7);
    let permit = write(&mut cell);
    let wakers = [waker(), waker(), waker()];
    let mut requests = Vec::new();
    for waker in &wakers {
        requests.push(wait_to_read(&mut cell, waker));
    }
    let woken = permit.release(&mut cell);
    assert!(same(&woken, &[&wakers[0], &wakers[1], &wakers[2]]));
    let mut permits = Vec::new();
    while let Some(request) = requests.pop() {
        permits.push(read_again(&mut cell, request));
    }
    for permit in &permits {
        assert_eq!(*permit.deref(&cell), 7);
    }
    for permit in permits {
        assert!(permit.release(&mut cell).is_empty());
    }
}

#[test]
fn woken_reader_is_let_in_before_a_waiting_writer() {
    let mut cell = AsyncRwCell::new(0);
    let permit = write(&mut cell);
    let (reader, writer) = (waker(), waker());
    let first = wait_to_read(&mut cell, &reader);
    let second = wait_to_write(&mut cell, &writer);
    assert!(same(&permit.release(&mut cell), &[&reader]));
    let permit = read_again(&mut cell, first);
    assert_eq!(*permit.deref(&cell), 0);
    assert!(same(&permit.release(&mut cell), &[&writer]));
    let permit = write_again(&mut cell, second);
    assert!(permit.release(&mut cell).is_empty());
}

#[test]
fn woken_writer_is_not_overtaken_by_a_new_reader() {
    let mut cell = AsyncRwCell::new(0);
    let permit = read(&mut cell);
    let (writer, reader) = (waker(), waker());
    let first = wait_to_write(&mut cell, &writer);
    assert!(same(&permit.release(&mut cell), &[&writer]));
    let second = wait_to_read(&mut cell, &reader);
    let permit = write_again(&mut cell, first);
    assert!(same(&permit.release(&mut cell), &[&reader]));
    let permit = read_again(&mut cell, second);
    assert!(permit.release(&mut cell).is_empty());
}

#[test]
fn woken_reader_is_not_overtaken_by_a_new_writer() {
    let mut cell = AsyncRwCell::new(0);
    let permit = write(&mut cell);
    let (reader, writer) = (waker(), waker());
    let first = wait_to_read(&mut cell, &reader);
    assert!(same(&permit.release(&mut cell), &[&reader]));
    let second = wait_to_write(&mut cell, &writer);
    let permit = read_again(&mut cell, first);
    assert!(same(&permit.release(&mut cell), &[&writer]));
    let permit = write_again(&mut cell, second);
    assert!(permit.release(&mut cell).is_empty());
}

#[test]
fn new_reader_joins_woken_readers_if_nobody_waits() {
    let mut cell = AsyncRwCell::new(0);
    let permit = write(&mut cell);
    let reader = waker();
    let first = wait_to_read(&mut cell, &reader);
    assert!(same(&permit.release(&mut cell), &[&reader]));
    let late = read(&mut cell);
    let permit = read_again(&mut cell, first);
    assert!(late.release(&mut cell).is_empty());
    assert!(permit.release(&mut cell).is_empty());
}

#[test]
fn the_next_are_called_when_all_woken_readers_are_done() {
    let mut cell = AsyncRwCell::new(0);
    let permit = write(&mut cell);
    let (first, second, writer) = (waker(), waker(), waker());
    let one = wait_to_read(&mut cell, &first);
    let two = wait_to_read(&mut cell, &second);
    let three = wait_to_write(&mut cell, &writer);
    assert!(same(&permit.release(&mut cell), &[&first, &second]));
    // the first reader comes and leaves, the second is still expected
    let permit = read_again(&mut cell, one);
    assert!(permit.release(&mut cell).is_empty());
    let permit = read_again(&mut cell, two);
    assert!(same(&permit.release(&mut cell), &[&writer]));
    let permit = write_again(&mut cell, three);
    assert!(permit.release(&mut cell).is_empty());
}

#[test]
fn a_cancelled_call_is_handed_on() {
    let mut cell = AsyncRwCell::new(0);
    let permit = read(&mut cell);
    let (writer, reader) = (waker(), waker());
    let first = wait_to_write(&mut cell, &writer);
    let second = wait_to_read(&mut cell, &reader);
    assert!(same(&permit.release(&mut cell), &[&writer]));
    assert!(same(&cell.cancel(first), &[&reader]));
    let permit = read_again(&mut cell, second);
    assert!(permit.release(&mut cell).is_empty());
}

#[test]
fn a_late_writer_does_not_pass_a_waiting_one() {
    let mut cell = AsyncRwCell::new(0);
    let permit = write(&mut cell);
    let (first, second) = (waker(), waker());
    let one = wait_to_write(&mut cell, &first);
    assert!(same(&permit.release(&mut cell), &[&first]));
    let two = wait_to_write(&mut cell, &second);
    let permit = write_again(&mut cell, one);
    assert!(same(&permit.release(&mut cell), &[&second]));
    let permit = write_again(&mut cell, two);
    assert!(permit.release(&mut cell).is_empty());
}

#[test]
fn cancelled_requests_are_passed_over() {
    let mut cell = AsyncRwCell::new(0);
    let permit = write(&mut cell);
    let (first, second, third) = (waker(), waker(), waker());
    let writer = wait_to_write(&mut cell, &first);
    wait_to_read(&mut cell, &second);
    let reader = wait_to_read(&mut cell, &third);
    assert!(cell.cancel(writer).is_empty());
    assert!(cell.cancel(reader).is_empty());
    assert!(same(&permit.release(&mut cell), &[&second]));
}

#[test]
fn a_request_that_never_waited_can_be_cancelled() {
    let mut cell = AsyncRwCell::new(0);
    let permit = write(&mut cell);
    let reader = waker();
    wait_to_read(&mut cell, &reader);
    let request = cell.read();
    assert!(cell.cancel(request).is_empty());
    assert!(same(&permit.release(&mut cell), &[&reader]));
}

#[test]
fn a_request_polled_twice_has_two_places() {
    let mut cell = AsyncRwCell::new(0);
    let permit = write(&mut cell);
    let (first, second) = (waker(), waker());
    let request = wait_to_read(&mut cell, &first);
    match cell.poll_read(request, second.clone()) {
        Acquire::Granted(_) => panic!("the read request was granted"),
        Acquire::Waiting(_) => {}
    }
    assert!(same(&permit.release(&mut cell), &[&first, &second]));
}

#[test]
fn waking_runs_the_wakers() {
    let mut cell = AsyncRwCell::new(0);
    let permit = write(&mut cell);
    let counter = Arc::new(Counter(AtomicUsize::new(0)));
    let reader = Waker::from(counter.clone());
    wait_to_read(&mut cell, &reader);
    wait_to_read(&mut cell, &reader);
    for waker in permit.release(&mut cell) {
        waker.wake();
    }
    assert_eq!(counter.0.load(Ordering::SeqCst), 2);
}

#[test]
fn ordinary_requests_have_room() {
    let cell = AsyncRwCell::new(0);
    let request = cell.read();
    assert!(cell.has_room_for(&request));
    let request = cell.write();
    assert!(cell.has_room_for(&request));
}

#[test]
fn a_cell_knows_its_requests_and_holders() {
    let mut cell = AsyncRwCell::new(0);
    let other = AsyncRwCell::new(0);
    let request = cell.write();
    assert!(!request.is_reader() && !request.has_waited());
    assert!(cell.knows(&request) && other.knows(&request));
    assert!(!cell.is_reading() && !cell.is_writing());
    let permit = write_again(&mut cell, request);
    assert!(!cell.is_reading() && cell.is_writing());

    let request = wait_to_read(&mut cell, &waker());
    assert!(request.is_reader() && request.has_waited());
    assert!(cell.knows(&request) && !other.knows(&request));
    assert_eq!(permit.release(&mut cell).len(), 1);
    // the request is called now
    assert!(cell.knows(&request));
    let permit = read_again(&mut cell, request);
    assert!(cell.is_reading() && !cell.is_writing());
    assert!(permit.release(&mut cell).is_empty());
}
