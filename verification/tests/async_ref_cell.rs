use deno_unsync::Acquire;
use deno_unsync::AcquireFuture;
use deno_unsync::AsyncRefCell;
use deno_unsync::AsyncRefCellBorrow;
use deno_unsync::AsyncRefCellBorrowMut;
use std::sync::Arc;
use std::task::Wake;
use std::task::Waker;

struct Noop;

impl Wake for Noop {
    fn wake(self: Arc<Self>) {}
}

fn waker() -> Waker {
    Waker::from(Arc::new(Noop))
}

#[derive(Default)]
struct Thing {
    touch_count: usize,
    _private: (),
}

impl Thing {
    pub fn look(&self) -> usize {
        self.touch_count
    }

    pub fn touch(&mut self) -> usize {
        self.touch_count += 1;
        self.touch_count
    }
}

fn await_borrow(cell: &mut AsyncRefCell<Thing>, request: AcquireFuture) -> AsyncRefCellBorrow<Thing> {
    match cell.poll_borrow(request, waker()) {
        Acquire::Granted(borrow) => borrow,
        Acquire::Waiting(_) => panic!("the borrow has to wait"),
    }
}

fn await_borrow_mut(
    cell: &mut AsyncRefCell<Thing>,
    request: AcquireFuture,
) -> AsyncRefCellBorrowMut<Thing> {
    match cell.poll_borrow_mut(request, waker()) {
        Acquire::Granted(borrow) => borrow,
        Acquire::Waiting(_) => panic!("the mutable borrow has to wait"),
    }
}

#[test]
fn async_ref_cell_borrow() {
    let mut cell = AsyncRefCell::<Thing>::default();

    let fut1 = cell.borrow();
    let fut2 = cell.borrow_mut();
    let fut3 = cell.borrow();
    let fut4 = cell.borrow();
    let fut5 = cell.borrow();
    let fut6 = cell.borrow();
    let fut7 = cell.borrow_mut();
    let fut8 = cell.borrow();

    let ref1 = await_borrow(&mut cell, fut1);
    assert_eq!(ref1.deref(&cell).look(), 0);
    assert!(ref1.release(&mut cell).is_empty());

    let mut ref2 = await_borrow_mut(&mut cell, fut2);
    assert_eq!(ref2.deref_mut(&mut cell).touch(), 1);
    assert!(ref2.release(&mut cell).is_empty());

    {
        let ref5 = await_borrow(&mut cell, fut5);
        let ref4 = await_borrow(&mut cell, fut4);
        let ref3 = await_borrow(&mut cell, fut3);
        let ref6 = await_borrow(&mut cell, fut6);
        assert_eq!(ref3.deref(&cell).look(), 1);
        assert_eq!(ref4.deref(&cell).look(), 1);
        assert_eq!(ref5.deref(&cell).look(), 1);
        assert_eq!(ref6.deref(&cell).look(), 1);
        for borrow in [ref6, ref3, ref4, ref5] {
            assert!(borrow.release(&mut cell).is_empty());
        }
    }

    {
        let mut ref7 = await_borrow_mut(&mut cell, fut7);
        assert_eq!(ref7.deref(&cell).look(), 1);
        assert_eq!(ref7.deref_mut(&mut cell).touch(), 2);
        assert!(ref7.release(&mut cell).is_empty());
    }

    {
        let ref8 = await_borrow(&mut cell, fut8);
        assert_eq!(ref8.deref(&cell).look(), 2);
        assert!(ref8.release(&mut cell).is_empty());
    }
}

#[test]
fn mutable_borrow_is_exclusive() {
    let mut cell = AsyncRefCell::new(Thing::default());
    let request = cell.borrow_mut();
    let held = await_borrow_mut(&mut cell, request);
    let next = waker();
    let request = cell.borrow_mut();
    let waiting = match cell.poll_borrow_mut(request, next.clone()) {
        Acquire::Granted(_) => panic!("borrowed mutably twice"),
        Acquire::Waiting(request) => request,
    };
    let request = cell.borrow();
    match cell.poll_borrow(request, waker()) {
        Acquire::Granted(_) => panic!("borrowed beside a mutable borrow"),
        Acquire::Waiting(request) => assert!(cell.cancel(request).is_empty()),
    }
    let woken = held.release(&mut cell);
    assert_eq!(woken.len(), 1);
    assert!(woken[0].will_wake(&next));
    assert!(cell.has_room_for(&waiting));
    let held = await_borrow_mut(&mut cell, waiting);
    assert!(held.release(&mut cell).is_empty());
}

#[test]
fn woken_mutable_borrow_is_not_overtaken() {
    let mut cell = AsyncRefCell::new(Thing::default());
    let request = cell.borrow();
    let held = await_borrow(&mut cell, request);
    assert!(cell.is_borrowed() && !cell.is_borrowed_mut());
    let first = waker();
    let request = cell.borrow_mut();
    let waiting = match cell.poll_borrow_mut(request, first.clone()) {
        Acquire::Granted(_) => panic!("borrowed mutably beside a borrow"),
        Acquire::Waiting(request) => request,
    };
    let woken = held.release(&mut cell);
    assert_eq!(woken.len(), 1);
    assert!(woken[0].will_wake(&first));
    let request = cell.borrow();
    let late = match cell.poll_borrow(request, waker()) {
        Acquire::Granted(_) => panic!("overtook the mutable borrow"),
        Acquire::Waiting(request) => request,
    };
    assert!(cell.knows(&late));
    let held = await_borrow_mut(&mut cell, waiting);
    assert!(!cell.is_borrowed() && cell.is_borrowed_mut());
    assert_eq!(held.release(&mut cell).len(), 1);
    let held = await_borrow(&mut cell, late);
    assert!(held.release(&mut cell).is_empty());
}
