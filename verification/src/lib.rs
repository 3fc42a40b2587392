pub mod async_ref_cell;
pub mod cell;
pub mod cell_laws;
pub mod flag;
pub mod future;
pub mod future_laws;
pub mod grant_laws;
pub mod model;
pub mod plain_laws;
pub mod poll;
pub mod queue_laws;
pub mod run_laws;
pub mod rw_cell;
pub mod state;
pub mod wf_laws;

pub use async_ref_cell::AsyncRefCell;
pub use async_ref_cell::AsyncRefCellBorrow;
pub use async_ref_cell::AsyncRefCellBorrowMut;
pub use cell::Acquire;
pub use flag::Flag;
pub use future::LocalFutureExt;
pub use future::SharedLocal;
pub use future::SharedPoll;
pub use poll::Poll;
pub use rw_cell::AsyncRwCell;
pub use rw_cell::AsyncRwCellReadPermit;
pub use rw_cell::AsyncRwCellWritePermit;
pub use state::AcquireFuture;
pub use state::State;
