# deno_unsync

Cells and futures for async code that stays on one thread, with their decisions
verified by Verus.

- `src/` is the verified library.
  - `flag.rs`: a flag that can be raised and lowered.
  - `model.rs`: what a cell's state stands for, and what each operation makes of it.
  - `state.rs`: who holds a cell, who waits for it and who was called, and the
    requests for it.
  - `rw_cell.rs`, `async_ref_cell.rs`: the two cells, on top of `cell.rs`.
  - `future.rs`: a future whose result can be awaited multiple times.
  - `wf_laws.rs`, `queue_laws.rs`, `grant_laws.rs`, `run_laws.rs`, `cell_laws.rs`,
    `future_laws.rs`: what holds of them as a whole.
- `app/` ties the library to futures, wakers and shared ownership.
- `tests/` runs the library.

The library never wakes a task itself: an operation that ends a wait returns the
wakers, and its caller wakes them once it has let go of the cell.
