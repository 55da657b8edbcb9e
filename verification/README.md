# scoped_join_set

A scoped wrapper of Tokio's `JoinSet`: tasks may borrow from what surrounds the
scope, and the scope does not end before every one of its tasks has been joined.

The future of a scope must not be dropped before it has completed. If it is, the
process aborts, because a task that is still running may use what is about to go
away.

## Layout

`src/` is the verified library.

- `future_wrappers`: the slot that a task leaves its output in, the wrapper that
  writes it there, and the address that the task yields.
- `tasks`: what a set of tasks amounts to, and what holds of every history of
  spawning, aborting and joining.
- `tokio_tasks`: the parts of Tokio that the library calls, with what is taken for
  granted about them.
- `join_error`: why a task has no output.
- `scoped_join_set`: the task set.
- `scope`: the handle of a scope, and how a scope runs and closes.
- `lifecycle`: the life of a slot, from the spawning of its task to the joining.
- `lifetime_obfuscation`: carrying a value as bare bytes.

Waiting is expressed by polling. An operation that may have to wait takes the
context of the surrounding future and reports its progress.

`app/` is the interface for `async` code. It allocates the slots, erases the
lifetimes of futures, and turns polling into awaiting. `tests/` runs the library
on a real Tokio runtime.

## What is not proved

The contracts in `tokio_tasks` are taken for granted. They leave open which task
completes first and when. The slots themselves are allocated, read and freed in
`app/`, by functions that are handed to the library.
