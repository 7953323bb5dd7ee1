# operation-queue

Queues that perform operations in order, on one or more runners.

- `src/` is the verified library. `OperationQueue` and `SendOperationQueue` hold
  the operations in an `async_channel` and keep track of the runners. They decide
  what each runner does next; `laws` states what holds over any course of events.
- `app/` spawns a task for each runner, which does as the queue says: it performs
  an operation, waits for the queue to change, or exits.
- `tests/` runs the library.

The functions marked `external_body` are calls into `async_channel`. Their
contracts are believed, not proved, and rest on the two ends of a channel staying
inside one `LocalChannel` or `SendChannel`.
