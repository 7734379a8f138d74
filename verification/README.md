# siling

A task queue. Producers push tasks, optionally delayed until a maturity
time; consumers claim mature tasks and acknowledge them with an output;
observers await a task's output.

- `src/` is the verified library (Verus):
  - `task`, `claim`, `event`: the data model, with conversions and lookups.
  - `storage`: an in-memory storage of pending, claimed and acked tasks. Each
    transition is specified by a function on the abstract state; the
    `*_at` methods take the time and fresh ids as arguments, the others read
    the clock and draw random ids.
  - `lifecycle`: properties across transitions (ids conserved and unique,
    pending inputs distinct, order by maturity, claimed and acked lists in time order, what a lookup finds after
    each transition, revoking and cleaning up act on a prefix).
  - `queue`: the decisions the asynchronous queue takes between its storage
    and event calls.
  - `basic`: the basic queue over JSON values, with its polling backoff.
- `app/` is the asynchronous runtime around it: adaptor traits, in-memory
  adaptors, the publish/subscribe hub and the queues.
- `tests/` exercises the library on concrete values.

Times are nanoseconds since the Unix epoch (UTC); durations are nanoseconds.
