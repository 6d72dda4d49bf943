# asyncs

Facilities for asynchronous tasks, independent of the runtime that runs them, with proofs.

* `notify`: notifies one task or all attached tasks to wake up.
* `watch`: a channel to publish and subscribe values.
* `parker`: lets one task park and another one unpark it.
* `task`: polls, and giving way to other tasks.
* `attribute`: tells how to run an asynchronous test from the arguments of its attribute.

`src/` is the library, which Verus verifies. `app/` makes futures of it: it runs the calls under a lock, wakes
wakers, spawns tasks and writes the code of tests. `tests/` runs the library.

## Shared memory

What several calls share is plain memory, and a call is a task made of steps, each of which makes one access
to that memory. There are two ways to use the tasks:

* A call that has the memory for itself makes all of its steps. Its contract says exactly what becomes of the
  memory, and of the wakers that are to be woken.
* A machine (`notify::machine`, `watch::machine`) holds the memory and any number of tasks, and makes their
  steps in any order that its caller likes. Its invariant holds after every step.

The memory is sequentially consistent: the orders of atomic accesses are named but not modelled.

## What is shown

`notify::laws` and `watch::laws` state what calls do one after the other: permits do not accumulate, waiters are
notified first come first, whoever is attached is ready round after round, a new round has no permit, the last
value is observed before the error, a borrowed value stays, and the like.

`notify::wakeful` and `notify::machine` state what holds whatever order steps come in: nobody who waits is lost,
no two tasks have the lock, whoever notifies somebody has the waker of its last poll in vain, and all is quiet
once all tasks rest. `watch::machine` states that a reference is to a value that is there, that all holders are
counted and that no slot leaks, as long as values are published one at a time.

`parker` states that a park and an unpark never touch the same slot, and that no waker is lost between them.

## What is trusted

The syntax of attributes and functions is parsed by `syn`, behind the wrappers in `attribute`. Numbers in the
environment are parsed by the standard library, in the same module.
