# sysparts

Building blocks for systems code, verified with [Verus](https://github.com/verus-lang/verus).

- `lamlock`: a flat-combining lock with an MCS-style queue. A thread that finds the lock
  taken puts its task into a queue, and the thread at the head of the queue runs the
  tasks of the others.
- `punyenc`: a Punycode encoder that sorts the code points and counts with a Fenwick tree.
- `vdso_rng`: the way from the auxiliary vector to the random number generator in the
  Linux vDSO.

## Layout

- `src/` is the verified library.
- `app/` is ordinary Rust around it: threads and atomics, futexes, panics, the kernel's
  auxiliary vector and the memory of the vDSO.
- `tests/` runs the library on concrete values.

## What is proved

Of the lock: however the actions of its threads interleave, one thread at a time holds it,
tasks are run in the order of joining and each at most once, a request that ends as
completed had its task run to its end and one that ends as cancelled had not, no thread
touches a node whose requester has returned, no wake-up is lost, and the lock does not
block itself. See `lamlock::protocol`. The results and the data are those of the tasks run
one after another. See `lamlock::crowd`. On a poisonable lock, the tasks that run after one
has panicked are rejected until a recovery. See `lamlock::poison`. Running times are not part of what is proved.

Of the encoder: the output is the Punycode of RFC 3492, and decoding gives back the text.
See `punyenc::textbook` and `punyenc::decoding`.

Of the vDSO: the address that is found is that of the first symbol with the name and the
version that were looked for. See `vdso_rng::vdso`.
