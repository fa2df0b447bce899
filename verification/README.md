# ribn

Host-side orchestration for model inference, written in Rust and verified with Verus. The
crate decides which requests run, in which batches, against which memory budget and with
which state; kernels, file formats and tokenizers belong to its callers.

## The library (`src/`)

Every function states what it returns or changes, and Verus proves it. Laws that relate
several functions are public proof functions named `law_*`, beside the definitions they
speak of.

- `foundation/`: readiness registrations and their wakers, the shared byte pool and its
  leases, device topology, logical parameters and their materializations, placement plans.
- `batch/`: request batching for non-autoregressive executors. A runtime resolves its queue
  head, reserves retained output before it executes, and keeps results until they are
  consumed.
- `engine/`: autoregressive serving. Request slots and their lifecycle, the scheduler and
  its queues, logical inference state and its manager, execution plans and batches, the
  backend boundary, and the runtime that ties them together. `single.rs` holds
  single-precision values by their bit patterns, so that ordering them needs no
  floating-point arithmetic.
- `bert/`: an encoder's configuration, request shapes and device envelopes, the inventory
  of its parameters, the steps of its forward pass, and the device work it may not drop yet.
- `cli/`: command-line options, bounded input and what the commands report.
- `text.rs`: numbers in words, blank text, and the rendering of quoted text.

Three things come from elsewhere, each behind a wrapper that says what is claimed of it:
the reading of one member of a JSON object, the decoding of UTF-8 and the quoting of text.

Traits that callers implement (`BatchExecutor`, `ComputeBackend`, `NvidiaDispatcher`,
`ModelProvider`, `StateManager`) name the behaviour of an implementation by specification
functions. The contracts of the runtimes say what is handed to an implementation and what
each of its answers leads to.

## Around the library

- `app/`: the command-line program, the CUDA runner of the encoder, the shared pool with
  its lock and wakers, and the floating-point part of sampling.
- `tests/`: scenarios that run the library as a caller would.
