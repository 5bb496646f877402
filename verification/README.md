# channel_patterns

Programs that pass messages over channels between threads and async tasks:
a single-consumer channel, bounded many-to-one channels with timing, flume
channels with several consumers, an actor answering queries, a select loop
over two channels, and a three-stage pipeline that batches values and reports
its throughput.

- `src/` is the verified library (Verus): the decisions and state of those
  programs (batching, throughput windows, the actor, the select loop), the
  bounded sending loops, and the text and timing files they write.
- `app/` runs the programs: threads, async runtimes, clocks, files and the
  floating-point rates. `channel_patterns <name>` runs one of them.
- `tests/` exercises the library.
