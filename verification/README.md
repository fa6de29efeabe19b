# minimal-bench

A benchmark for the throughput and latency of an Iggy server, with diagnostics that say what
holds a run up.

`src/` is the library, written in Verus: every rule of the benchmark stands there with its
contract and is proved. `app/` is the program around it: arguments, connections, tasks, clocks
and files.

| module | what it holds |
|--------|---------------|
| `topology` | which producer writes to which partitions, and when that covers them all |
| `payload` | the record at the front of every message |
| `session` | what producers and consumers do between two calls to the server |
| `tracker` | per-partition counts and lag |
| `histogram`, `stats` | latencies and batch sizes, and the figures of each actor |
| `report` | the rules that turn figures into observations and a summary |
| `banner`, `results`, `report_text`, `lines` | what a run prints |
| `binary64`, `rounding`, `text` | binary64 arithmetic and its decimal text, on bit patterns |
| `clock` | the clocks |

Numbers with a fraction are `Binary64` values, the bit patterns of IEEE 754 binary64 numbers. The
program converts at the edge with `to_bits` and `from_bits`. Histograms are those of
`hdrhistogram`; the program reads their quantiles and means.

A topology of P producers, N partitions and R partitions per producer is accepted where R <= N and
P * R >= N, so that every partition has a producer. With `--balanced` the server routes messages
and any topology will do.

Of `-m` messages each producer sends an equal share, and the first ones send one more where the
messages cannot be shared out evenly. `--batch-size` is the number of messages per send call,
`--poll-batch-size` the most messages per poll.
