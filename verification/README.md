# rwmcp

An app declares what its operations *mean*: what each makes true, what it needs first, what it
reads and writes. Given a goal as an intent graph, the library compiles a plan that runs as wide as
the data allows, decides every step of running it, and keeps a ledger from which every reported
number is recomputed.

```
src/    the library: every public function has a contract, and all of it is proved
tests/  the library at work, on concrete values
app/    the program around it: the command line, the target app's server, the benchmark runner
```

Where to start reading:

- `pred*.rs`: predicates, their grammar, printing and unrolling; `read_laws.rs`, `tell.rs` and
  `fill_laws.rs` what reading, writing, unrolling and filling in keep.
- `world.rs`, `openapi.rs`, `validate.rs`, `fingerprint.rs`: the world model and how it is read;
  `code.rs` is the text that a fingerprint is taken of.
- `compile_model.rs` says what compiling means, `compiler.rs` does it, and `compile_laws.rs`,
  `naming.rs` and `reduce.rs` hold what is true of every plan.
- `want_order.rs` shows that the order of wants does not show in a plan, and `order_check.rs` that
  comparing two orders then finds nothing. `clear.rs`, `goals.rs` and
  `settling.rs` prepare it: predicates that hold nothing of a node, goals free of node names, and
  what a want comes to whatever was wanted before.
- `run.rs` and `scheduler.rs` decide a run; `races.rs` shows that overlapping work runs apart.
- `ledger.rs`, `recorder.rs`, `spans.rs`: what happened, and the receipt.
- `planner.rs`, `selectors.rs`, `lint.rs`, `act.rs`, `session.rs`: from a goal to a plan.
- `invoicing.rs`, `writes.rs`, `api.rs`, `mcp.rs`: the target app; `invoicing_laws.rs` what it keeps.
- `loops.rs`, `screen.rs`, `page.rs`, `script.rs`, `arms.rs`: the arms of the benchmark;
  `measured.rs`, `report.rs`, `tables.rs`, `audit.rs`: its results.

A few functions of the standard library, `serde_json`, `sha2`, `hex` and `base64` are called through
small wrappers. What is claimed of each stands in its doc comment and is believed, not proved.
