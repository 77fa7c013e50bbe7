# agent_stack

An agent orchestration framework built in layers, with its core verified by
Verus.

- `src/` is the verified library. Each layer is a module: `graph`,
  `loop_spec`, `executor` and `run_control` (topology, iteration, and the
  decisions of a run as step functions whose laws hold over any sequence of
  steps), `blackboard` and `policy` (shared state under access
  control), `causal` and `trace_store` (causal memory), `trust`, `goal`,
  `meta`, `budget`, `interrupt` and `error`, `contract` and `negotiation`,
  `record` and `llm_agent` (replay keys), `validate`, `memory` (decay),
  `human`, `graph_spec` (graphs described by a plain specification), and the
  shared `value`, `id`, `clock`, `text`, `str_map` and `id_map`. Public
  functions state their behaviour in `requires`/`ensures`; the properties that
  span several operations are public proof functions named `law_*`.
- `app/` is the runtime around the library: the agent registry, the executor
  loop that runs agents and asks humans on worker threads and hands each
  result to the library's step functions, the chat-model agent,
  JSON persistence and the `agentstack` command line.
- `tests/` exercises the library on concrete values.

## Maps keyed by ids and by names

The spans of a causal trace and their child lists live in `IdMap`: a
vector of (id bits, value) entries with distinct keys, whose model is a `Map<u128, V>`. std's `HashMap`, which vstd
specifies, would do for lookups, but the trace's contracts work by position:
its invariant ties each entry's key to the span it holds, a span is taken out
and put back by position when an effect is added, and `TraceRecord::from_trace`
walks the spans in a fixed order to build the persisted record. vstd gives
the iteration of a `HashMap` no order, so those contracts could not be stated
over one. `StrMap` does the same for maps keyed by text (blackboard slots,
memory entries), for which vstd has no key model.
