# sysml_core

A verified library for working with SysML v2 models: qualified names, the
model types and their indexes, validation checks, queries, diagram graphs
and their text emitters, code generation templates, configuration and record
files, project discovery rules, roll-ups, state-machine simulation and
action-flow execution.
Every function in `src/` has a `requires`/`ensures` contract that Verus
checks its body against; laws that relate several functions are stated as
public proof functions next to the code they speak of.

## Layout

- `src/` — the verified library.
  - `text.rs`, `qualified_name.rs`, `model.rs` — strings, names and the
    model types, with their views.
  - `checks/`, `diagnostic/` — validation rules and their diagnostics.
  - `query.rs`, `index.rs`, `cache.rs`, `resolver.rs`, `project.rs` —
    lookups over models and projects.
  - `diagram/` — the format-agnostic diagram graph, its builders
    (`builders.rs`, `activity.rs` for action flows, `state_chart.rs` for
    state machines) and the Mermaid/DOT/PlantUML/D2 emitters.
  - `sim/` — action-flow and state-machine models, the nesting of flat
    succession lists into forks and joins (`flow_graph.rs`), analysis,
    roll-up aggregation, the state-machine stepper (`state_sim.rs`) and the
    action-flow stepper (`action_exec.rs`).
  - `config.rs`, `record.rs`, `record_toml.rs`, `envelope.rs` — the TOML
    subset used by configuration and record files, and the meta and refs
    sections of a record.
  - `codegen/`, `export/` — templates, source edits and FMI/Modelica/SSP
    export text.
- `tests/` — ordinary Rust tests against the library.
- `app/` — what the library does not hold: file and directory I/O, serde
  copies of library types, the record envelope with its floating-point data
  values, numeric roll-ups, the loop that runs an action flow against a
  caller's evaluator, the JSON form of traces, and the interactive wizard
  runner.

## Boundaries

- Models are built by the caller.  Reading SysML source text into models
  belongs to the front end that produces them; the flat steps it reads from
  an action body are nested by `sim::flow_graph::build_flow_graph`.
- Guards, constraints, calculations and assigned values are expressions
  over floating-point values.  The library does not evaluate them:
  `sim::state_sim::simulate` and `step` take each transition's guard result
  from the caller, and `sim::action_exec::exec_advance` stops with a request
  whenever it needs a value, which the caller answers with the next event.
  Conditions and actions are carried as their text.
