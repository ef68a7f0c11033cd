# rigtest

A test harness for acceptance tests, and the `cargo rigtest` command that runs
it. What the harness decides and computes is a Verus library: each function
states its result, and Verus proves it.

- `src/` is the library.
  - The attribute macros: `syntax`, `types`, `function`, `testcase`, `cases`,
    `plan`, `registration`, `attributes`.
  - A run: `registry`, `scheduler`, `schedule`, `dispatch`, `execution`,
    `retry`, `orchestrator`, `suite`, `runner`, `state`, `protocol`.
  - Probes before a run: `preflight`, `preflight_runner`.
  - Reports: `reporter`, `junit`, `junit_xml`.
  - The command: `cargo`, `command`.
  - Texts and spans of time: `text`, `duration`.
- `tests/` runs the library, with the outside crates that it calls.
- `app/` is the ordinary Rust around it: arguments, processes, files, sockets
  and the terminal.

Public proof functions whose names start with `law_` state what holds of the
library as a whole. What is trusted and not proved is marked
`#[verifier::external_body]`, `assume_specification` or `uninterp`, and says in
its comment which outside function it stands for.
