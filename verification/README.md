cfti
====

A controller for factory test infrastructure: it loads unit files that
describe tests, jigs, scenarios, loggers, triggers and interfaces, orders
the tests of a scenario by their dependencies, runs them, and reports what
happens to the loggers and interfaces.

The library under `src/` is verified with Verus: the unit-file readers, the
dependency graph and the order of a scenario's tests, the state machines of
tests and scenarios, the test set that holds every unit, and the line
protocols spoken with interfaces, triggers and loggers.  Each decision is a
function from state and event to the next state and the actions to take.

Layout:

* `src/types/` – the units: tests, scenarios (with their dependency order
  in `ordering.rs`), jigs, loggers, triggers, interfaces.
* `src/testset.rs` – every loaded unit, and the commands the controller
  carries out on them.
* `src/protocol.rs`, `src/text.rs` – the text, tab-separated and JSON lines.
* `src/graph.rs`, `src/unitfile.rs`, `src/inifile.rs` – the graph, unit-file
  and ini libraries, behind small trusted wrappers.
* `src/unitname.rs` – the id, type and kind of a unit file by its name, and
  the order in which the kinds are loaded.
* `src/laws.rs` – properties that span several functions.
* `app/` – the program: reading the configuration directory, running
  processes, and the event loop that feeds the test set.
* `tests/` – tests of the library on concrete values.
