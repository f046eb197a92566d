# ports_panel

A dock panel for managing SSH remote-development port forwards at runtime, with a verified core.

- `src/` is the core, verified with Verus: the forward manager, the reconciliation with settings,
  the detection of listening ports, the form of the panel and what the panel shows. `model.rs` says
  what each operation of the manager does, and `laws.rs` what holds of all of them together.
- `app/` is the window around it: the dock panel, the tunnel processes, the sockets and the polling
  loop.
- `tests/` runs the core.
