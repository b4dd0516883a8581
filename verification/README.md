# app_links

App-link lifecycle management for Reticulum/LXMF applications, verified with Verus.

- `src/` is the library. It decides: which destinations are raced for and when, what their status
  is, which links are held, how a path race is won, and how the three-tier DIRECT send with its
  propagation fallback proceeds. Each of these is a state machine over plain values. The contract
  of every step says exactly what it does to the state and what it asks for next, and the modules
  `send_laws`, `liveness_laws`, `registry_laws`, `history_laws` and `single_flight` prove what
  holds of every history.
- `app/` is the driver. It owns the process-wide registry, the threads, timers and callbacks, and
  performs over the Reticulum transport what the library asks for.
- `tests/` runs the library on concrete values.
