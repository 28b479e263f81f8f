# realm_agent

The decision-making core of the Realm deployment agent, verified with Verus.

- `src/` is the library. Every function there carries a `requires`/`ensures`
  contract that Verus proves: admission of signed manifests, pushes and
  upgrades; the supervisor's desired state and reconciliation; the
  content-addressed artifact index and its garbage collection; the job book
  and its gossip merge; the pending-broadcast book; metrics and logs; the web
  API's views, forms and sessions; the HTTP gateway and the metrics port; and
  the CI controller's routing and build planning. `laws.rs` and
  `exposition.rs` state properties that span several calls.
- `tests/` runs the library on concrete values.
- `app/` is the `realm` command around the library: argument handling, files
  and sockets.
