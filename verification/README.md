# reactive_txn

Transactions over state variables, and definitions (sums of variables) that subscribe
to the changes of the variables they depend on. Each variable and each definition has a worker; a service
manager carries out transactions by reading the variables a transaction needs and then
sending the writes.

`src/` is the verified library (Verus). Workers and the manager are written as steps:
each handles one message (or one answer) and says what to send. The library is generic
over the inbox handles, so it never sends or receives itself.

- `transaction`: transaction ids (clock readings), assignments, transactions.
- `message`: the messages, and the changes propagated to definitions.
- `name_map`: a map from names to values, kept as a list of distinct entries.
- `txn_set`: set operations on transaction keys.
- `worker`: what every worker holds, and what a step sends.
- `varworker`: the state-variable worker.
- `defworker`: the definition worker: its value, and the application of a batch of changes
  (`apply_batch`; the definition worker's message loop does not call it yet).
- `srvmanager_proc`: the service manager: registering workers, and carrying out a transaction.

`app/main.rs` runs the workers and the manager on tokio channels.
