# refcount_grace

Two operators that share one subscription to a source between any number of
subscribers, written and verified in Verus.

- `RefCount` connects the source when the first subscriber arrives and
  disconnects it when the last one leaves.
- `RefCountGrace` keeps the source connected for a grace period after the last
  subscriber has left. A subscriber that arrives in that window joins the live
  connection; if none does, the source is released when the window expires.

## Layout

| Module | Content |
| --- | --- |
| `context` | subscriptions, and values that are shared one section at a time |
| `subject` | lists of observers, subjects, sources, and the pair of both |
| `scheduler` | durations, tasks, schedulers |
| `grace_state` | the state behind `RefCountGrace` |
| `grace_ledger`, `ref_count_ledger` | what an operation can do, and the ledger in which all of it is entered |
| `grace`, `ref_count` | the operators, their operations and the sections on what they share |
| `grace_journal`, `ref_count_journal` | the ledgers that work on the caller's values |
| `live` | the operations under those ledgers |
| `trace` | laws of the shared state over any sequence of sections |
| `grace_runs`, `ref_count_runs` | laws of whole runs, for every interleaving |
| `zero_window` | a grace period of zero is like none |

Observers, sources and schedulers are the caller's. The contracts of the
operations assume nothing of them but what their traits say.

The laws over whole runs speak of a world in which

- the subject answers from its list: how many observers it has, and whether it
  has any;
- a section finds the shared state as the section before it has left it;
- a scheduler hands out a new timer each time;
- a scheduler runs a reset at most once, and only after it was given it. It may
  do so before `schedule` returns, and after the timer was cancelled.
