# bevy_animation_graph_core (context)

The evaluation context of an animation graph, written in Verus with its contracts proved:

- `src/context/node_states.rs`: the state each node keeps across frames, per evaluation
  key (`NodeState`, `NodeStates`), and what ending a frame commits.
- `src/context/node_caches.rs`: the values each node computed in the current frame
  (`NodeCache`, `NodeCaches`): output data, time updates, durations, update flags.
- `src/context/graph_state.rs`: one graph's context (states, caches, query time, graph),
  with accessors whose contracts reach its parts.
- `src/context/query_output_time.rs`: the time a graph's output is queried at: `Unset`,
  `Forced` for every key, or `ByKey`. A new or reset context starts `Unset`; a clone keeps it.
- `src/context/graph_context_arena.rs`: all contexts of a player, the links from the
  places where sub-graphs are evaluated to their contexts, the reset of a subtree when a
  sub-graph changes, and the laws about it.
- `src/keyed_map.rs`: the vector-backed map (linear search, no repeated key) used in place
  of Bevy's `HashMap` wherever the stored values are generic (node states, cached data,
  time updates, durations): the contents of an outside collection can only be named for
  concrete types, so a map with generic values cannot be specified through Bevy's.
- `src/platform.rs`: Bevy's hash collections, declared for Verus, with the contracts of
  the calls the library makes.
- `src/ids.rs`, `src/errors.rs`, `src/animation_node.rs`: identifiers, errors, pin ordering.

Node states are of one type `S` per graph context, where the engine boxes each state as a
`dyn Any`; reading a state can therefore not fail on a type mismatch.

Times are carried as the IEEE-754 bit pattern of the `f32` number of seconds; the library
stores and returns them unchanged. `app/` holds the conversions from engine types and the
editor's `MaybeResponse`.
