# animus-control

The replicated metadata of a database control plane, verified with Verus: cluster membership, the
tablet map, and the catalogs of tables, change streams, backups, restores and point-in-time
recovery.

## What is in it

`src/` is the library.

- `meta`, `rows`, `schema`, `tablet`, `policy`, `ids`, `command`: the state, its parts and the
  commands. Every type has a deep view, its mathematical value; contracts speak of deep views only.
- `value`, `sorted_map`: values that can be copied and compared, and ordered maps and sets of them.
- `apply`: what a command does. `apply::step` is the state machine as a mathematical function, and
  `Metadata::apply` computes it. The arms of the commands stand in `membership`, `tablet_map`,
  `splits`, `tables`, `streams`, `pitr`, `backups` and `restores`, beside the queries on the same
  data.
- `guard`: tests that a command can be applied without any counter leaving 64 bits.
- `entity`, `mirror`: the state as a keyspace of entities, the changes that a command implies there,
  and the way back.
- `big_endian`, `syskv`, `codec`: the keys of that keyspace as bytes, and the changes to it as far
  as they are encoded here.
- `delta_ring`: a bounded window over the latest changes.
- `placement`: what the replica planner is asked, and the commands that its answers become.
- `detector`: heartbeat-based liveness.
- `laws`, `history_laws`, `catalog_laws`, `repeat_laws`, `split_laws`, `lineage_laws`,
  `mirror_laws`, `placement_laws`, `reach_laws`: what holds of all commands and of whole histories.

`app/` is ordinary Rust around the library: the JSON forms of the entities, the storage engine that
the mirror is kept in, the planner, and durations. `tests/` holds the tests.

## What is taken from outside

The rules by which a schema is well formed and the replica planner are not part of the library. A
command is applied with their answers (`Advice`): `Metadata::schema_to_validate` and
`Metadata::placement_question` say what they are to be asked. `Metadata::admits` and
`Metadata::admits_mirror` test what applying and mirroring a command require.

One function of the standard library is trusted to do what it documents: `String::from_utf8`, in
`syskv`.
