# proposal_script

A verified library for the proposal type script of a chain that votes on
proposals. A proposal cell is created with a deposit and an id derived from the
creating transaction; it can be consumed only after its voting period, when the
votes cast on it over that period let it pass.

Modules under `src/`:

- `bytes`: little-endian integers and byte strings.
- `encoding`: the byte layout of scripts, out points, cell inputs, votes and
  proposals (tables, fixed vectors), with readers and writers proved against it.
- `chain`: the chain data the script reads, and the provider traits that load blocks,
  headers and cell data; an implementation states what it holds by spec functions,
  and each loading method returns what they state.
- `hash`: the chain's hash function (`ckb_hash::blake2b_256`) and the 20-byte id built on it.
- `byte_map`: a finite map keyed by byte strings.
- `proposal`: creation and consumption of proposal cells; `proposal::count_vote`
  counts the votes over the voting period, with the state of the count modelled
  as maps from voters to votes and from deposit cells to voters.
- `types`: script hash types and dependency kinds.
- `error`: why a script was refused.

`app/` turns the chain's own data types (`ckb_types`) into the library's.
