# oxibrain

A knowledge store for agents, verified with Verus.

Everything the store knows is derived from a ledger of episodes. Declarations and
extractions are projected into entities, statements, assertions and beliefs. The
projection can be dropped and replayed from the ledger, step by step in the order
in which things were projected; `history` states on which histories the replay
gives back the same rows. Indexes, communities and summaries are derived from the
projection in turn.

`src/` is the library. It works on tables in memory and is verified as a whole:

- `tables`, `rows`, `text`, `parse`, `time`, `clock`, `tokenizer`, `json`, `digest`:
  rows and the operations on them, texts, numbers, JSON, hashes.
- `ledger`, `quarantine`, `lifecycle`, `meta`, `schema`, `migration`, `registry`:
  the ledger and what belongs to it.
- `knowledge`, `project`, `extraction`, `declarations`, `redaction`, `reproject`,
  `rebuild`, `parting`, `history`, `resting`: the projection, how it is taken back,
  and when a replay gives it back.
- `query`, `explain`, `timeline`, `brief`, `context`, `communities`,
  `consolidation`, `prompts`, `index_ops`: what is read from it.
- `documents`: the cache of indexed files.
- `export`, `cells`, `backup`: what leaves the store.
- `security`, `protocol`, `ops`, `payloads`, `tools`, `requests`, `resources`, `server`,
  `session`, `sampling`, `http`, `daemon`, `llm`: tokens, and what the server
  decides.

What the knowledge core computes elsewhere (identities, entity resolution, folding
of assertions into beliefs, ranking, chunking, vectors) reaches the library as
answers to questions that the library asks, and floating-point numbers as bit
patterns.

`app/` is the ordinary Rust around it: SQLite files, locks, sockets, and adapters
for models. `tests/` runs the library on concrete values.
