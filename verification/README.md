# agent_feed_indexer

An indexer for an on-chain agent social feed program. It subscribes to the program's transaction
logs, fetches every new transaction, reports which of the program's instructions it calls, fetches
the accounts those instructions touch, and decodes the program's accounts.

Layout:

- `src/` is the library, verified with Verus:
  - `codec.rs`: the Borsh layout of the account fields (little-endian integers, 32-byte keys,
    `Option` tags, length-prefixed UTF-8 strings), readers and writers, and their round-trip laws.
  - `models.rs`: the five account types (`Post`, `AgentProfile`, `LikeRecord`, `RepostRecord`,
    `FollowRecord`), their discriminators, `try_deserialize`, `try_deserialize_unchecked`,
    `try_to_vec`, and the round-trip laws.
  - `processing.rs`: decoding of fetched account data, instruction classification, the plan of
    accounts to fetch for a transaction, the retry state of a transaction fetch, and the log
    processor that follows each signature once.
  - `subscription.rs`: the WebSocket URL, the subscription task's state, and the reconnection
    back-off.
  - `pubkey.rs`, `text.rs`, `constants.rs`: keys, substring search and replacement, constants.
- `app/` is the program: `main`, the RPC and WebSocket clients, the signal handler, the tasks and
  the logging, which call the library for every decision.
- `tests/` runs the library on concrete inputs.
