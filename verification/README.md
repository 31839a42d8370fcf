# scematica

The verified core of the Scematica trading stack: the deterministic policy network and
its inference commitments, the attestation of trading decisions and their anchoring,
the operator bot's command and confirmation logic, and the rules of the on-chain bond
escrow, lock vault and profit guard.

## Layout

- `src/` — the library, written in Verus. Every function carries a contract, and the
  properties the system depends on are stated as proof functions next to the code they
  are about:
  - `fixed`, `net`, `commit`, `batch`, `format`, `agent`: Q16.16 arithmetic, the dueling
    policy network, keccak commitments, Merkle batches, the `.mesh` file format and the
    committing agent.
  - `attest`, `anchor`, `daemon`: decision digests, anchoring calldata and the flush
    loop's progress.
  - `chain`, `rpc`, `probe`: BOT Chain networks, the RPC client's failover and quantities,
    and the probe's scan plan.
  - `text`, `render`, `state`, `commands`, `auth`, `chat`, `control`, `presence`: the
    Telegram operator bot.
  - `escrow`, `vault`, `swap`: the on-chain programs' state machines.
  - `amm`, `sell`, `entry`: the sniper's pool quote, sell rounds, position scan and
    trade book, and its entry gates.
  - `launcher`: the `scematica` launcher's command table, choices and help.
  - `bytes`, `decimal`, `keccak`, `random`: small shared pieces and the calls into
    `tiny-keccak` and `rand`.
- `tests/` — ordinary Rust tests against the library.
- `app/` — the `mesh-attestd` daemon and the file I/O around the library: reading logs and
  control files, writing checkpoints, shelling out to `cast`.

Verify with Verus on `src/lib.rs`; the tests run with `cargo test`.
