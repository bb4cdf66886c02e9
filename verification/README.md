# eas-attestor

Publishes TEE-attested data to the Ethereum Attestation Service (EAS) on any EVM chain, with the
whole job proved in [Verus](https://github.com/verus-lang/verus).

A job is a JSON text. It names a chain, an EAS schema, and one collector for each field of the
schema. The values are read through a quorum of independent RPCs at a pinned block, ABI-encoded
against the schema, and sent as a signed EIP-1559 `attest` transaction. There are three modes:
`attest` (the default), `dry_run`, which broadcasts nothing, and `register_schema`.

## Layout

- `src/` is the verified library. It does no input or output. A `session::Session` holds a job and
  the replies that have come in so far; `step` says which request to send next, or what to print.
  - `text`, `bytes`, `json`, `env`: plain data and its models.
  - `keccak`, `abi`, `eas`, `sign`: digests, ABI encoding, schemas, keys and transactions.
  - `tape`, `rpc`, `evm`: replies, JSON-RPC with the quorum rule, collectors.
  - `config`, `job`, `session`: what a job says, and its course from start to end.
  - `order`, `guarantees`: what holds of every job, whatever the RPCs reply.
- `app/` is the program around it: stdin, the environment, HTTP and stdout.
- `tests/` runs the library against fixed values and scripted nodes.

## What is proved

Every function says exactly what it returns and what it changes, error texts included. Beyond that,
among others:

- a value is accepted only if at least `min_agree` RPCs gave the same answer, and no other answer was
  given more often (`rpc::law_quorum`);
- everything that goes into an attestation has passed its quorum (`guarantees::law_gathered`), and
  collectors with one list of RPCs share one block, behind the highest head that the list told of
  (`guarantees::law_shared_block`);
- a native balance is collected as the number that the RPCs agreed on, zero included
  (`evm::law_native_balance_collected`);
- a dry run broadcasts nothing (`guarantees::law_dry_run_sends_nothing`), and what an attestation job
  broadcasts is exactly the attestation of the collected values, on the job's own chain
  (`guarantees::law_broadcast_is_attestation`);
- the ABI encoding puts every value where its head says and loses nothing (`abi::law_layout`,
  `abi::law_encoding_injective`), and no two transactions have the same payload
  (`sign::law_payload_determines_tx`);
- replies are read in order, and late ones change nothing (`order::law_replies_in_order`).

What is taken on trust is what the crates `hex`, `k256`, `rlp`, `serde_json` and `tiny-keccak` and a
few functions of the standard library do; each such place says what it claims.
