# rustchain

A small proof-of-work blockchain with a peer-to-peer sync protocol, a
stack-machine contract runtime, a lending pool and an NFT marketplace,
written in Verus. Every operation of the library carries a contract, and
laws that tie operations together are proved: encodings read back what
they wrote, accepted blocks keep a valid chain valid, the lending pool's
totals match its positions, the marketplace keeps its listings consistent
with token ownership, and wallet keys sign what they verify. What rests on
the outside libraries (hashing, Ed25519) is stated over names for their
results, not proved.

- `src/` — the verified library: blocks, transactions and the chain
  (`block`, `transaction`, `blockchain`, `ledger`), encodings (`wire`,
  `codec`, `chain_codec`, `binary`), peers and sync (`peer`, `queue`,
  `message`, `engine`, `transport`), the contract language (`compiler`,
  `runtime`), the apps (`defi`, `defi_payload`, `nft`), wallets and
  signatures (`crypto`), storage (`storage`), and the request logic of the
  command line and of the REST service (`cli`, `service`, `node`,
  `chain_query`, `config`).
- `app/` — the executable around it: argument and environment handling,
  HTTP client and server, the LevelDB history store.
- `tests/` — tests run against the compiled library.
