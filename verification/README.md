# transaction_meta

Transfer analysis for Solana transactions, verified with Verus.

The library works on a transaction and on the status that executing it left
behind. It answers two questions:

- Whom did the watched accounts send native value or tokens to? The answer is a
  heuristic over the balances before and after the transaction.
- Who stands behind a PumpFun trade? The payer comes from the message, the user
  from the owner of the token account that the trade names, or from the one
  signer whose tokens a routed sale sold.

## Layout

- `src/keys.rs`: account keys and signatures, and their base58 text
- `src/transaction.rs`: transactions, statuses and token amounts
- `src/accounts.rs`: the account list of a transaction
- `src/pairs.rs`: the order of texts, and sorted lists of pairs
- `src/transfers.rs`: the transfer heuristics
- `src/events.rs`, `src/holdings.rs`, `src/attribution.rs`: who stands behind a
  trade
- `app/`: the same functions on the protobuf messages of a Geyser stream, with
  logging

Functions whose names start with `law_` are proofs of what holds of the library
as a whole.

Base58 text is written and read by the Solana SDK. Three small functions call
out of the verified code, and each says what is assumed of the function that it
calls: `encode_base58`, `decode_base58` and `share_keys`.
