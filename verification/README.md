# bank

A bank ledger for a chain, verified with Verus.

- `src/primitives.rs`: a depositor's record (`UserInfo`), withdrawal requests and trades.
- `src/account.rs`: accounts as 16-byte little-endian values, and the derivation of
  pallet-owned sub-accounts (through `frame_support::PalletId`).
- `src/dispatch.rs`: call origins, dispatch errors and the transfers the bank asks for.
- `src/pallet.rs`: the bank's records (`BankView`), their invariant, every call as a
  transition on them, and the executable bank (`Pallet`) proved to follow them.
- `src/pot.rs`: the storage pallet's pot account.
- `src/laws.rs`: what holds across calls.
- `app/`: the records with their SCALE and serde encodings, and a runtime that drives
  the bank against a currency and a randomness source.

Calls that move funds are split around the transfer: the bank decides and names the
transfer, the currency carries it out, and the bank finishes the call with the
currency's answer.
