# fistbump_wallet

The logic of the Fistbump desktop and phone wallet, with contracts that Verus
proves, and the program around it.

## Layout

- `src/` is the library. Every function in it is verified but for the small
  ones that call other crates.
  - `ledger/`: hardware wallets. Transactions and partially signed
    transactions are parsed and written, commands are framed for USB and
    Bluetooth, and a signing session is planned and read back.
  - `proxy/`: the local proxy that lets browsers open Fistbump names. DNS
    questions and answers, TLSA records, the steps of a connection over CONNECT,
    plain HTTP and SOCKS5, the pages that it serves, its certificates, and the
    commands that make the system use it.
  - `extension/` and `bridge`: what the browser extension may ask for, who has
    to agree, and the messages between browser, bridge and wallet.
  - `state`, `settings`, `setup`, `places`, `rpc`, `links`, `biometric`, `pem`,
    `build_info`: the wallet itself.
  - `wire`, `text`, `text_map`, `hexes`, `hashes`, `json`, `doubles`: what the
    others are built from.
- `tests/` run the library with the crates that it calls.
- `app/` is ordinary Rust: it reads, sends, waits and prints, and leaves every
  decision to the library.

## What is proved, and what is trusted

A function says in its `ensures` what it returns for every input. Functions
whose names start with `law_` state what holds across several of them: that
what is written reads back, that nothing is answered to an origin that the user
has not approved, that no bytes are relayed to a server whose certificate was
not accepted.

Calls into other crates stand in small functions marked
`#[verifier::external_body]`. The comment above each names what it calls and
what is taken on trust. Where a result is only named, a `pub uninterp spec fn`
beside it is the name.
