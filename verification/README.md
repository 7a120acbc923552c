# Fox

A trading bot for dYdX perpetuals, with its order signing written in Verus and
proved against its contracts.

## Layout

- `src/` is the verified library (crate `fox`):
  - `uint` — 512-bit unsigned integers as eight limbs; each arithmetic operation
    goes through one trusted wrapper of `primitive_types::U512`.
  - `arith` — greatest common divisors, modular inverses and the coefficient
    invariant of the extended Euclidean algorithm.
  - `dydx` — markets, accounts and orders:
    - `amounts`: decimal amounts to quantum amounts;
    - `ec_math`: modular and elliptic-curve arithmetic over the STARK field;
    - `crypto`: nonces, the Pedersen hash, the packing of an order and its hash;
    - `signing`: the RFC 6979 nonce and the STARK signature of an order hash;
    - `account`: the HMAC signature of API requests, the STARK key, and the
      fields read from the accounts reply;
    - `feed`: the trades in a message of the trade feed;
    - `requests`: the fields of an order request;
    - `constants`: the deployment constants an order hash is computed with;
    - `market_helpers`: names, decimals, feeds and asset ids of the markets.
  - `analysis::rings` — the bookkeeping of sliding price windows.
  - `strategy` — strategy codes and the epoch schedule of the exposure strategy.
- `app/` is the program: command line, HTTP and websocket I/O, the floating point
  parts of the strategies, and the trading loops.
- `tests/` holds the tests of the library.

## Running

Credentials are read from `.env` or the environment (`API_KEY_MAINNET`,
`API_SECRET_MAINNET`, `API_PASSPHRASE_MAINNET`, `STARK_PRIVATE_KEY_MAINNET`,
`ETHEREUM_ADDRESS_MAINNET`, and the `_TESTNET` variants with `--testnet`).

The constants of the StarkEx deployment are read from the JSON file named by
`STARK_CONSTANTS` (default `stark_constants.json`):

```json
{
  "constant_points": [["0x...", "0x..."], ...],
  "asset_ids": { "BTC-USD": "0x...", "ETH-USD": "0x...", ... },
  "usd_asset_id_mainnet": "0x...",
  "usd_asset_id_testnet": "0x...",
  "expiration_buffer_hours": 168
}
```

The table of points holds the shift point, the generator, and 2 × 252 points for
the bits of the two hashed elements.

Usage: `fox --strategy <mm|sd|me|se|gd> [--testnet]`.
