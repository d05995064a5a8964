# opsense

The verified core of a toolkit for backtesting and streaming grid strategies,
for the job runner that executes backtests, and for the interactive shell that
queries stations and runs analyses in kernels.

## Layout

- `src/` is the library. Everything in it is Verus code with contracts.
- `tests/` runs the library on concrete values.
- `app/` is ordinary Rust around it: HTTP, Redis, LMDB, Telegram, the terminal,
  asynchronous loops, serde rows and the ONNX runtime.

| Part | Modules |
|---|---|
| Numbers | `num`, `arith`, `rounding` |
| Market data | `candle`, `series`, `calendar`, `blocks`, `ohcl`, `loader`, `providers`, `lru`, `analysis`, `extractor` |
| Grids and plans | `grid`, `pricing`, `plan`, `strategies`, `fee`, `quotes` |
| Running | `order`, `entries`, `session`, `forward`, `streaming`, `report`, `score`, `playground` |
| Genomes and models | `graph`, `models` |
| Services | `jobs`, `runner`, `redis`, `reload`, `sandbox`, `telegram` |
| Shell | `repl` |
| Text | `text`, `lexical`, `json` |

## Numbers

Verus proves nothing about floating-point arithmetic, so a price is held as its
IEEE 754 bit pattern (`num::Num`). Comparisons, bounds and conversions to counts
are proved on the pattern. A formula takes a calculator, a function of the
caller that does one step of arithmetic (`arith::Calculation`), and its contract
says which steps are taken on which numbers. The only thing asked of a calculator
is that it answers the same question the same way.

## What is trusted

A few calls into other crates stand behind contracts that Verus believes:
`serde_json` in `json`, `base64` and Rust's quoting of strings in
`repl::analyses`, `comfy_table` in `repl::display`, and some methods of `char`,
`str` and `String` in `text` and `repl::vars`. Each of them says in its doc
comment what it claims.

## Dependencies

`kstring` is named in `Cargo.toml` only to hold it at 2.0.2. It comes in through
`tract-onnx` (by way of `liquid-core`), and its later versions ask for a newer
compiler than this crate is built with. Nothing here calls it.
