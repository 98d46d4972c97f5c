# mtf

Verified core of the MTF model container: a compiler turns a safetensors
checkpoint plus its `config.json`/`tokenizer.json` into one `.mtf` file, and an
engine opens that file and serves tensors by name.

File layout (all integers little-endian):

| part     | contents |
|----------|----------|
| header   | `MZTENSOR`, format version (u32), tensor count (u64), 44 zero bytes |
| payloads | each tensor's F32 bytes, zero-padded to start on a 256-byte boundary |
| index    | per tensor, in FNV-1a hash order: hash (u64), rank (u8), element code (u8), payload offset (u64), dimensions (u32 each) |
| metadata | zstd-compressed JSON `{"config": ..., "tokenizer": ...}` |
| footer   | index offset, metadata offset, metadata size (u64 each), format version (u32), 28 zero bytes, `MZTFOOTR` |

`src/` holds the verified library: hashing, half-precision widening, the
metadata bundle, the compiler (safetensors parsing through the `safetensors`
crate, layout writer), the reader, shape checks and their reports, and the
proofs that reading a compiled file gives back what went in. `app/` holds the
command-line front end: file I/O, logging, and inference with candle. The
program takes a `compile` or `run` subcommand; started under the name
`mtf-compiler` or `mtf-engine` it takes that tool's options directly.
