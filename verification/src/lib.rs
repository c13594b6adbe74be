//! Recovers the original `.mp3`/`.png` payloads from obfuscated `.AUD`/
//! `.PNZ` game-asset containers. A container carries a 4-byte
//! little-endian Adler-32 checksum followed by the payload, obfuscated by
//! a keyed, position-dependent byte transform; decoding applies the
//! transform under a circular key table whose cursor starts at the
//! checksum reduced modulo the key length, verifies the checksum of the
//! decoded bytes, and hands out the output only on a match.

pub mod batch;
pub mod checksum;
pub mod cipher;
pub mod decoder;
pub mod naming;
