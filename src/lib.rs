//! Decoding of the container format used by the game's data files: a seed,
//! an obfuscated header and payload, and an optional LZSS-compressed body.
//!
//! [`decompress`] runs the whole pipeline. The stages stand on their own too:
//! [`PRNG`] draws the key words, [`deobfuscate`] and [`obfuscate`] apply the
//! XOR stream, [`checksum`] and [`Checksummer`] compute the container's
//! checksum, and [`CompressedReader`] decodes an LZSS stream.

pub mod bitstream;
pub mod bytes;
pub mod checksum;
pub mod compression;
pub mod container;
pub mod obfuscation;
pub mod prng;

pub use checksum::{checksum, Checksummer};
pub use compression::{lz_unpack, CompressedReader, PrematureEnd};
pub use container::{decompress, CompressionType, DecompressError, Header};
pub use obfuscation::{decrypt, deobfuscate, obfuscate, InputTooSmall};
pub use prng::PRNG;
