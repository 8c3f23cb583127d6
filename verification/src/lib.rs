//! Decoding of game-data files, each step stated as a contract over byte
//! sequences.
//!
//! The core is the extraction of PAK archives: directory parsing
//! ([`archive`]), candidate keys ([`keys`]), the search for the key that
//! unlocks an AES-256-ECB encrypted, zlib-compressed entry ([`decode`]),
//! output-path resolution ([`paths`]) and the run over all entries
//! ([`extract`]). Beside it stand the converters for animation files
//! ([`act`]) and table files ([`dnt`], [`dnt_converter`], [`converter`]).
//!
//! Nothing here touches the file system: every function takes the bytes of
//! its input and gives back what is to be written.

pub mod act;
pub mod archive;
pub mod bytes;
pub mod converter;
pub mod decode;
pub mod decryption;
pub mod dnt;
pub mod dnt_converter;
pub mod error;
pub mod extract;
pub mod inflate;
pub mod keys;
pub mod little_endian;
pub mod modes;
pub mod paths;
pub mod text;
