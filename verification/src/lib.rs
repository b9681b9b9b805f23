//! An encrypted secret store kept in one file: one password protects named
//! directories of named records.
//!
//! The library holds the vault engine and leaves reading, writing and the
//! terminal to its caller: a vault is saved to bytes and opened from bytes.
//!
//! - `wire` and `envelope`: the file format, with the proof that what is
//!   written is read back and that nothing else is read as it.
//! - `keygen` and `cipher`: key derivation and the authenticated cipher,
//!   which are other crates' and are believed, not proved.
//! - `vault`: creating, sealing and opening a vault; directories and records.
//! - `config`: the cost parameters of password stretching.
//! - `parsing`, `commands`, `repl`, `display`: the program's commands and the
//!   lines of its interactive session, without their input and output.
pub mod cipher;
pub mod commands;
pub mod config;
pub mod display;
pub mod envelope;
pub mod error;
pub mod keygen;
pub mod names;
pub mod parsing;
pub mod repl;
pub mod vault;
pub mod wire;
