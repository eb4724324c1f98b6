//! A signing oracle for e-mail addresses.
//!
//! An address is hashed with SHA-256, the digest is signed with a fixed
//! Ed25519 private key, and the signature is returned as upper-case base-58
//! text. Every step is a function of its arguments alone: the crate holds no
//! state, reads no file and opens no socket. The program around it reads the
//! key file and the request and hands both in as plain values.

pub mod config;
pub mod digest;
pub mod encoder;
pub mod error;
pub mod key;
pub mod radix58;
pub mod service;
pub mod signer;
mod text;
