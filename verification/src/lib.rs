//! Passphrase-sealed files.
//!
//! A `.sld` file is a header, one record for each chunk of plaintext, and a final marker.
//! The key is derived from a passphrase with Argon2id; every record is sealed with
//! ChaCha20-Poly1305 and authenticates the header and its own index.
//!
//! - [`le`]: the integers of the format
//! - [`policy`]: which passphrases and key-derivation costs are acceptable
//! - [`header`], [`record`]: the layout of a file
//! - [`seal`], [`open`]: writing and reading files, whole or one chunk at a time
//! - [`stream`]: what these ask of input and output
//! - [`output`], [`arguments`]: the decisions of the program around them
//! - [`laws`]: what holds of sealing and opening together
//! - [`external`]: the outside functions, with the contracts that are taken on trust
pub mod arguments;
pub mod external;
pub mod header;
pub mod laws;
pub mod le;
pub mod open;
pub mod output;
pub mod policy;
pub mod record;
pub mod seal;
pub mod stream;

pub use crate::open::{decrypt_file, decrypt_file_with_policy};
pub use crate::policy::{kdf_costs_for_level, Argon2Level};
pub use crate::seal::{encrypt_file, encrypt_file_with_kdf_params, encrypt_file_with_policy};
