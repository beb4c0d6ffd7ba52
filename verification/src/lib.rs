//! Byte-oriented AEAD adapter over the Ascon cipher family.
//!
//! The cipher itself is an opaque external capability with a block-aligned,
//! tag-first calling convention; this crate verifies the adapter around it:
//! the block aligner, the tag relocator, the `encrypt`/`decrypt` composition
//! for the Ascon-128 and Ascon-128a variants, and the known-answer-test
//! vector parser used to validate the adapter.

pub mod align;
pub mod relocate;
pub mod primitive;
pub mod adapter;
pub mod kat;

pub use adapter::{
    ascon128_decrypt, ascon128_decrypt_checked, ascon128_encrypt, ascon128a_decrypt,
    ascon128a_decrypt_checked, ascon128a_encrypt,
};
