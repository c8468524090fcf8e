//! A variable-width, variable-round Feistel block cipher of the RC5 family.
//!
//! A key of up to 255 bytes is expanded into a table of words
//! (`key_schedule`), and the table drives a reversible transform on pairs of
//! words (`block`). `cipher` applies the transform to bytes, block by block,
//! as `codec` cuts them up.
//! The cipher is written once, against the `Word` interface (`word`), which
//! the 16-, 32- and 64-bit unsigned integers implement.
//!
//! Every function states what it returns as a specification function of its
//! arguments, and `theorems` proves from these that decoding undoes encoding
//! and that blocks are transformed independently.

pub mod block;
pub mod cipher;
pub mod codec;
pub mod error;
pub mod key_schedule;
pub mod num_ops;
pub mod theorems;
pub mod word;
pub mod word_u16;
pub mod word_u32;
pub mod word_u64;

pub use crate::block::{decode_block, encode_block};
pub use crate::cipher::{
    compute, decode, decode_with_rounds, encode, encode_with_rounds, DEFAULT_ROUNDS,
};
pub use crate::error::CipherError;
pub use crate::key_schedule::{gen_key_table, MAX_KEY_LEN};
pub use crate::word::{FromLeBytes, MagicConstants, ToLeBytes, Word};
