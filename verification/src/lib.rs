//! Client-side encoding and confidentiality layer for notes kept in a remote
//! annotation store.
//!
//! - [`note_abi`]: the four operations on notes, the batch that groups them
//!   by kind, and its wire encoding, built on the items of [`rlp`].
//! - [`encryption`]: a key derived from a password, and authenticated
//!   encryption of payloads under it.
//! - [`metadata`]: the metadata of a note, read from its annotations.
//! - [`note`]: what each operation submits, and what a reader gets back.
//! - [`order`], [`delimit`], [`unique`]: what is proved of the encoding:
//!   operations are grouped by kind and ordered within a kind, every item
//!   tells where it ends, and bytes stand for one batch only.

pub mod delimit;
pub mod encryption;
pub mod error;
pub mod metadata;
pub mod note;
pub mod note_abi;
pub mod order;
pub mod rlp;
pub mod unique;
