//! Addressing and decoding a chain's storage through its runtime metadata.
//!
//! A path such as `system/account/0x..` is turned into the binary storage key
//! the remote store uses, and the bytes stored there are turned back into a
//! self-describing value, both directed by the metadata's type table.
pub mod backend;
pub mod codec;
pub mod decode;
pub mod error;
pub mod hasher;
pub mod key;
pub mod meta;
