//! A single-file, self-describing data container whose index structures live
//! inside the file itself.
//!
//! The heart of the crate is the distributed dictionary: a sharded,
//! open-addressed hash table stored as byte ranges of the container, in which
//! every slot is published by a one-byte commit flag.
//!
//! The modules, leaves first:
//!
//! - `error`, `format`, `metadata`: what operations report, and under which
//!   format and mode a container is open;
//! - `image`: the bytes of a container, read and written by offset;
//! - `text`, `serial`, `addr`, `link_ptr`, `hash`, `integer`: the values that
//!   stand in fixed-width slots, in the binary and in the text format;
//! - `layout`, `shard`, `dict`: the shards and the dictionary;
//! - `file`: an open container with its header;
//! - `frame`, `chain`, `laws`, `growth`, `publish`: what is proved of the
//!   dictionary. It behaves as a map from hashes to values, its file grows
//!   shard by shard, and whoever reads while a writer is at work sees it
//!   either as before an operation or as after it.

pub mod error;
pub mod format;
pub mod metadata;
pub mod image;
pub mod text;
pub mod serial;
pub mod addr;
pub mod link_ptr;
pub mod hash;
pub mod integer;
pub mod layout;
pub mod shard;
pub mod dict;
pub mod file;
pub mod frame;
pub mod chain;
pub mod laws;
pub mod growth;
pub mod publish;
