//! A persistent, partitioned message-streaming engine with a verified core:
//! streams contain topics, topics contain partitions, and each partition is an
//! append-only, totally ordered message log backed by byte-exact segment
//! images of the on-disk files. The length-prefixed binary command protocol,
//! the append/poll paths, consumer offsets, consumer groups, users and
//! permissions are all specified by contracts and proved with Verus.

pub mod encoding;
pub mod http_path;
pub mod identifier;
pub mod info;
pub mod dispatch;
pub mod error;
pub mod header;
pub mod message;
pub mod offsets;
pub mod byte_size;
pub mod cli;
pub mod client_config;
pub mod command;
pub mod credentials;
pub mod partition;
pub mod segment;
pub mod stream;
pub mod system;
pub mod topic;
