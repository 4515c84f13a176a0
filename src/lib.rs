//! Hash partitioning of key/payload tuples into `2^b` buckets, with the
//! routing, chunking and bucket-writing logic stated and proved.

pub mod error;
pub mod hashing;
pub mod chunker;
pub mod dataset;
pub mod routing;
pub mod independent;
pub mod concurrent;
pub mod shared;
pub mod engine;

