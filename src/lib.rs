//! Asset packaging: the manifest model, the checksum cache and the decisions of an
//! incremental build. Reading and writing files is left to the caller: the library takes
//! file contents and hands back what to write.
pub mod asset;
pub mod build_cache;
pub mod manifest;
pub mod processors;
pub mod xml;
mod yaml;
