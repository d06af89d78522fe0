//! Client-side core of the PowerFS FUSE mount: metadata and chunk caches,
//! capabilities, invalidation, and the decisions behind every file operation.

pub mod client_cap;
pub mod names;
pub mod entry;
pub mod lru_entries;
pub mod text;
pub mod meta_model;
pub mod metadata_cache;
pub mod chunk_cache;
pub mod scan;
pub mod acl;
pub mod layout;
pub mod records;
pub mod inline;
pub mod file_locks;
pub mod dirty;
pub mod fs;
pub mod wire;
pub mod admin_server;
pub mod lock_backend;
pub mod fuse_app;
pub mod chunk_laws;
pub mod meta_laws;
pub mod record_laws;
