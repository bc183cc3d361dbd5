//! The core of a Mercurial-compatible source-control server: typed content
//! hashes and paths, the sharded and chunked blob store, generation-bounded
//! reachability over the commit graph, and the decisions behind the wire
//! protocol commands.
//!
//! Every function states what it computes over mathematical models
//! (sequences of bytes, sets of changesets, maps of rows); the services the
//! server talks to appear here as the plain values they hand back.

pub mod text;
pub mod hex;
pub mod nodehash;
pub mod path;
pub mod caps;
pub mod errors;
pub mod bookmarks;
pub mod nodeset;
pub mod client;
pub mod between;
pub mod manifest;
pub mod gettreepack;
pub mod streaming;
pub mod getpack;
pub mod getbundle;
pub mod from_string;
pub mod graph;
pub mod genbfs;
pub mod store;
pub mod chunking;
pub mod sqlblob;
pub mod validation;
pub mod upload_blobs;
pub mod cachelib_utils;
pub mod model;
pub mod api;
pub mod ancestors;
pub mod hooks;
pub mod admin;
pub mod phases;
pub mod bundle2;
