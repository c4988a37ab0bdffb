//! A verified core for a caching wrapper around a package-oriented build
//! tool. Given plain-value observations of a workspace — package sources,
//! the lockfile, the toolchain, the environment and the command line — the
//! library computes deterministic fingerprints, decides which stored
//! records still vouch for their packages, propagates invalidation through
//! the workspace dependency graph, and selects what pruning, invalidation
//! and log queries act on. Every function here carries a contract checked
//! by Verus; the shell that runs git, the build tool and the filesystem
//! lives outside and hands in plain values.
//!
//! Layout:
//! - `hashing`: the content-hash primitive and its hex rendering
//! - `strutil`: verified string utilities the rest builds on
//! - `model`: the data types and their mathematical views
//! - `manager`: the cache layout, paths and composite keys
//! - `fingerprint`: feature, environment, command, lockfile and toolchain
//!   hashes
//! - `source`: repo-aware and fallback source fingerprints
//! - `graph`: the dependency graph and the transitive changed set
//! - `validity`: record checks and record assembly
//! - `store`: pruning and invalidation selections
//! - `runner`: the build-invocation decisions
//! - `logs`: log-query selection

pub mod fingerprint;
pub mod graph;
pub mod hashing;
pub mod logs;
pub mod manager;
pub mod model;
pub mod runner;
pub mod source;
pub mod store;
pub mod strutil;
pub mod validity;
