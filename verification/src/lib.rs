//! The core of Stow: files are moved to cloud storage and brought back on
//! demand. This crate holds what can be decided without touching the disk, the
//! network or the clock: the index of offloaded files, the File Provider item
//! table, the offload policy, and the step-by-step protocols that the engine
//! follows. The surrounding program performs the requests that these protocols
//! issue and reports back what happened.

pub mod archive;
pub mod cache;
pub mod config;
pub mod dates;
pub mod effects;
pub mod engine;
pub mod error;
pub mod failures;
pub mod folder;
pub mod hash;
pub mod index;
pub mod init;
pub mod items;
pub mod laws;
pub mod links;
pub mod lists;
pub mod migrate;
pub mod mirroring;
pub mod offload;
pub mod order;
pub mod paths;
pub mod placeholder;
pub mod placing;
pub mod policy;
pub mod provider;
pub mod reporting;
pub mod restore;
pub mod returning;
pub mod s3;
pub mod setup;
pub mod share;
pub mod sharing;
pub mod table;
pub mod text;
pub mod world;

use vstd::prelude::*;

verus! {

} // verus!
