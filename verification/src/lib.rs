//! An indexer of decentralised exchanges on Cardano, and the prices it derives from them.
//!
//! The library follows the blocks of the chain as events. For every transaction that touches
//! a pool of a known protocol it reads the pool's reserves and the swaps that were executed
//! against it from the Plutus data that the transaction carries, keeps them in a store that
//! can be rolled back to any slot, and hands them to a hub for live subscribers. It also
//! answers the queries of the HTTP surface from the store.
//!
//! - [`model`] holds the events of the chain, [`datum`] the Plutus data and the reads in it.
//! - [`sink`] holds the interpreters of the protocols and the pipeline that consults them.
//! - [`queries`] holds the store, with [`entity`] for the rows of its tables.
//! - [`server`] tells requests apart and holds the hub; [`setup`] reads how to start.
//! - [`utils`] and [`hex_codec`] deal with addresses and hexadecimal text.
//!
//! Every function is verified against its contract. What the contracts take on trust of
//! other crates is said above the few functions that call them.

pub mod config;
pub mod datum;
pub mod entity;
pub mod hex_codec;
pub mod model;
pub mod queries;
pub mod search;
pub mod server;
pub mod setup;
pub mod sink;
pub mod text;
pub mod types;
pub mod utils;
