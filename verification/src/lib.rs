//! Peer directory and connection accounting for a peer-to-peer node.
//!
//! The directory keeps one record per remote address, counts connection
//! attempts and established connections against the configured quotas, picks
//! the peers to dial and to advertise, and bounds the number of idle and banned
//! records it retains.
//!
//! - [`database`] holds the database and its operations; [`model`] says what
//!   each operation does, and [`model_laws`] and [`laws`] prove what holds of
//!   them.
//! - [`cleanup`] is the policy that bounds the directory and takes in new
//!   peers; [`cleanup_laws`] proves what holds after it.
//! - [`selection`] picks the peers to dial and to advertise, by the orders of
//!   [`ranking`].
//! - [`saver`] says which records are saved, and decides when.
//! - [`clock`] reads the time that the operations note.
//! - [`address`], [`config`], [`error`] and [`peer`] hold the data;
//!   [`seq_facts`] and [`distinct`] hold the facts on sequences that the proofs
//!   share.

pub mod address;
pub mod cleanup;
pub mod cleanup_laws;
pub mod clock;
pub mod config;
pub mod database;
pub mod distinct;
pub mod error;
pub mod laws;
pub mod model;
pub mod model_laws;
pub mod peer;
pub mod ranking;
pub mod saver;
pub mod selection;
pub mod seq_facts;
