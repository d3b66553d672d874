//! Tholos: a bonded assertion and dispute oracle.
//!
//! The contracts' decision logic lives here as state machines over plain
//! values: `v1::Tholos` (committee-resolved disputes with self-rotation),
//! `v2::TholosV2` (stake-weighted registration and commit/reveal), an
//! integrating contract that asserts as itself (`consumer`), and the hex
//! helpers used to prepare vote commitments off-chain. Moving tokens,
//! checking signatures, reading the ledger clock and hashing are done by the
//! host around these machines.

pub mod common;
pub mod consumer;
pub mod v1;
pub mod v2;
pub mod hex;
