//! Deterministic neural inference with checkable commitments, and the logic of the bots
//! and on-chain programs around it.
//!
//! - The mesh: Q16.16 arithmetic ([`fixed`]), the dueling policy network ([`net`]),
//!   keccak commitments ([`commit`]), Merkle batching ([`batch`]), the `.mesh` file
//!   format ([`format`]), the committing agent ([`agent`]).
//! - Attestation of trading decisions ([`attest`]), their anchoring calldata
//!   ([`anchor`]) and the flush loop's progress ([`daemon`]).
//! - BOT Chain: networks and venues ([`chain`]), the RPC client's decisions ([`rpc`]), the
//!   probe's scan plan ([`probe`]).
//! - The Telegram operator bot: message text ([`text`]), rendering ([`render`]), state
//!   readings ([`state`]), the command table and `/dump` gate ([`commands`]), owners and
//!   claims ([`auth`]), confirmation prompts ([`chat`]), config edits ([`control`]),
//!   process presence ([`presence`]).
//! - The on-chain programs' rules: the bond escrow ([`escrow`]), the lock vault
//!   ([`vault`]), the profit guard ([`swap`]).
//! - The sniper's arithmetic and checks: the AMM quote ([`amm`]), the sell rounds and
//!   trade book ([`sell`]), the entry gates ([`entry`]).
//! - The `scematica` launcher's command table ([`launcher`]).
pub mod fixed;
pub mod net;

pub mod bytes;
pub mod decimal;
pub mod keccak;
pub mod random;

pub mod commit;
pub mod batch;
pub mod format;
pub mod agent;

pub mod attest;
pub mod anchor;
pub mod daemon;

pub mod chain;
pub mod rpc;
pub mod probe;

pub mod text;
pub mod presence;
pub mod render;
pub mod state;
pub mod control;
pub mod commands;
pub mod auth;
pub mod chat;

pub mod escrow;
pub mod vault;
pub mod swap;
pub mod amm;
pub mod sell;
pub mod entry;

pub mod launcher;
