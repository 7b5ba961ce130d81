//! Comms: the deterministic core of the communications capability.
//!
//! Text normalization, mail triage rules, feed quality signals, source
//! discovery parsing, projections, and the small decision functions the
//! server runs between outside calls.

#![allow(unused_imports)]

pub mod text;
pub mod normalize;
pub mod normalize_fixpoint;
pub mod rules;
pub mod provenance;
pub mod hashing;
pub mod store;
pub mod quality;
pub mod projection;
pub mod people_registry;
pub mod relevance;
pub mod sources;
pub mod auth;
pub mod schedule;
pub mod mail;
pub mod cloud;
pub mod relevance_pass;
pub mod scoring;
pub mod redaction;
pub mod requests;
pub mod quiet;
