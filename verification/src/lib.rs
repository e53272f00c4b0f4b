//! Networked simulation core for a tick-synchronized multiplayer game:
//! client-side prediction with server reconciliation over a deterministic,
//! fixed-point physics adapter.
//!
//! The crate is split along the data flow: the shared protocol types
//! ([`channels`], [`components`], [`messages`]), the wrap-aware tick clock
//! ([`tick`]), the bounded per-player command history ([`history`]), the
//! deterministic physics adapter ([`physics`]), the server's session
//! registries ([`registry`]) and authoritative tick loop ([`server`]), and
//! the client's prediction and reconciliation engine ([`client`]).

pub mod channels;
pub mod client;
pub mod components;
pub mod history;
pub mod messages;
pub mod physics;
pub mod registry;
pub mod replay;
pub mod server;
pub mod tick;
