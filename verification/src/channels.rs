//! Marker types naming the two message channels of the wire protocol.
//!
//! The transport itself is an external collaborator; the core only
//! distinguishes the tick-buffered input channel from the reliable game
//! message channel, so the channels are identified by these marker types.

use vstd::prelude::*;

verus! {

/// Client-to-server channel carrying a player's input for a given tick.
/// Payloads are consumed in per-tick buckets, not in arrival order.
pub struct PlayerInputChannel;

/// Server-to-client reliable channel for game messages: entity assignment,
/// target assignment and connection lifecycle notices. Delivered in sending
/// order, but not tick-ordered relative to tick-buffered traffic.
pub struct GameMessageChannel;

/// Marker for the protocol piece that registers the two channels above.
pub struct ChannelsPlugin;

} // verus!
