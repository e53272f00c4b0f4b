//! The messages exchanged between client and server, with entity references
//! and input axes as plain values.
//!
//! Input axes are fixed-point: [`AXIS_ONE`] stands for an axis value of one
//! (full deflection), and a valid axis lies in `[-AXIS_ONE, AXIS_ONE]`. An
//! axis value of [`AXIS_ONE`] maps one-to-one to a linear velocity of one
//! meter per second in the physics adapter's units.

use vstd::prelude::*;

verus! {

/// Fixed-point representation of an axis value of one.
pub const AXIS_ONE: i64 = 1000;

/// Marker for the protocol piece that registers the message types.
pub struct MessagesPlugin;

/// Authentication request; the server answers with accept or reject.
pub struct Auth {
    pub name: String,
    pub channel_password: String,
}

/// One player's directional input for one tick, aimed at the avatar entity
/// the player controls. `entity` is `None` until a target is attached.
#[derive(Clone, Copy)]
pub struct PlayerInput {
    pub entity: Option<u64>,
    pub x_axis: i64,
    pub y_axis: i64,
}

impl PlayerInput {
    /// Both axes within `[-AXIS_ONE, AXIS_ONE]`: the inputs the server will
    /// apply. Anything outside is discarded without effect.
    pub open spec fn valid(self) -> bool {
        &&& -AXIS_ONE <= self.x_axis <= AXIS_ONE
        &&& -AXIS_ONE <= self.y_axis <= AXIS_ONE
    }

    /// Run-time check for [`Self::valid`].
    pub fn is_valid(&self) -> (r: bool)
        ensures
            r == self.valid(),
    {
        -AXIS_ONE <= self.x_axis && self.x_axis <= AXIS_ONE
            && -AXIS_ONE <= self.y_axis && self.y_axis <= AXIS_ONE
    }

    /// Builds an input from directional key state: opposite keys cancel to
    /// zero, a single pressed key gives full deflection. The result is
    /// always valid and has no target attached yet.
    pub fn from_wasd(w: bool, a: bool, s: bool, d: bool) -> (input: Self)
        ensures
            input.entity is None,
            input.y_axis == (if w == s { 0int } else if w { AXIS_ONE as int } else { -AXIS_ONE as int }),
            input.x_axis == (if d == a { 0int } else if d { AXIS_ONE as int } else { -AXIS_ONE as int }),
            input.valid(),
    {
        let y_axis: i64 = if w == s {
            0
        } else if w {
            AXIS_ONE
        } else {
            -AXIS_ONE
        };
        let x_axis: i64 = if d == a {
            0
        } else if d {
            AXIS_ONE
        } else {
            -AXIS_ONE
        };
        PlayerInput { entity: None, x_axis, y_axis }
    }

    /// Builds an input from raw axis values, valid or not; the server-side
    /// validation decides whether it ever takes effect.
    pub fn from_axes(x: i64, y: i64) -> (input: Self)
        ensures
            input == (PlayerInput { entity: None, x_axis: x, y_axis: y }),
    {
        PlayerInput { entity: None, x_axis: x, y_axis: y }
    }
}

/// Tells a player which character entity they control. `assign` true grants
/// ownership of `entity`, false revokes it.
#[derive(Clone, Copy, Debug, PartialEq, Eq)]
pub struct EntityAssignment {
    pub entity: Option<u64>,
    pub assign: bool,
}

impl EntityAssignment {
    /// A grant or revocation with no entity attached yet.
    pub fn new(assign: bool) -> (msg: Self)
        ensures
            msg.entity is None,
            msg.assign == assign,
    {
        EntityAssignment { entity: None, assign }
    }
}

/// Points a player at a new target entity.
#[derive(Clone, Copy)]
pub struct NewTarget {
    pub entity: Option<u64>,
}

impl NewTarget {
    /// A target message with no entity attached yet.
    pub fn new() -> (msg: Self)
        ensures
            msg.entity is None,
    {
        NewTarget { entity: None }
    }
}

} // verus!
