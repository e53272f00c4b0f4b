//! Replicated components and the fixed-point scale of the simulation state.
//!
//! All kinematic quantities are integers in fixed-point units: positions in
//! micrometers, linear velocities in micrometers per millisecond, angles in
//! microradians and angular velocities in microradians per millisecond.
//! One meter is `1_000_000` position units; an axis value of one maps to a
//! velocity of `1000` units (one meter per second).

use vstd::prelude::*;

verus! {

/// Positions and angles are confined to `[-POS_LIMIT, POS_LIMIT]`; the
/// integrator clamps at this bound instead of overflowing.
pub const POS_LIMIT: i64 = 0x1000_0000_0000_0000;

/// Velocity components are confined to `[-VEL_LIMIT, VEL_LIMIT]`.
pub const VEL_LIMIT: i64 = 0x8000_0000;

/// Marker for the protocol piece that registers the replicated components.
pub struct ComponentsPlugin;

/// One simulated body's authoritative kinematic state at a given tick:
/// everything needed for extrapolation plus absolute positions. Produced by
/// the server each tick; consumed by clients as correction input.
#[derive(Clone, Copy, PartialEq, Eq, Structural)]
pub struct PhysicsStateSync {
    /// Linear velocity, micrometers per millisecond.
    pub linvel_x: i64,
    pub linvel_y: i64,
    /// Angular velocity, microradians per millisecond.
    pub angvel: i64,
    /// Position, micrometers.
    pub pos_x: i64,
    pub pos_y: i64,
    /// Orientation, microradians.
    pub ang: i64,
}

impl PhysicsStateSync {
    /// All velocities within `VEL_LIMIT` and all positions within
    /// `POS_LIMIT`: the states a well-formed physics world can produce.
    pub open spec fn valid(self) -> bool {
        &&& -VEL_LIMIT <= self.linvel_x <= VEL_LIMIT
        &&& -VEL_LIMIT <= self.linvel_y <= VEL_LIMIT
        &&& -VEL_LIMIT <= self.angvel <= VEL_LIMIT
        &&& -POS_LIMIT <= self.pos_x <= POS_LIMIT
        &&& -POS_LIMIT <= self.pos_y <= POS_LIMIT
        &&& -POS_LIMIT <= self.ang <= POS_LIMIT
    }

    /// Builds a snapshot from all six fields.
    pub fn new_complete(
        linvel_x: i64,
        linvel_y: i64,
        angvel: i64,
        pos_x: i64,
        pos_y: i64,
        ang: i64,
    ) -> (s: Self)
        ensures
            s == (PhysicsStateSync { linvel_x, linvel_y, angvel, pos_x, pos_y, ang }),
    {
        PhysicsStateSync { linvel_x, linvel_y, angvel, pos_x, pos_y, ang }
    }

    /// Run-time check for [`Self::valid`].
    pub fn is_valid(&self) -> (r: bool)
        ensures
            r == self.valid(),
    {
        -VEL_LIMIT <= self.linvel_x && self.linvel_x <= VEL_LIMIT
            && -VEL_LIMIT <= self.linvel_y && self.linvel_y <= VEL_LIMIT
            && -VEL_LIMIT <= self.angvel && self.angvel <= VEL_LIMIT
            && -POS_LIMIT <= self.pos_x && self.pos_x <= POS_LIMIT
            && -POS_LIMIT <= self.pos_y && self.pos_y <= POS_LIMIT
            && -POS_LIMIT <= self.ang && self.ang <= POS_LIMIT
    }
}

/// Tag replicated with every player avatar entity.
pub struct CharacterEntity;

/// Tag replicated with every static wall entity.
pub struct WallEntity;

} // verus!
