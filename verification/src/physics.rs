//! Deterministic physics adapter: a rigid-body world advanced by a fixed
//! time delta, forward with [`PhysicsWorld::step`] and backward with
//! [`PhysicsWorld::step_back`].
//!
//! The adapter integrates each body's position from its velocity in exact
//! fixed-point arithmetic (units as in [`crate::components`]), clamping
//! positions at [`POS_LIMIT`], so a step is a pure function of the world's
//! state: the determinism that prediction and replay rely on. Collision
//! resolution is an external concern; bodies here never interact, and the
//! collision layers only partition predicted, confirmed and static bodies
//! so that the two copies of one logical entity can never collide.

use vstd::prelude::*;
use crate::components::{PhysicsStateSync, POS_LIMIT, VEL_LIMIT};

verus! {

/// Largest step delta, in milliseconds.
pub const DT_LIMIT: i64 = 1000;

/// The nominal fixed tick interval, in milliseconds.
pub const DEFAULT_DT_MS: i64 = 50;

/// Collision layer of a body: predicted and confirmed copies of the same
/// logical entity are kept in separate layers so they never collide, while
/// static geometry collides with everything.
#[derive(Clone, Copy, Debug, Eq, PartialEq, Structural)]
pub enum Layer {
    Confirmed,
    Predicted,
    Static,
}

impl Layer {
    /// The (memberships, filter) bit masks of this layer.
    pub open spec fn groups(self) -> (u32, u32) {
        match self {
            Layer::Confirmed => (1u32, 1u32),
            Layer::Predicted => (2u32, 2u32),
            Layer::Static => (0xffff_ffffu32, 0xffff_ffffu32),
        }
    }

    /// Interaction groups as bit masks: which groups the body belongs to,
    /// and which groups it may touch.
    pub fn interaction_groups(self) -> (g: (u32, u32))
        ensures
            g == self.groups(),
    {
        match self {
            Layer::Confirmed => (1u32, 1u32),
            Layer::Predicted => (2u32, 2u32),
            Layer::Static => (0xffff_ffffu32, 0xffff_ffffu32),
        }
    }
}

/// Handles of one body and its collider in the world.
#[derive(Clone, Copy, PartialEq, Eq, Structural)]
pub struct PhysicsBodyHandle {
    pub rigid_body: usize,
    pub collider: usize,
}

/// A position in fixed-point units (micrometers).
#[derive(Clone, Copy, PartialEq, Eq, Structural)]
pub struct Position {
    pub x: i64,
    pub y: i64,
}

/// A linear velocity in fixed-point units (micrometers per millisecond).
#[derive(Clone, Copy, PartialEq, Eq, Structural)]
pub struct Velocity {
    pub x: i64,
    pub y: i64,
}

/// The full kinematic state of one rigid body, plus its collision layer.
#[derive(Clone, Copy, PartialEq, Eq, Structural)]
pub struct BodyState {
    pub linvel_x: i64,
    pub linvel_y: i64,
    pub angvel: i64,
    pub pos_x: i64,
    pub pos_y: i64,
    pub ang: i64,
    pub layer: Layer,
}

impl BodyState {
    /// Velocities within `VEL_LIMIT`, positions within `POS_LIMIT`.
    pub open spec fn wf(self) -> bool {
        &&& -VEL_LIMIT <= self.linvel_x <= VEL_LIMIT
        &&& -VEL_LIMIT <= self.linvel_y <= VEL_LIMIT
        &&& -VEL_LIMIT <= self.angvel <= VEL_LIMIT
        &&& -POS_LIMIT <= self.pos_x <= POS_LIMIT
        &&& -POS_LIMIT <= self.pos_y <= POS_LIMIT
        &&& -POS_LIMIT <= self.ang <= POS_LIMIT
    }

    /// A body at rest at the given position.
    pub fn at_rest(layer: Layer, pos_x: i64, pos_y: i64) -> (b: Self)
        requires
            -POS_LIMIT <= pos_x <= POS_LIMIT,
            -POS_LIMIT <= pos_y <= POS_LIMIT,
        ensures
            b == (BodyState {
                linvel_x: 0,
                linvel_y: 0,
                angvel: 0,
                pos_x,
                pos_y,
                ang: 0,
                layer,
            }),
            b.wf(),
    {
        BodyState { linvel_x: 0, linvel_y: 0, angvel: 0, pos_x, pos_y, ang: 0, layer }
    }

    /// The replicated snapshot of this body's state.
    pub open spec fn snapshot(self) -> PhysicsStateSync {
        PhysicsStateSync {
            linvel_x: self.linvel_x,
            linvel_y: self.linvel_y,
            angvel: self.angvel,
            pos_x: self.pos_x,
            pos_y: self.pos_y,
            ang: self.ang,
        }
    }

    /// This body with its kinematic state replaced by `s`, layer kept.
    pub open spec fn corrected(self, s: PhysicsStateSync) -> BodyState {
        BodyState {
            linvel_x: s.linvel_x,
            linvel_y: s.linvel_y,
            angvel: s.angvel,
            pos_x: s.pos_x,
            pos_y: s.pos_y,
            ang: s.ang,
            layer: self.layer,
        }
    }

    /// Builds the replicated snapshot of this body.
    pub fn to_snapshot(&self) -> (s: PhysicsStateSync)
        ensures
            s == self.snapshot(),
    {
        PhysicsStateSync {
            linvel_x: self.linvel_x,
            linvel_y: self.linvel_y,
            angvel: self.angvel,
            pos_x: self.pos_x,
            pos_y: self.pos_y,
            ang: self.ang,
        }
    }
}

/// A coordinate confined to the world's bounds.
pub open spec fn clamped(x: int) -> int {
    if x < -POS_LIMIT {
        -POS_LIMIT as int
    } else if x > POS_LIMIT {
        POS_LIMIT as int
    } else {
        x
    }
}

/// One body advanced by one step of delta `dt` (milliseconds): each
/// position coordinate integrates its velocity, clamped at the world
/// bounds; velocities are untouched.
pub open spec fn step_body(b: BodyState, dt: int) -> BodyState {
    BodyState {
        pos_x: clamped(b.pos_x + b.linvel_x * dt) as i64,
        pos_y: clamped(b.pos_y + b.linvel_y * dt) as i64,
        ang: clamped(b.ang + b.angvel * dt) as i64,
        ..b
    }
}

/// One body advanced by one step of the negated delta: the same
/// integration run backward.
pub open spec fn unstep_body(b: BodyState, dt: int) -> BodyState {
    BodyState {
        pos_x: clamped(b.pos_x - b.linvel_x * dt) as i64,
        pos_y: clamped(b.pos_y - b.linvel_y * dt) as i64,
        ang: clamped(b.ang - b.angvel * dt) as i64,
        ..b
    }
}

/// The deterministic rigid-body world. Its view is the sequence of body
/// states, indexed by the handles [`PhysicsWorld::insert`] returned.
pub struct PhysicsWorld {
    bodies: Vec<BodyState>,
    dt_ms: i64,
}

impl View for PhysicsWorld {
    type V = Seq<BodyState>;

    closed spec fn view(&self) -> Seq<BodyState> {
        self.bodies@
    }
}

impl PhysicsWorld {
    /// The fixed step delta of this world, milliseconds.
    pub closed spec fn dt(self) -> int {
        self.dt_ms as int
    }

    /// A world is well-formed when its delta is positive and bounded and
    /// every body is within the kinematic limits.
    pub open spec fn wf(self) -> bool {
        &&& 0 < self.dt() <= DT_LIMIT
        &&& forall|i: int| 0 <= i < self@.len() ==> self@[i].wf()
    }

    /// An empty world stepping by the given delta.
    pub fn new(dt_ms: i64) -> (w: Self)
        requires
            0 < dt_ms <= DT_LIMIT,
        ensures
            w@ == Seq::<BodyState>::empty(),
            w.dt() == dt_ms,
            w.wf(),
    {
        PhysicsWorld { bodies: Vec::new(), dt_ms }
    }

    /// Reads the step delta back, milliseconds.
    pub fn dt_millis(&self) -> (dt: i64)
        ensures
            dt == self.dt(),
    {
        self.dt_ms
    }

    /// Number of bodies in the world.
    pub fn body_count(&self) -> (n: usize)
        ensures
            n == self@.len(),
    {
        self.bodies.len()
    }

    /// Adds a body to the world and returns its handles. The rigid body
    /// handle indexes the world's view; the collider handle mirrors it.
    pub fn insert(&mut self, body: BodyState) -> (h: PhysicsBodyHandle)
        requires
            old(self).wf(),
            body.wf(),
        ensures
            final(self)@ == old(self)@.push(body),
            final(self).dt() == old(self).dt(),
            final(self).wf(),
            h.rigid_body == old(self)@.len(),
            h.collider == h.rigid_body,
    {
        let idx = self.bodies.len();
        self.bodies.push(body);
        PhysicsBodyHandle { rigid_body: idx, collider: idx }
    }

    /// Reads one body's state; `None` when the handle is stale.
    pub fn get_rigid_body(&self, handle: usize) -> (b: Option<BodyState>)
        ensures
            handle < self@.len() ==> b == Some(self@[handle as int]),
            handle >= self@.len() ==> b is None,
    {
        if handle < self.bodies.len() {
            Some(self.bodies[handle])
        } else {
            None
        }
    }

    /// Sets one body's linear velocity; a stale handle is a benign miss and
    /// leaves the world unchanged.
    pub fn set_linvel(&mut self, handle: usize, vx: i64, vy: i64)
        requires
            old(self).wf(),
            -VEL_LIMIT <= vx <= VEL_LIMIT,
            -VEL_LIMIT <= vy <= VEL_LIMIT,
        ensures
            final(self).dt() == old(self).dt(),
            final(self).wf(),
            handle < old(self)@.len() ==> final(self)@ == old(self)@.update(
                handle as int,
                BodyState { linvel_x: vx, linvel_y: vy, ..old(self)@[handle as int] },
            ),
            handle >= old(self)@.len() ==> final(self)@ == old(self)@,
    {
        if handle < self.bodies.len() {
            let b = self.bodies[handle];
            self.bodies.set(handle, BodyState { linvel_x: vx, linvel_y: vy, ..b });
        }
    }

    /// Sets one body's position; a stale handle leaves the world unchanged.
    pub fn set_translation(&mut self, handle: usize, px: i64, py: i64)
        requires
            old(self).wf(),
            -POS_LIMIT <= px <= POS_LIMIT,
            -POS_LIMIT <= py <= POS_LIMIT,
        ensures
            final(self).dt() == old(self).dt(),
            final(self).wf(),
            handle < old(self)@.len() ==> final(self)@ == old(self)@.update(
                handle as int,
                BodyState { pos_x: px, pos_y: py, ..old(self)@[handle as int] },
            ),
            handle >= old(self)@.len() ==> final(self)@ == old(self)@,
    {
        if handle < self.bodies.len() {
            let b = self.bodies[handle];
            self.bodies.set(handle, BodyState { pos_x: px, pos_y: py, ..b });
        }
    }

    /// Writes a full authoritative snapshot into one body, keeping its
    /// layer; a stale handle leaves the world unchanged.
    pub fn apply_snapshot(&mut self, handle: usize, s: &PhysicsStateSync)
        requires
            old(self).wf(),
            s.valid(),
        ensures
            final(self).dt() == old(self).dt(),
            final(self).wf(),
            handle < old(self)@.len() ==> final(self)@ == old(self)@.update(
                handle as int,
                old(self)@[handle as int].corrected(*s),
            ),
            handle >= old(self)@.len() ==> final(self)@ == old(self)@,
    {
        if handle < self.bodies.len() {
            let b = self.bodies[handle];
            self.bodies.set(
                handle,
                BodyState {
                    linvel_x: s.linvel_x,
                    linvel_y: s.linvel_y,
                    angvel: s.angvel,
                    pos_x: s.pos_x,
                    pos_y: s.pos_y,
                    ang: s.ang,
                    layer: b.layer,
                },
            );
        }
    }

    /// Advances the whole world by one fixed positive time delta.
    pub fn step(&mut self)
        requires
            old(self).wf(),
        ensures
            final(self).dt() == old(self).dt(),
            final(self).wf(),
            final(self)@.len() == old(self)@.len(),
            forall|i: int| 0 <= i < final(self)@.len() ==> final(self)@[i] == step_body(
                old(self)@[i],
                old(self).dt(),
            ),
    {
        let dt = self.dt_ms;
        let n = self.bodies.len();
        let mut i: usize = 0;
        while i < n
            invariant
                n == self.bodies@.len(),
                0 < dt <= DT_LIMIT,
                self.dt_ms == dt,
                i <= n,
                forall|j: int| 0 <= j < n ==> self.bodies@[j].wf() || j < i,
                forall|j: int| i <= j < n ==> self.bodies@[j] == old(self).bodies@[j],
                forall|j: int| 0 <= j < i ==> self.bodies@[j] == step_body(
                    old(self).bodies@[j],
                    dt as int,
                ),
                forall|j: int| 0 <= j < i ==> self.bodies@[j].wf(),
            decreases n - i,
        {
            let b = self.bodies[i];
            let nb = BodyState {
                pos_x: integrate_coord(b.pos_x, b.linvel_x, dt),
                pos_y: integrate_coord(b.pos_y, b.linvel_y, dt),
                ang: integrate_coord(b.ang, b.angvel, dt),
                ..b
            };
            self.bodies.set(i, nb);
            i += 1;
        }
    }

    /// Advances the whole world by the same magnitude delta, negated:
    /// integrates every body one step backward.
    pub fn step_back(&mut self)
        requires
            old(self).wf(),
        ensures
            final(self).dt() == old(self).dt(),
            final(self).wf(),
            final(self)@.len() == old(self)@.len(),
            forall|i: int| 0 <= i < final(self)@.len() ==> final(self)@[i] == unstep_body(
                old(self)@[i],
                old(self).dt(),
            ),
    {
        let dt = self.dt_ms;
        let n = self.bodies.len();
        let mut i: usize = 0;
        while i < n
            invariant
                n == self.bodies@.len(),
                0 < dt <= DT_LIMIT,
                self.dt_ms == dt,
                i <= n,
                forall|j: int| 0 <= j < n ==> self.bodies@[j].wf() || j < i,
                forall|j: int| i <= j < n ==> self.bodies@[j] == old(self).bodies@[j],
                forall|j: int| 0 <= j < i ==> self.bodies@[j] == unstep_body(
                    old(self).bodies@[j],
                    dt as int,
                ),
                forall|j: int| 0 <= j < i ==> self.bodies@[j].wf(),
            decreases n - i,
        {
            let b = self.bodies[i];
            let nb = BodyState {
                pos_x: integrate_coord_back(b.pos_x, b.linvel_x, dt),
                pos_y: integrate_coord_back(b.pos_y, b.linvel_y, dt),
                ang: integrate_coord_back(b.ang, b.angvel, dt),
                ..b
            };
            self.bodies.set(i, nb);
            i += 1;
        }
    }
}

impl Default for PhysicsWorld {
    /// An empty world stepping by the nominal tick interval.
    fn default() -> (w: Self)
        ensures
            w@ == Seq::<BodyState>::empty(),
            w.dt() == DEFAULT_DT_MS,
            w.wf(),
    {
        PhysicsWorld { bodies: Vec::new(), dt_ms: DEFAULT_DT_MS }
    }
}

/// One coordinate integrated forward by `v * dt`, clamped at the world
/// bounds; the arithmetic is exact, so equal arguments always give equal
/// results.
fn integrate_coord(p: i64, v: i64, dt: i64) -> (r: i64)
    requires
        -POS_LIMIT <= p <= POS_LIMIT,
        -VEL_LIMIT <= v <= VEL_LIMIT,
        0 < dt <= DT_LIMIT,
    ensures
        r == clamped(p + v * dt),
        -POS_LIMIT <= r <= POS_LIMIT,
{
    proof {
        lemma_delta_bounded(v as int, dt as int);
    }
    let delta: i64 = v * dt;
    let sum: i64 = p + delta;
    if sum < -POS_LIMIT {
        -POS_LIMIT
    } else if sum > POS_LIMIT {
        POS_LIMIT
    } else {
        sum
    }
}

/// One coordinate integrated backward by `v * dt`, clamped.
fn integrate_coord_back(p: i64, v: i64, dt: i64) -> (r: i64)
    requires
        -POS_LIMIT <= p <= POS_LIMIT,
        -VEL_LIMIT <= v <= VEL_LIMIT,
        0 < dt <= DT_LIMIT,
    ensures
        r == clamped(p - v * dt),
        -POS_LIMIT <= r <= POS_LIMIT,
{
    proof {
        lemma_delta_bounded(v as int, dt as int);
    }
    let delta: i64 = v * dt;
    let diff: i64 = p - delta;
    if diff < -POS_LIMIT {
        -POS_LIMIT
    } else if diff > POS_LIMIT {
        POS_LIMIT
    } else {
        diff
    }
}

/// A bounded velocity times a bounded delta stays far inside the
/// coordinate range.
proof fn lemma_delta_bounded(v: int, dt: int)
    requires
        -VEL_LIMIT <= v <= VEL_LIMIT,
        0 < dt <= DT_LIMIT,
    ensures
        -(VEL_LIMIT as int) * (DT_LIMIT as int) <= v * dt <= (VEL_LIMIT as int) * (DT_LIMIT as int),
{
    assert(-(VEL_LIMIT as int) * (DT_LIMIT as int) <= v * dt <= (VEL_LIMIT as int) * (
    DT_LIMIT as int)) by (nonlinear_arith)
        requires
            -VEL_LIMIT <= v <= VEL_LIMIT,
            0 < dt <= DT_LIMIT,
    ;
}

} // verus!
