//! The deterministic per-tick simulation rule, shared verbatim by the
//! server's authoritative loop and the client's prediction replay.
//!
//! One tick of one body is: apply the tick's validated input, if any, as
//! the body's linear velocity, then integrate one step. Because server and
//! client apply the very same rule, replaying the same commands from the
//! same state reproduces the same trajectory — the property client-side
//! prediction rests on.

use vstd::prelude::*;
use crate::history::CommandHistoryEntry;
use crate::messages::{AXIS_ONE, PlayerInput};
use crate::physics::{step_body, unstep_body, BodyState, PhysicsWorld};
use crate::tick::{lemma_tick_add_compose, tick_add};

verus! {

/// A body after an input lands on it: a valid input becomes the linear
/// velocity, an invalid one is discarded with zero effect.
pub open spec fn apply_input(b: BodyState, inp: PlayerInput) -> BodyState {
    if inp.valid() {
        BodyState { linvel_x: inp.x_axis, linvel_y: inp.y_axis, ..b }
    } else {
        b
    }
}

/// One simulated tick of one body: the tick's input, if any, then one
/// integration step.
pub open spec fn tick_body(b: BodyState, cmd: Option<PlayerInput>, dt: int) -> BodyState {
    match cmd {
        Some(c) => step_body(apply_input(b, c), dt),
        None => step_body(b, dt),
    }
}

/// The command recorded for tick `t`, if any. Meaningful when ticks in
/// `cmds` are distinct, as they are in a well-formed history.
pub open spec fn command_at(cmds: Seq<CommandHistoryEntry>, t: u16) -> Option<PlayerInput> {
    if exists|k: int| 0 <= k < cmds.len() && cmds[k].tick == t {
        Some(cmds[choose|k: int| 0 <= k < cmds.len() && cmds[k].tick == t].input)
    } else {
        None
    }
}

/// A body simulated forward for `n` ticks starting just after `t0`,
/// consulting `cmds` for the input of each tick passed.
pub open spec fn run_ticks(
    b: BodyState,
    cmds: Seq<CommandHistoryEntry>,
    t0: u16,
    n: nat,
    dt: int,
) -> BodyState
    decreases n,
{
    if n == 0 {
        b
    } else {
        run_ticks(
            tick_body(b, command_at(cmds, tick_add(t0, 1)), dt),
            cmds,
            tick_add(t0, 1),
            (n - 1) as nat,
            dt,
        )
    }
}

/// A body stepped forward `k` times with no input changes.
pub open spec fn multi_step(b: BodyState, k: nat, dt: int) -> BodyState
    decreases k,
{
    if k == 0 {
        b
    } else {
        step_body(multi_step(b, (k - 1) as nat, dt), dt)
    }
}

/// A body stepped backward `k` times with no input changes.
pub open spec fn multi_unstep(b: BodyState, k: nat, dt: int) -> BodyState
    decreases k,
{
    if k == 0 {
        b
    } else {
        unstep_body(multi_unstep(b, (k - 1) as nat, dt), dt)
    }
}

/// Integrating backward moves only positions: velocities and the
/// collision layer are untouched.
pub proof fn lemma_multi_unstep_keeps(b: BodyState, k: nat, dt: int)
    ensures
        multi_unstep(b, k, dt).layer == b.layer,
        multi_unstep(b, k, dt).linvel_x == b.linvel_x,
        multi_unstep(b, k, dt).linvel_y == b.linvel_y,
        multi_unstep(b, k, dt).angvel == b.angvel,
    decreases k,
{
    if k > 0 {
        lemma_multi_unstep_keeps(b, (k - 1) as nat, dt);
    }
}

/// Replay determinism: from identical starting state, identical commands
/// and an identical clock, the replayed trajectory is identical — the
/// per-tick rule is a mathematical function, never consulting anything
/// beyond its arguments.
pub proof fn lemma_replay_deterministic(
    b1: BodyState,
    b2: BodyState,
    cmds1: Seq<CommandHistoryEntry>,
    cmds2: Seq<CommandHistoryEntry>,
    t0: u16,
    n: nat,
    dt: int,
)
    requires
        b1 == b2,
        cmds1 == cmds2,
    ensures
        run_ticks(b1, cmds1, t0, n, dt) == run_ticks(b2, cmds2, t0, n, dt),
{
}

/// Reconciliation convergence: starting from the same base state at the
/// same base tick, two command records that agree on every tick of the
/// replayed span produce exactly the same state — so a client that rewinds
/// to a server correction and replays the inputs the server also applied
/// ends at the server's authoritative state.
pub proof fn lemma_reconciliation_convergence(
    base: BodyState,
    server_cmds: Seq<CommandHistoryEntry>,
    client_cmds: Seq<CommandHistoryEntry>,
    t0: u16,
    n: nat,
    dt: int,
)
    requires
        forall|i: int|
            1 <= i <= n ==> command_at(server_cmds, #[trigger] tick_add(t0, i)) == command_at(
                client_cmds,
                tick_add(t0, i),
            ),
    ensures
        run_ticks(base, server_cmds, t0, n, dt) == run_ticks(base, client_cmds, t0, n, dt),
    decreases n,
{
    if n > 0 {
        let t1 = tick_add(t0, 1);
        assert(command_at(server_cmds, tick_add(t0, 1)) == command_at(client_cmds, t1));
        let b1 = tick_body(base, command_at(server_cmds, t1), dt);
        assert forall|i: int|
            1 <= i <= n - 1 implies command_at(server_cmds, #[trigger] tick_add(t1, i))
            == command_at(client_cmds, tick_add(t1, i)) by {
            lemma_tick_add_compose(t0, 1, i);
            assert(tick_add(t1, i) == tick_add(t0, 1 + i));
        }
        lemma_reconciliation_convergence(b1, server_cmds, client_cmds, t1, (n - 1) as nat, dt);
    }
}

/// Applies one player's input to the avatar body for this tick: a valid
/// input becomes the body's linear velocity exactly; an input with either
/// axis outside `[-AXIS_ONE, AXIS_ONE]` is discarded with zero effect; a
/// stale handle is a benign miss.
pub fn apply_player_input(world: &mut PhysicsWorld, handle: usize, input: &PlayerInput)
    requires
        old(world).wf(),
    ensures
        final(world).wf(),
        final(world).dt() == old(world).dt(),
        handle < old(world)@.len() ==> final(world)@ == old(world)@.update(
            handle as int,
            apply_input(old(world)@[handle as int], *input),
        ),
        handle >= old(world)@.len() ==> final(world)@ == old(world)@,
{
    if input.is_valid() {
        proof {
            assert(AXIS_ONE <= crate::components::VEL_LIMIT);
        }
        world.set_linvel(handle, input.x_axis, input.y_axis);
    } else {
        proof {
            if handle < world@.len() {
                assert(world@.update(handle as int, apply_input(world@[handle as int], *input))
                    =~= world@);
            }
        }
    }
}

} // verus!
