//! The authoritative server: session acceptance, avatar lifecycle, the
//! per-tick simulation loop and interest scoping.
//!
//! Each tick the server drains the tick's buffered inputs in arrival
//! order (last write wins), discards any input with an axis outside the
//! valid range, applies the rest as avatar velocities, advances the
//! physics world one step, recomputes the replication snapshots and the
//! interest scope. Connections are refused before any avatar exists when
//! the server is full, the password is wrong, or the name is taken; a
//! disconnect removes session and avatar state transactionally.

use vstd::prelude::*;
use crate::client::assoc;
use crate::components::{PhysicsStateSync, POS_LIMIT};
use crate::messages::{Auth, EntityAssignment, PlayerInput};
use crate::physics::{BodyState, Layer, PhysicsWorld};
use crate::registry::{UserAvatarMapping, UserNameMapping};
use crate::replay::apply_input;

verus! {

/// Server configuration: the largest number of simultaneous players and
/// the optional shared channel password.
pub struct Args {
    pub max_players: u8,
    pub password: Option<String>,
}

/// Why an authentication request was refused. The wire carries only
/// accept or reject; the reason stays on the server.
#[derive(Clone, Copy, Debug, PartialEq, Eq, Structural)]
pub enum RejectReason {
    ServerFull,
    WrongPassword,
    DuplicateName,
}

/// The configured password matches the offered one (a missing
/// configuration accepts anything).
pub open spec fn password_ok(cfg: Args, auth: Auth) -> bool {
    match cfg.password {
        None => true,
        Some(p) => p@ == auth.channel_password@,
    }
}

/// Decides one authentication request: accepted exactly when the server
/// has room, the password matches and the display name is free, in that
/// order of precedence; on acceptance the session enters the name
/// registry, on refusal nothing changes.
pub fn auth_events(cfg: &Args, user: u64, auth: &Auth, users_names: &mut UserNameMapping) -> (r:
    Result<(), RejectReason>)
    requires
        old(users_names).wf(),
    ensures
        final(users_names).wf(),
        r is Err ==> final(users_names)@ == old(users_names)@,
        r is Ok <==> (old(users_names)@.len() < cfg.max_players && password_ok(*cfg, *auth) && !old(
            users_names,
        ).has_name(auth.name@)),
        r == Err::<(), RejectReason>(RejectReason::ServerFull) <==> old(users_names)@.len()
            >= cfg.max_players,
        r == Err::<(), RejectReason>(RejectReason::WrongPassword) <==> (old(users_names)@.len()
            < cfg.max_players && !password_ok(*cfg, *auth)),
        r == Err::<(), RejectReason>(RejectReason::DuplicateName) <==> (old(users_names)@.len()
            < cfg.max_players && password_ok(*cfg, *auth) && old(users_names).has_name(
            auth.name@,
        )),
        r is Ok ==> final(users_names).maps(user, auth.name@),
        r is Ok ==> forall|u: u64, n: Seq<char>|
            #[trigger] crate::registry::name_pairs_map(final(users_names)@, u, n) <==> ((u == user
                && n == auth.name@) || (crate::registry::name_pairs_map(old(users_names)@, u, n)
                && u != user && n != auth.name@)),
{
    if users_names.len() >= cfg.max_players as usize {
        return Err(RejectReason::ServerFull);
    }
    let password_matches = match &cfg.password {
        None => true,
        Some(p) => *p == auth.channel_password,
    };
    if !password_matches {
        return Err(RejectReason::WrongPassword);
    }
    if users_names.get_by_name(&auth.name).is_some() {
        return Err(RejectReason::DuplicateName);
    }
    users_names.insert(user, auth.name.clone());
    Ok(())
}

/// Handles one successful connection: the avatar body is spawned at rest
/// at the caller-chosen spawn point (typically drawn at random),
/// registered to the user, added to the shared room, and an ownership
/// grant for it is produced. A user with no registered name is a benign
/// miss and nothing changes.
pub fn connect_events(
    user: u64,
    entity: u64,
    spawn_x: i64,
    spawn_y: i64,
    users_names: &UserNameMapping,
    users_avatars: &mut UserAvatarMapping,
    avatar_handles: &mut Vec<(u64, usize)>,
    room_entities: &mut Vec<u64>,
    physics: &mut PhysicsWorld,
) -> (r: Option<EntityAssignment>)
    requires
        old(users_avatars).wf(),
        old(physics).wf(),
        -POS_LIMIT <= spawn_x <= POS_LIMIT,
        -POS_LIMIT <= spawn_y <= POS_LIMIT,
    ensures
        final(users_avatars).wf(),
        final(physics).wf(),
        final(physics).dt() == old(physics).dt(),
        !users_names.has_user(user) ==> {
            &&& r is None
            &&& final(users_avatars)@ == old(users_avatars)@
            &&& final(avatar_handles)@ == old(avatar_handles)@
            &&& final(room_entities)@ == old(room_entities)@
            &&& final(physics)@ == old(physics)@
        },
        users_names.has_user(user) ==> {
            &&& r == Some(EntityAssignment { entity: Some(entity), assign: true })
            &&& final(physics)@ == old(physics)@.push(
                (BodyState {
                    linvel_x: 0,
                    linvel_y: 0,
                    angvel: 0,
                    pos_x: spawn_x,
                    pos_y: spawn_y,
                    ang: 0,
                    layer: Layer::Confirmed,
                }),
            )
            &&& final(avatar_handles)@ == old(avatar_handles)@.push(
                (entity, old(physics)@.len() as usize),
            )
            &&& final(room_entities)@ == old(room_entities)@.push(entity)
            &&& final(users_avatars).maps(user, entity)
            &&& forall|u: u64, a: u64|
                #[trigger] crate::registry::pairs_map(final(users_avatars)@, u, a) <==> ((u == user
                    && a == entity) || (crate::registry::pairs_map(old(users_avatars)@, u, a) && u
                    != user && a != entity))
        },
{
    if users_names.get_by_user(&user).is_none() {
        return None;
    }
    let body = BodyState::at_rest(Layer::Confirmed, spawn_x, spawn_y);
    let h = physics.insert(body);
    avatar_handles.push((entity, h.rigid_body));
    room_entities.push(entity);
    users_avatars.insert(user, entity);
    Some(EntityAssignment { entity: Some(entity), assign: true })
}

/// Removes the first occurrence of `x`; without an occurrence nothing
/// changes.
fn remove_value(v: &mut Vec<u64>, x: u64)
    ensures
        !old(v)@.contains(x) ==> final(v)@ == old(v)@,
        old(v)@.contains(x) ==> exists|i: int|
            0 <= i < old(v)@.len() && old(v)@[i] == x && (forall|k: int|
                0 <= k < i ==> old(v)@[k] != x) && final(v)@ == old(v)@.remove(i),
{
    let n = v.len();
    let mut i: usize = 0;
    while i < n
        invariant
            n == v@.len(),
            i <= n,
            v@ == old(v)@,
            forall|k: int| 0 <= k < i ==> v@[k] != x,
        decreases n - i,
    {
        if v[i] == x {
            v.remove(i);
            return ;
        }
        i += 1;
    }
}

/// Removes the first pair keyed `key`; without one nothing changes.
fn remove_keyed(v: &mut Vec<(u64, usize)>, key: u64)
    ensures
        (forall|k: int| 0 <= k < old(v)@.len() ==> (#[trigger] old(v)@[k]).0 != key) ==> final(v)@
            == old(v)@,
        (exists|k: int| 0 <= k < old(v)@.len() && (#[trigger] old(v)@[k]).0 == key) ==> exists|
        i: int|
            0 <= i < old(v)@.len() && old(v)@[i].0 == key && (forall|k: int|
                0 <= k < i ==> old(v)@[k].0 != key) && final(v)@ == old(v)@.remove(i),
{
    let n = v.len();
    let mut i: usize = 0;
    while i < n
        invariant
            n == v@.len(),
            i <= n,
            v@ == old(v)@,
            forall|k: int| 0 <= k < i ==> v@[k].0 != key,
        decreases n - i,
    {
        if v[i].0 == key {
            v.remove(i);
            return ;
        }
        i += 1;
    }
}

/// Handles one disconnection: despawns the user's avatar from the room
/// and the handle table and removes the session from both registries,
/// all before the next tick; the avatar entity despawned, if any, is
/// returned. A user with no registered name is a benign miss.
pub fn disconnect_events(
    user: u64,
    users_names: &mut UserNameMapping,
    users_avatars: &mut UserAvatarMapping,
    avatar_handles: &mut Vec<(u64, usize)>,
    room_entities: &mut Vec<u64>,
) -> (despawned: Option<u64>)
    requires
        old(users_names).wf(),
        old(users_avatars).wf(),
    ensures
        final(users_names).wf(),
        final(users_avatars).wf(),
        !old(users_names).has_user(user) ==> {
            &&& despawned is None
            &&& final(users_names)@ == old(users_names)@
            &&& final(users_avatars)@ == old(users_avatars)@
            &&& final(avatar_handles)@ == old(avatar_handles)@
            &&& final(room_entities)@ == old(room_entities)@
        },
        old(users_names).has_user(user) ==> {
            &&& (despawned is Some ==> old(users_avatars).maps(user, despawned->Some_0))
            &&& (despawned is None ==> !old(users_avatars).has_user(user))
            &&& !final(users_avatars).has_user(user)
            &&& !final(users_names).has_user(user)
            &&& forall|u: u64, a: u64|
                #[trigger] crate::registry::pairs_map(final(users_avatars)@, u, a) <==> (
                crate::registry::pairs_map(old(users_avatars)@, u, a) && u != user)
            &&& forall|u: u64, n: Seq<char>|
                #[trigger] crate::registry::name_pairs_map(final(users_names)@, u, n) <==> (
                crate::registry::name_pairs_map(old(users_names)@, u, n) && u != user)
        },
{
    if users_names.get_by_user(&user).is_none() {
        return None;
    }
    let despawned = users_avatars.get_by_user(&user);
    if let Some(entity) = despawned {
        remove_value(room_entities, entity);
        remove_keyed(avatar_handles, entity);
    }
    users_avatars.remove_by_user(&user);
    users_names.remove_by_user(&user);
    despawned
}

/// The bodies after this tick's drained inputs have landed, in arrival
/// order: each input aims at the avatar entity it names, resolves to the
/// body handle, and applies under the validation rule; later inputs to
/// the same body overwrite earlier ones.
pub open spec fn applied_inputs(
    bodies: Seq<BodyState>,
    ins: Seq<PlayerInput>,
    handles: Seq<(u64, usize)>,
) -> Seq<BodyState>
    decreases ins.len(),
{
    if ins.len() == 0 {
        bodies
    } else {
        let prev = applied_inputs(bodies, ins.drop_last(), handles);
        let inp = ins.last();
        let target = if inp.entity is Some {
            assoc(handles, inp.entity->Some_0)
        } else {
            None
        };
        if target is Some && target->Some_0 < prev.len() {
            prev.update(target->Some_0 as int, apply_input(prev[target->Some_0 as int], inp))
        } else {
            prev
        }
    }
}

/// Every body advanced by one step.
pub open spec fn stepped_bodies(bodies: Seq<BodyState>, dt: int) -> Seq<BodyState> {
    Seq::new(bodies.len(), |i: int| crate::physics::step_body(bodies[i], dt))
}

/// Runs one authoritative tick: drains this tick's buffered inputs in
/// arrival order (last write wins), validates each and applies the valid
/// ones as their avatars' linear velocity, then advances the world by one
/// fixed step. Inputs naming no entity, an unknown entity or a stale
/// handle, and invalid inputs, have zero effect; a tick with no input for
/// an avatar leaves it under its existing velocity.
pub fn tick_events(
    inputs: &Vec<PlayerInput>,
    avatar_handles: &Vec<(u64, usize)>,
    physics: &mut PhysicsWorld,
)
    requires
        old(physics).wf(),
    ensures
        final(physics).wf(),
        final(physics).dt() == old(physics).dt(),
        final(physics)@ == stepped_bodies(
            applied_inputs(old(physics)@, inputs@, avatar_handles@),
            old(physics).dt(),
        ),
{
    let ghost base = old(physics)@;
    let ghost dt = physics.dt();
    let n = inputs.len();
    let mut i: usize = 0;
    proof {
        assert(inputs@.subrange(0, 0) =~= Seq::<PlayerInput>::empty());
    }
    while i < n
        invariant
            physics.wf(),
            physics.dt() == dt,
            n == inputs@.len(),
            i <= n,
            physics@ == applied_inputs(base, inputs@.subrange(0, i as int), avatar_handles@),
            physics@.len() == base.len(),
        decreases n - i,
    {
        let inp = inputs[i];
        proof {
            assert(inputs@.subrange(0, i + 1).drop_last() =~= inputs@.subrange(0, i as int));
            assert(inputs@.subrange(0, i + 1).last() == inputs@[i as int]);
        }
        if let Some(entity) = inp.entity {
            if let Some(h) = crate::client::assoc_find(avatar_handles, entity) {
                crate::replay::apply_player_input(physics, h, &inp);
            }
        }
        i += 1;
    }
    proof {
        assert(inputs@.subrange(0, n as int) =~= inputs@);
    }
    physics.step();
    proof {
        assert(physics@ =~= stepped_bodies(applied_inputs(base, inputs@, avatar_handles@), dt));
    }
}

/// The replication snapshots of all avatars whose handle still resolves,
/// in handle-table order.
pub open spec fn snapshots_of(
    handles: Seq<(u64, usize)>,
    bodies: Seq<BodyState>,
) -> Seq<(u64, PhysicsStateSync)>
    decreases handles.len(),
{
    if handles.len() == 0 {
        Seq::empty()
    } else {
        let rest = snapshots_of(handles.drop_last(), bodies);
        let h = handles.last();
        if h.1 < bodies.len() {
            rest.push((h.0, bodies[h.1 as int].snapshot()))
        } else {
            rest
        }
    }
}

/// Recomputes every avatar's replicated snapshot from the physics
/// world's resulting position and velocity; stale handles are skipped.
pub fn sync_physics(avatar_handles: &Vec<(u64, usize)>, physics: &PhysicsWorld) -> (snaps: Vec<
    (u64, PhysicsStateSync),
>)
    ensures
        snaps@ == snapshots_of(avatar_handles@, physics@),
{
    let n = avatar_handles.len();
    let mut snaps: Vec<(u64, PhysicsStateSync)> = Vec::new();
    let mut i: usize = 0;
    proof {
        assert(avatar_handles@.subrange(0, 0) =~= Seq::<(u64, usize)>::empty());
    }
    while i < n
        invariant
            n == avatar_handles@.len(),
            i <= n,
            snaps@ == snapshots_of(avatar_handles@.subrange(0, i as int), physics@),
        decreases n - i,
    {
        proof {
            assert(avatar_handles@.subrange(0, i + 1).drop_last() =~= avatar_handles@.subrange(
                0,
                i as int,
            ));
            assert(avatar_handles@.subrange(0, i + 1).last() == avatar_handles@[i as int]);
        }
        let (entity, h) = avatar_handles[i];
        match physics.get_rigid_body(h) {
            Some(body) => {
                snaps.push((entity, body.to_snapshot()));
            },
            None => {},
        }
        i += 1;
    }
    proof {
        assert(avatar_handles@.subrange(0, n as int) =~= avatar_handles@);
    }
    snaps
}

/// Some pair of the scope is exactly `(u, e)`.
pub open spec fn scope_has(s: Seq<(u64, u64)>, u: u64, e: u64) -> bool {
    exists|k: int| 0 <= k < s.len() && s[k] == (u, e)
}

/// Recomputes the interest scope for a tick that advanced: under the
/// shared-room placeholder policy, exactly every (user, entity) pair of
/// the connected users and the room's entities is in scope.
pub fn recompute_scope(users: &Vec<u64>, room_entities: &Vec<u64>) -> (scope: Vec<(u64, u64)>)
    ensures
        forall|u: u64, e: u64|
            #[trigger] scope_has(scope@, u, e) <==> (users@.contains(u) && room_entities@.contains(
                e,
            )),
{
    let nu = users.len();
    let ne = room_entities.len();
    let mut scope: Vec<(u64, u64)> = Vec::new();
    let mut i: usize = 0;
    while i < nu
        invariant
            nu == users@.len(),
            ne == room_entities@.len(),
            i <= nu,
            forall|u: u64, e: u64|
                #[trigger] scope_has(scope@, u, e) <==> (exists|a: int|
                    0 <= a < i && users@[a] == u && room_entities@.contains(e)),
        decreases nu - i,
    {
        let user = users[i];
        let mut j: usize = 0;
        while j < ne
            invariant
                nu == users@.len(),
                ne == room_entities@.len(),
                i < nu,
                j <= ne,
                user == users@[i as int],
                forall|u: u64, e: u64|
                    #[trigger] scope_has(scope@, u, e) <==> ((exists|a: int|
                        0 <= a < i && users@[a] == u && room_entities@.contains(e)) || (u == user
                        && exists|b: int| 0 <= b < j && room_entities@[b] == e)),
            decreases ne - j,
        {
            let ghost before = scope@;
            scope.push((user, room_entities[j]));
            proof {
                assert(scope@[scope@.len() - 1] == (user, room_entities@[j as int]));
                assert forall|u: u64, e: u64| #[trigger] scope_has(scope@, u, e) implies ((exists|
                a: int|
                    0 <= a < i && users@[a] == u && room_entities@.contains(e)) || (u == user
                    && exists|b: int| 0 <= b < j + 1 && room_entities@[b] == e)) by {
                    let k = choose|k: int| 0 <= k < scope@.len() && scope@[k] == (u, e);
                    if k < scope@.len() - 1 {
                        assert(before[k] == (u, e));
                        assert(scope_has(before, u, e));
                    }
                }
                assert forall|u: u64, e: u64|
                    ((exists|a: int| 0 <= a < i && users@[a] == u && room_entities@.contains(e))
                        || (u == user && exists|b: int|
                        0 <= b < j + 1 && room_entities@[b] == e)) implies #[trigger] scope_has(
                    scope@,
                    u,
                    e,
                ) by {
                    if scope_has(before, u, e) {
                        let k = choose|k: int| 0 <= k < before.len() && before[k] == (u, e);
                        assert(scope@[k] == (u, e));
                    } else {
                        assert(u == user && e == room_entities@[j as int]);
                        assert(scope@[scope@.len() - 1] == (u, e));
                    }
                }
            }
            j += 1;
        }
        proof {
            assert forall|u: u64, e: u64| #[trigger] scope_has(scope@, u, e) implies (exists|
            a: int|
                0 <= a < i + 1 && users@[a] == u && room_entities@.contains(e)) by {
                if !(exists|a: int| 0 <= a < i && users@[a] == u && room_entities@.contains(e)) {
                    let b = choose|b: int| 0 <= b < ne && room_entities@[b] == e;
                    assert(room_entities@.contains(e));
                    assert(users@[i as int] == u);
                }
            }
            assert forall|u: u64, e: u64|
                (exists|a: int|
                    0 <= a < i + 1 && users@[a] == u && room_entities@.contains(
                        e,
                    )) implies #[trigger] scope_has(scope@, u, e) by {
                let a = choose|a: int|
                    0 <= a < i + 1 && users@[a] == u && room_entities@.contains(e);
                if a == i {
                    let b = choose|b: int|
                        0 <= b < room_entities@.len() && room_entities@[b] == e;
                    assert(0 <= b < ne && room_entities@[b] == e);
                }
            }
        }
        i += 1;
    }
    scope
}

} // verus!
