//! Client-side prediction state and the reconciliation engine.
//!
//! The client mirrors every replicated character as a pair of entities: a
//! confirmed one holding the last authoritative state and a predicted one
//! extrapolated from local input. At most one pair is the player's own
//! avatar, granted and revoked only by explicit assignment messages. When
//! corrections arrive, [`restep_physics`] rewinds the predicted world to
//! the correction tick, seats the authoritative state on the owned body,
//! and re-exerts the buffered inputs tick by tick up to the present.

use vstd::prelude::*;
use crate::components::PhysicsStateSync;
use crate::history::{
    contains_tick, lemma_ordered_pairwise, ordered_from, CommandHistory, CommandHistoryEntry,
};
use crate::messages::{EntityAssignment, PlayerInput, AXIS_ONE};
use crate::physics::{BodyState, Layer, PhysicsBodyHandle, PhysicsWorld};
use crate::replay::{
    apply_player_input, command_at, lemma_multi_unstep_keeps, multi_step, multi_unstep, run_ticks,
    tick_body,
};
use crate::tick::{
    lemma_dist_eq, lemma_tick_add_compose, lemma_tick_add_dist, seq_after, sequence_greater_than,
    tick_add, tick_distance, tick_distance_exec, tick_successor,
};

verus! {

/// A pair of entities which both stand for the same remote entity: the
/// confirmed one carries the last known authoritative state, the
/// predicted one the state extrapolated from player input.
#[derive(Clone, Copy, Debug, PartialEq, Eq, Structural)]
pub struct EntityProxy {
    pub confirmed: u64,
    pub predicted: u64,
}

/// The at-most-one proxy pair the player controls. Set and cleared only
/// by explicit assignment messages from the server, never inferred.
pub struct OwnedEntities {
    pub player_avatar: Option<EntityProxy>,
}

/// The next command to be sent to the server, produced from key state.
pub struct QueuedCommand {
    pub command: Option<PlayerInput>,
}

/// The player's recent commands, kept to replay them when a correction
/// arrives.
pub struct InputHistory {
    pub history: CommandHistory,
}

/// Marker linking a confirmed entity to its predicted counterpart.
pub struct Confirmed(pub u64);

/// Marker for predicted entities.
pub struct Predicted;

/// The value at `key` in an association list, first match wins.
pub open spec fn assoc<V>(s: Seq<(u64, V)>, key: u64) -> Option<V>
    decreases s.len(),
{
    if s.len() == 0 {
        None
    } else if s[0].0 == key {
        Some(s[0].1)
    } else {
        assoc(s.drop_first(), key)
    }
}

/// Finds the first value at `key` in an association list.
pub fn assoc_find<V: Copy>(v: &Vec<(u64, V)>, key: u64) -> (r: Option<V>)
    ensures
        r == assoc(v@, key),
{
    let n = v.len();
    let mut i: usize = 0;
    proof {
        assert(v@.skip(0) =~= v@);
    }
    while i < n
        invariant
            i <= n,
            n == v@.len(),
            assoc(v@, key) == assoc(v@.skip(i as int), key),
        decreases n - i,
    {
        proof {
            assert(v@.skip(i as int)[0] == v@[i as int]);
            assert(v@.skip(i as int).drop_first() =~= v@.skip(i as int + 1));
        }
        let p = v[i];
        if p.0 == key {
            return Some(p.1);
        }
        i += 1;
    }
    proof {
        assert(v@.skip(n as int) =~= Seq::<(u64, V)>::empty());
    }
    None
}

/// Turns directional key state into the next queued command: with an
/// owned avatar and at least one key down, the command is the key state's
/// axis pair aimed at the owned confirmed entity; otherwise the queue is
/// left as it is.
pub fn key_input(
    w: bool,
    a: bool,
    s: bool,
    d: bool,
    owned: &OwnedEntities,
    queued: &mut QueuedCommand,
)
    ensures
        owned.player_avatar is Some && (w || a || s || d) ==> final(queued).command
            == Some(PlayerInput {
            entity: Some(owned.player_avatar->Some_0.confirmed),
            x_axis: (if d == a {
                0int
            } else if d {
                AXIS_ONE as int
            } else {
                -AXIS_ONE as int
            }) as i64,
            y_axis: (if w == s {
                0int
            } else if w {
                AXIS_ONE as int
            } else {
                -AXIS_ONE as int
            }) as i64,
        }),
        !(owned.player_avatar is Some && (w || a || s || d)) ==> final(queued).command == old(
            queued,
        ).command,
{
    if let Some(avatar) = &owned.player_avatar {
        if w || a || s || d {
            let mut command = PlayerInput::from_wasd(w, a, s, d);
            command.entity = Some(avatar.confirmed);
            queued.command = Some(command);
        }
    }
}

/// Runs the per-tick client duties: takes the queued command, records it
/// in the history if the tick admits it, and hands back the command to be
/// transmitted for that tick, or `None` when nothing is to be sent.
pub fn tick_events(
    tick: u16,
    owned: &OwnedEntities,
    queued: &mut QueuedCommand,
    history: &mut InputHistory,
) -> (send: Option<PlayerInput>)
    requires
        old(history).history.wf(),
    ensures
        final(history).history.wf(),
        final(history).history.capacity() == old(history).history.capacity(),
        final(queued).command is None,
        send is Some <==> (old(queued).command is Some && owned.player_avatar is Some && old(
            history,
        ).history.spec_can_insert(tick)),
        send is Some ==> send == old(queued).command && contains_tick(
            final(history).history@,
            tick,
        ) && final(history).history@.contains(
            (CommandHistoryEntry { tick, input: send->Some_0 }),
        ),
        send is None ==> final(history).history@ == old(history).history@,
{
    let command = match queued.command.take() {
        Some(c) => c,
        None => {
            return None;
        },
    };
    if owned.player_avatar.is_none() {
        return None;
    }
    if !history.history.can_insert(tick) {
        return None;
    }
    history.history.insert(tick, command);
    Some(command)
}

/// Applies one entity assignment message: a grant makes the named
/// confirmed entity's pair the owned avatar; a revocation clears the
/// owned avatar only when it names the currently owned confirmed entity.
/// A message with no entity attached, or naming an unknown entity, is a
/// benign miss.
pub fn handle_entity_assignment(
    msg: &EntityAssignment,
    confirmed_pairs: &Vec<(u64, u64)>,
    owned: &mut OwnedEntities,
)
    ensures
        ({
            let resolved = match msg.entity {
                Some(e) => assoc(confirmed_pairs@, e),
                None => None,
            };
            match resolved {
                None => final(owned).player_avatar == old(owned).player_avatar,
                Some(p) => {
                    let e = msg.entity->Some_0;
                    if msg.assign {
                        final(owned).player_avatar == Some(
                            EntityProxy { confirmed: e, predicted: p },
                        )
                    } else {
                        final(owned).player_avatar == (
                        if old(owned).player_avatar is Some && old(
                            owned,
                        ).player_avatar->Some_0.confirmed == e {
                            None::<EntityProxy>
                        } else {
                            old(owned).player_avatar
                        })
                    }
                },
            }
        }),
{
    let confirmed = match msg.entity {
        Some(e) => e,
        None => {
            return ;
        },
    };
    let predicted = match assoc_find(confirmed_pairs, confirmed) {
        Some(p) => p,
        None => {
            return ;
        },
    };
    if msg.assign {
        owned.player_avatar = Some(EntityProxy { confirmed, predicted });
    } else {
        let mut disowned = false;
        if let Some(current) = &owned.player_avatar {
            if current.confirmed == confirmed {
                disowned = true;
            }
        }
        if disowned {
            owned.player_avatar = None;
        }
    }
}

/// Inserts a character body into the physics world on the given collision
/// layer, at rest at the origin, and hands back its handles.
pub fn insert_character_to_world(physics: &mut PhysicsWorld, layer: Layer) -> (h: PhysicsBodyHandle)
    requires
        old(physics).wf(),
    ensures
        final(physics).wf(),
        final(physics).dt() == old(physics).dt(),
        final(physics)@ == old(physics)@.push(
            (BodyState {
                linvel_x: 0,
                linvel_y: 0,
                angvel: 0,
                pos_x: 0,
                pos_y: 0,
                ang: 0,
                layer,
            }),
        ),
        h.rigid_body == old(physics)@.len(),
        h.collider == h.rigid_body,
{
    let body = BodyState::at_rest(layer, 0, 0);
    physics.insert(body)
}

/// Registers a newly announced character: creates its predicted body in
/// the predicted collision layer, pairs the fresh predicted entity with
/// the replicated confirmed one, and records the body handle.
pub fn listen_character_creation(
    confirmed_entity: u64,
    predicted_entity: u64,
    physics: &mut PhysicsWorld,
    proxies: &mut Vec<(u64, u64)>,
    handles: &mut Vec<(u64, usize)>,
) -> (h: PhysicsBodyHandle)
    requires
        old(physics).wf(),
    ensures
        final(physics).wf(),
        final(physics).dt() == old(physics).dt(),
        final(physics)@ == old(physics)@.push(
            (BodyState {
                linvel_x: 0,
                linvel_y: 0,
                angvel: 0,
                pos_x: 0,
                pos_y: 0,
                ang: 0,
                layer: Layer::Predicted,
            }),
        ),
        h.rigid_body == old(physics)@.len(),
        h.collider == h.rigid_body,
        final(proxies)@ == old(proxies)@.push((confirmed_entity, predicted_entity)),
        final(handles)@ == old(handles)@.push((predicted_entity, h.rigid_body)),
{
    let h = insert_character_to_world(physics, Layer::Predicted);
    proxies.push((confirmed_entity, predicted_entity));
    handles.push((predicted_entity, h.rigid_body));
    h
}

/// Reconciles the owned predicted body against one authoritative
/// correction tagged `correction_tick`: rewinds the predicted world back
/// to the correction tick one backward step per tick of difference, seats
/// the corrected state on the owned body, then re-exerts every buffered
/// input at the tick it originally occurred and steps forward until the
/// present tick is reached again. The owned body lands exactly on the
/// deterministic replay of the correction through the recorded commands;
/// every other body is integrated back and forward by the same number of
/// steps.
pub fn reconcile_owned(
    physics: &mut PhysicsWorld,
    handle: usize,
    history: &CommandHistory,
    correction_tick: u16,
    correction: &PhysicsStateSync,
    client_tick: u16,
)
    requires
        old(physics).wf(),
        history.wf(),
        correction.valid(),
        handle < old(physics)@.len(),
        tick_distance(correction_tick, client_tick) <= 0x7fff,
    ensures
        final(physics).wf(),
        final(physics).dt() == old(physics).dt(),
        final(physics)@.len() == old(physics)@.len(),
        ({
            let n = tick_distance(correction_tick, client_tick) as nat;
            let dt = old(physics).dt();
            &&& final(physics)@[handle as int] == run_ticks(
                old(physics)@[handle as int].corrected(*correction),
                history@,
                correction_tick,
                n,
                dt,
            )
            &&& forall|j: int|
                0 <= j < old(physics)@.len() && j != handle ==> final(physics)@[j] == multi_step(
                    multi_unstep(old(physics)@[j], n, dt),
                    n,
                    dt,
                )
        }),
{
    let n_u16 = tick_distance_exec(correction_tick, client_tick);
    let n = n_u16 as usize;
    let ghost base = old(physics)@;
    let ghost dt = physics.dt();
    let ghost hist = history@;
    // rewind the whole predicted world to the correction tick
    let mut i: usize = 0;
    while i < n
        invariant
            physics.wf(),
            physics.dt() == dt,
            physics@.len() == base.len(),
            i <= n,
            forall|j: int|
                0 <= j < base.len() ==> physics@[j] == multi_unstep(base[j], i as nat, dt),
        decreases n - i,
    {
        physics.step_back();
        i += 1;
    }
    // seat the authoritative state on the owned body
    physics.apply_snapshot(handle, correction);
    proof {
        lemma_multi_unstep_keeps(base[handle as int], n as nat, dt);
        assert(physics@[handle as int] == base[handle as int].corrected(*correction));
        lemma_ordered_pairwise(hist);
        assert forall|p: int, q: int| 0 <= p < q < hist.len() implies hist[p].tick
            != hist[q].tick by {
            assert(seq_after(hist[q].tick, hist[p].tick));
            if hist[p].tick == hist[q].tick {
                assert(tick_distance(hist[p].tick, hist[q].tick) == 0);
            }
        }
    }
    let ghost seated = physics@[handle as int];
    // replay the buffered inputs and catch up to the present
    let cmds = history.replay(correction_tick);
    let mut t_cur: u16 = correction_tick;
    let mut j: usize = 0;
    let mut k: usize = 0;
    while k < n
        invariant
            physics.wf(),
            physics.dt() == dt,
            physics@.len() == base.len(),
            handle < base.len(),
            k <= n,
            n <= 0x7fff,
            j <= cmds@.len(),
            t_cur == tick_add(correction_tick, k as int),
            run_ticks(seated, hist, correction_tick, n as nat, dt) == run_ticks(
                physics@[handle as int],
                hist,
                t_cur,
                (n - k) as nat,
                dt,
            ),
            forall|j2: int|
                0 <= j2 < base.len() && j2 != handle ==> physics@[j2] == multi_step(
                    multi_unstep(base[j2], n as nat, dt),
                    k as nat,
                    dt,
                ),
            forall|a: int|
                0 <= a < cmds@.len() ==> ((a < j) <==> tick_distance(
                    correction_tick,
                    #[trigger] cmds@[a].tick,
                ) <= k),
            forall|a: int|
                0 <= a < cmds@.len() ==> hist.contains(#[trigger] cmds@[a]) && seq_after(
                    cmds@[a].tick,
                    correction_tick,
                ),
            forall|kk: int|
                0 <= kk < hist.len() && seq_after(#[trigger] hist[kk].tick, correction_tick)
                    ==> cmds@.contains(hist[kk]),
            ordered_from(cmds@, correction_tick),
            forall|p: int, q: int| 0 <= p < q < hist.len() ==> hist[p].tick != hist[q].tick,
        decreases n - k,
    {
        let t_next = tick_successor(t_cur);
        proof {
            lemma_tick_add_compose(correction_tick, k as int, 1);
            assert(t_next == tick_add(correction_tick, k + 1));
            lemma_tick_add_dist(correction_tick, k + 1);
            assert(tick_distance(correction_tick, t_next) == k + 1);
        }
        let mut matched = false;
        if j < cmds.len() {
            let e = cmds[j];
            if e.tick == t_next {
                matched = true;
            }
        }
        proof {
            if matched {
                // the entry at the cursor is the history's command for this tick
                let kk = choose|kk: int| 0 <= kk < hist.len() && hist[kk] == cmds@[j as int];
                assert(hist[kk].tick == t_next);
                let c = choose|c: int| 0 <= c < hist.len() && hist[c].tick == t_next;
                assert(hist[c].tick == t_next);
                if c != kk {
                    if c < kk {
                        assert(hist[c].tick != hist[kk].tick);
                    } else {
                        assert(hist[kk].tick != hist[c].tick);
                    }
                }
                assert(command_at(hist, t_next) == Some(cmds@[j as int].input));
            } else {
                // no history entry carries this tick
                if exists|c: int| 0 <= c < hist.len() && hist[c].tick == t_next {
                    let c = choose|c: int| 0 <= c < hist.len() && hist[c].tick == t_next;
                    assert(seq_after(hist[c].tick, correction_tick));
                    assert(cmds@.contains(hist[c]));
                    let a = choose|a: int| 0 <= a < cmds@.len() && cmds@[a] == hist[c];
                    assert(tick_distance(correction_tick, cmds@[a].tick) == k + 1);
                    assert(a >= j);
                    if a == j {
                        assert(cmds@[j as int].tick == t_next);
                    } else {
                        assert(tick_distance(correction_tick, cmds@[j as int].tick)
                            < tick_distance(correction_tick, cmds@[a].tick));
                    }
                    assert(false);
                }
                assert(command_at(hist, t_next) is None);
            }
        }
        let ghost owned_before = physics@[handle as int];
        if matched {
            let e = cmds[j];
            apply_player_input(physics, handle, &e.input);
            j += 1;
        }
        physics.step();
        k += 1;
        t_cur = t_next;
        proof {
            assert(physics@[handle as int] == tick_body(
                owned_before,
                command_at(hist, t_next),
                dt,
            ));
            assert forall|a: int| 0 <= a < cmds@.len() implies ((a < j) <==> tick_distance(
                correction_tick,
                #[trigger] cmds@[a].tick,
            ) <= k) by {
                if matched {
                    if a > j - 1 {
                        assert(tick_distance(correction_tick, cmds@[(j - 1) as int].tick)
                            < tick_distance(correction_tick, cmds@[a].tick));
                    }
                } else {
                    if a >= j {
                        if tick_distance(correction_tick, cmds@[a].tick) == k {
                            lemma_dist_eq(correction_tick, cmds@[a].tick, t_cur);
                        }
                        if a > j && j < cmds@.len() {
                            assert(tick_distance(correction_tick, cmds@[j as int].tick)
                                < tick_distance(correction_tick, cmds@[a].tick));
                        }
                    }
                }
            }
        }
    }
    proof {
        assert(run_ticks(seated, hist, correction_tick, n as nat, dt) == physics@[handle as int]);
    }
}

/// The bodies after a batch of authoritative updates has been written
/// into the predicted world: each update resolves its confirmed entity to
/// the paired predicted entity and on to its body handle, and a valid
/// snapshot overwrites that body's kinematic state; unresolved or invalid
/// updates are benign misses. Later updates win over earlier ones.
pub open spec fn updated_bodies(
    bodies: Seq<BodyState>,
    ups: Seq<(u16, u64, PhysicsStateSync)>,
    pairs: Seq<(u64, u64)>,
    handles: Seq<(u64, usize)>,
) -> Seq<BodyState>
    decreases ups.len(),
{
    if ups.len() == 0 {
        bodies
    } else {
        let prev = updated_bodies(bodies, ups.drop_last(), pairs, handles);
        let u = ups.last();
        let target = if assoc(pairs, u.1) is Some {
            assoc(handles, assoc(pairs, u.1)->Some_0)
        } else {
            None
        };
        if target is Some && target->Some_0 < prev.len() && u.2.valid() {
            prev.update(target->Some_0 as int, prev[target->Some_0 as int].corrected(u.2))
        } else {
            prev
        }
    }
}

/// The latest valid update of the batch that addresses the owned
/// confirmed entity, under wrap-aware tick ordering; of two updates for
/// the same tick the earlier one in the batch is kept.
pub open spec fn owned_latest(
    ups: Seq<(u16, u64, PhysicsStateSync)>,
    owned_confirmed: u64,
) -> Option<(u16, PhysicsStateSync)>
    decreases ups.len(),
{
    if ups.len() == 0 {
        None
    } else {
        let prev = owned_latest(ups.drop_last(), owned_confirmed);
        let u = ups.last();
        if u.1 == owned_confirmed && u.2.valid() {
            match prev {
                None => Some((u.0, u.2)),
                Some(p) => if seq_after(u.0, p.0) {
                    Some((u.0, u.2))
                } else {
                    Some(p)
                },
            }
        } else {
            prev
        }
    }
}

/// The predicted world after one full reconciliation pass: the update
/// batch is written in, and if the owned avatar received an update within
/// the ordering window, the world is rewound to its latest correction
/// tick, the owned body reseated on the correction and replayed through
/// the command history up to the present.
pub open spec fn restepped(
    bodies: Seq<BodyState>,
    ups: Seq<(u16, u64, PhysicsStateSync)>,
    pairs: Seq<(u64, u64)>,
    handles: Seq<(u64, usize)>,
    owned: Option<EntityProxy>,
    hist: Seq<CommandHistoryEntry>,
    client_tick: u16,
    dt: int,
) -> Seq<BodyState> {
    let mid = updated_bodies(bodies, ups, pairs, handles);
    if owned is Some && owned_latest(ups, owned->Some_0.confirmed) is Some && assoc(
        handles,
        owned->Some_0.predicted,
    ) is Some {
        let lt = owned_latest(ups, owned->Some_0.confirmed)->Some_0;
        let h = assoc(handles, owned->Some_0.predicted)->Some_0;
        if h < mid.len() && tick_distance(lt.0, client_tick) <= 0x7fff {
            let n = tick_distance(lt.0, client_tick) as nat;
            Seq::new(
                mid.len(),
                |j: int|
                    if j == h {
                        run_ticks(mid[h as int].corrected(lt.1), hist, lt.0, n, dt)
                    } else {
                        multi_step(multi_unstep(mid[j], n, dt), n, dt)
                    },
            )
        } else {
            mid
        }
    } else {
        mid
    }
}

/// Consumes one batch of authoritative state updates: writes every
/// resolvable update into its predicted body, and when the owned avatar
/// was among them, rewinds and replays the predicted world so the owned
/// body matches the deterministic replay of the latest correction through
/// the buffered inputs.
pub fn restep_physics(
    updates: &Vec<(u16, u64, PhysicsStateSync)>,
    confirmed_pairs: &Vec<(u64, u64)>,
    handles: &Vec<(u64, usize)>,
    owned: &OwnedEntities,
    history: &InputHistory,
    client_tick: u16,
    physics: &mut PhysicsWorld,
)
    requires
        old(physics).wf(),
        history.history.wf(),
    ensures
        final(physics).wf(),
        final(physics).dt() == old(physics).dt(),
        final(physics)@ == restepped(
            old(physics)@,
            updates@,
            confirmed_pairs@,
            handles@,
            owned.player_avatar,
            history.history@,
            client_tick,
            old(physics).dt(),
        ),
{
    let ghost base = old(physics)@;
    let ghost dt = physics.dt();
    let n_up = updates.len();
    let mut i: usize = 0;
    proof {
        assert(updates@.subrange(0, 0) =~= Seq::<(u16, u64, PhysicsStateSync)>::empty());
    }
    while i < n_up
        invariant
            physics.wf(),
            physics.dt() == dt,
            n_up == updates@.len(),
            i <= n_up,
            physics@ == updated_bodies(
                base,
                updates@.subrange(0, i as int),
                confirmed_pairs@,
                handles@,
            ),
            physics@.len() == base.len(),
        decreases n_up - i,
    {
        let u = updates[i];
        proof {
            assert(updates@.subrange(0, i + 1).drop_last() =~= updates@.subrange(0, i as int));
            assert(updates@.subrange(0, i + 1).last() == updates@[i as int]);
        }
        if let Some(p) = assoc_find(confirmed_pairs, u.1) {
            if let Some(h) = assoc_find(handles, p) {
                if u.2.is_valid() {
                    physics.apply_snapshot(h, &u.2);
                }
            }
        }
        i += 1;
    }
    proof {
        assert(updates@.subrange(0, n_up as int) =~= updates@);
    }
    let ghost mid = physics@;
    let avatar = match owned.player_avatar {
        Some(av) => av,
        None => {
            return ;
        },
    };
    let mut latest: Option<(u16, PhysicsStateSync)> = None;
    let mut i: usize = 0;
    proof {
        assert(updates@.subrange(0, 0) =~= Seq::<(u16, u64, PhysicsStateSync)>::empty());
    }
    while i < n_up
        invariant
            n_up == updates@.len(),
            i <= n_up,
            latest == owned_latest(updates@.subrange(0, i as int), avatar.confirmed),
            latest is Some ==> latest->Some_0.1.valid(),
        decreases n_up - i,
    {
        let u = updates[i];
        proof {
            assert(updates@.subrange(0, i + 1).drop_last() =~= updates@.subrange(0, i as int));
            assert(updates@.subrange(0, i + 1).last() == updates@[i as int]);
        }
        if u.1 == avatar.confirmed && u.2.is_valid() {
            latest = match latest {
                None => Some((u.0, u.2)),
                Some(prev) => if sequence_greater_than(u.0, prev.0) {
                    Some((u.0, u.2))
                } else {
                    Some(prev)
                },
            };
        }
        i += 1;
    }
    proof {
        assert(updates@.subrange(0, n_up as int) =~= updates@);
    }
    let (lt_tick, lt_state) = match latest {
        Some(l) => l,
        None => {
            return ;
        },
    };
    let h = match assoc_find(handles, avatar.predicted) {
        Some(h) => h,
        None => {
            return ;
        },
    };
    if h >= physics.body_count() {
        return ;
    }
    let dist = tick_distance_exec(lt_tick, client_tick);
    if dist > 0x7fff {
        return ;
    }
    reconcile_owned(physics, h, &history.history, lt_tick, &lt_state, client_tick);
    proof {
        let expected = restepped(
            base,
            updates@,
            confirmed_pairs@,
            handles@,
            owned.player_avatar,
            history.history@,
            client_tick,
            dt,
        );
        assert(physics@ =~= expected);
    }
}

/// How far a predicted body may drift from its replicated state before
/// it is snapped back, in micrometers (half a meter).
pub const SNAP_THRESHOLD: i64 = 500_000;

/// The body lies more than [`SNAP_THRESHOLD`] away from the replicated
/// state (squared Euclidean distance in fixed-point units).
pub open spec fn drifted(b: BodyState, s: PhysicsStateSync) -> bool {
    (b.pos_x - s.pos_x) * (b.pos_x - s.pos_x) + (b.pos_y - s.pos_y) * (b.pos_y - s.pos_y)
        > SNAP_THRESHOLD * SNAP_THRESHOLD
}

/// Snaps one predicted body back onto its replicated state when it has
/// drifted beyond the threshold: position and linear velocity are
/// overwritten, anything closer is left to reconciliation. A stale
/// handle is a benign miss.
pub fn sync_physics_state(state: &PhysicsStateSync, handle: usize, physics: &mut PhysicsWorld)
    requires
        old(physics).wf(),
        state.valid(),
    ensures
        final(physics).wf(),
        final(physics).dt() == old(physics).dt(),
        handle < old(physics)@.len() ==> final(physics)@ == (if drifted(
            old(physics)@[handle as int],
            *state,
        ) {
            old(physics)@.update(
                handle as int,
                BodyState {
                    pos_x: state.pos_x,
                    pos_y: state.pos_y,
                    linvel_x: state.linvel_x,
                    linvel_y: state.linvel_y,
                    ..old(physics)@[handle as int]
                },
            )
        } else {
            old(physics)@
        }),
        handle >= old(physics)@.len() ==> final(physics)@ == old(physics)@,
{
    let body = match physics.get_rigid_body(handle) {
        Some(b) => b,
        None => {
            return ;
        },
    };
    let dx: i64 = body.pos_x - state.pos_x;
    let dy: i64 = body.pos_y - state.pos_y;
    proof {
        lemma_square_bounded(dx as int);
        lemma_square_bounded(dy as int);
    }
    let dx2: i128 = (dx as i128) * (dx as i128);
    let dy2: i128 = (dy as i128) * (dy as i128);
    proof {
        assert(0 <= (SNAP_THRESHOLD as int) * (SNAP_THRESHOLD as int)
            <= 0x8000_0000_0000_0000int) by (nonlinear_arith);
    }
    let t2: i128 = (SNAP_THRESHOLD as i128) * (SNAP_THRESHOLD as i128);
    if dx2 + dy2 > t2 {
        physics.set_translation(handle, state.pos_x, state.pos_y);
        physics.set_linvel(handle, state.linvel_x, state.linvel_y);
        proof {
            assert(physics@ =~= old(physics)@.update(
                handle as int,
                BodyState {
                    pos_x: state.pos_x,
                    pos_y: state.pos_y,
                    linvel_x: state.linvel_x,
                    linvel_y: state.linvel_y,
                    ..old(physics)@[handle as int]
                },
            ));
        }
    }
}

/// The square of a coordinate difference stays well inside the 128-bit
/// range.
proof fn lemma_square_bounded(d: int)
    requires
        -2 * crate::components::POS_LIMIT <= d <= 2 * crate::components::POS_LIMIT,
    ensures
        0 <= d * d <= 4 * (crate::components::POS_LIMIT as int) * (
        crate::components::POS_LIMIT as int),
{
    let p = crate::components::POS_LIMIT as int;
    assert(0 <= d * d <= 4 * p * p) by (nonlinear_arith)
        requires
            -2 * p <= d <= 2 * p,
    ;
}

/// Advances the predicted world by one fixed step.
pub fn step_physics(physics: &mut PhysicsWorld)
    requires
        old(physics).wf(),
    ensures
        final(physics).wf(),
        final(physics).dt() == old(physics).dt(),
        final(physics)@.len() == old(physics)@.len(),
        forall|i: int|
            0 <= i < final(physics)@.len() ==> final(physics)@[i] == crate::physics::step_body(
                old(physics)@[i],
                old(physics).dt(),
            ),
{
    physics.step();
}

} // verus!
