use rollback_netcode::client::{
    assoc_find, handle_entity_assignment, insert_character_to_world, key_input,
    listen_character_creation, reconcile_owned, restep_physics, step_physics, sync_physics_state,
    tick_events as client_tick_events, EntityProxy, InputHistory, OwnedEntities, QueuedCommand,
};
use rollback_netcode::components::PhysicsStateSync;
use rollback_netcode::history::CommandHistory;
use rollback_netcode::messages::{Auth, EntityAssignment, NewTarget, PlayerInput, AXIS_ONE};
use rollback_netcode::physics::{BodyState, Layer, PhysicsWorld};
use rollback_netcode::registry::{UserAvatarMapping, UserNameMapping};
use rollback_netcode::replay::apply_player_input;
use rollback_netcode::server::{
    auth_events, connect_events, disconnect_events, recompute_scope, sync_physics,
    tick_events as server_tick_events, Args, RejectReason,
};
use rollback_netcode::tick::{sequence_greater_than, tick_distance_exec, tick_successor};

fn input_for(entity: u64, x: i64, y: i64) -> PlayerInput {
    PlayerInput {
        entity: Some(entity),
        x_axis: x,
        y_axis: y,
    }
}

fn snapshot(vx: i64, vy: i64, px: i64, py: i64) -> PhysicsStateSync {
    PhysicsStateSync::new_complete(vx, vy, 0, px, py, 0)
}

fn body_of(world: &PhysicsWorld, handle: usize) -> BodyState {
    world.get_rigid_body(handle).expect("live handle")
}

// Wrap-aware ordering around the wraparound boundary.
#[test]
fn wrap_aware_ordering_near_boundary() {
    assert!(sequence_greater_than(1, 0xffff));
    assert!(!sequence_greater_than(0xffff, 1));
    assert!(sequence_greater_than(0, 0xffff));
    assert!(sequence_greater_than(2, 0xfffe));
    assert!(!sequence_greater_than(0xfffe, 2));
    assert!(!sequence_greater_than(5, 5));
    assert!(sequence_greater_than(100, 50));
    assert!(!sequence_greater_than(50, 100));
    // at exactly half the range the signed difference is negative
    assert!(!sequence_greater_than(0x8000, 0));
    assert!(!sequence_greater_than(0, 0x8000));
}

#[test]
fn tick_helpers_wrap() {
    assert_eq!(tick_successor(0xffff), 0);
    assert_eq!(tick_successor(7), 8);
    assert_eq!(tick_distance_exec(0xfffe, 2), 4);
    assert_eq!(tick_distance_exec(2, 2), 0);
}

// History: inserting a tick twice leaves the history unchanged after the
// first insert; replay(t) after inserting t+1..t+k returns exactly those
// k entries in ascending order.
#[test]
fn history_insert_replay_idempotence() {
    let mut h = CommandHistory::new(16);
    let t: u16 = 40;
    for i in 1..=5u16 {
        assert!(h.can_insert(t + i));
        h.insert(t + i, input_for(1, i as i64, 0));
    }
    assert_eq!(h.len(), 5);

    // duplicate insert is rejected and changes nothing
    assert!(!h.can_insert(t + 3));
    h.insert(t + 3, input_for(1, 999, 999));
    assert_eq!(h.len(), 5);

    let replayed = h.replay(t);
    assert_eq!(replayed.len(), 5);
    for (idx, entry) in replayed.iter().enumerate() {
        assert_eq!(entry.tick, t + 1 + idx as u16);
        assert_eq!(entry.input.x_axis, (idx as i64) + 1);
    }

    // replay does not mutate: a second replay gives the same answer
    let again = h.replay(t + 2);
    assert_eq!(again.len(), 3);
    assert_eq!(again[0].tick, t + 3);
    assert_eq!(again[2].tick, t + 5);
}

#[test]
fn history_evicts_oldest_and_rejects_stale() {
    let mut h = CommandHistory::new(2);
    h.insert(10, input_for(1, 1, 0));
    h.insert(11, input_for(1, 2, 0));
    h.insert(12, input_for(1, 3, 0));
    // capacity 2: tick 10 was evicted
    let replayed = h.replay(0);
    assert_eq!(replayed.len(), 2);
    assert_eq!(replayed[0].tick, 11);
    assert_eq!(replayed[1].tick, 12);
    // older than the oldest retained tick: rejected
    assert!(!h.can_insert(10));
    h.insert(10, input_for(1, 9, 9));
    assert_eq!(h.len(), 2);
    assert_eq!(h.replay(0)[0].tick, 11);
}

#[test]
fn history_wraps_across_tick_boundary() {
    let mut h = CommandHistory::new(8);
    h.insert(0xfffe, input_for(1, 1, 0));
    h.insert(0xffff, input_for(1, 2, 0));
    h.insert(0, input_for(1, 3, 0));
    h.insert(1, input_for(1, 4, 0));
    let replayed = h.replay(0xfffe);
    assert_eq!(replayed.len(), 3);
    assert_eq!(replayed[0].tick, 0xffff);
    assert_eq!(replayed[1].tick, 0);
    assert_eq!(replayed[2].tick, 1);
}

// Replay determinism: identical state and identical inputs give
// identical states on repeated runs.
#[test]
fn replay_determinism() {
    let mut run = || -> BodyState {
        let mut world = PhysicsWorld::default();
        let h = world.insert(BodyState::at_rest(Layer::Confirmed, 1000, -1000));
        let handles = vec![(7u64, h.rigid_body)];
        for i in 0..20i64 {
            let inputs = vec![input_for(7, (i % 3) * 500 - 500, 250)];
            server_tick_events(&inputs, &handles, &mut world);
        }
        body_of(&world, h.rigid_body)
    };
    let a = run();
    let b = run();
    assert_eq!(a.pos_x, b.pos_x);
    assert_eq!(a.pos_y, b.pos_y);
    assert_eq!(a.linvel_x, b.linvel_x);
    assert_eq!(a.linvel_y, b.linvel_y);
}

// Input validation: an axis outside [-1, 1] is applied with zero effect;
// a valid full deflection sets the velocity exactly.
#[test]
fn input_validation() {
    let mut world = PhysicsWorld::default();
    let h = world.insert(BodyState::at_rest(Layer::Confirmed, 0, 0));
    let handles = vec![(7u64, h.rigid_body)];

    // x_axis = 1.5 in fixed point: discarded, avatar keeps zero velocity
    let invalid = vec![input_for(7, 3 * AXIS_ONE / 2, 0)];
    server_tick_events(&invalid, &handles, &mut world);
    let b = body_of(&world, h.rigid_body);
    assert_eq!(b.linvel_x, 0);
    assert_eq!(b.linvel_y, 0);
    assert_eq!(b.pos_x, 0);

    // x_axis = 1.0, y_axis = 0.0: velocity becomes exactly (1.0, 0.0)
    let valid = vec![input_for(7, AXIS_ONE, 0)];
    server_tick_events(&valid, &handles, &mut world);
    let b = body_of(&world, h.rigid_body);
    assert_eq!(b.linvel_x, AXIS_ONE);
    assert_eq!(b.linvel_y, 0);
    // one 50 ms step at 1 m/s: 50_000 micrometers
    assert_eq!(b.pos_x, 50_000);
}

#[test]
fn last_write_wins_within_a_tick() {
    let mut world = PhysicsWorld::default();
    let h = world.insert(BodyState::at_rest(Layer::Confirmed, 0, 0));
    let handles = vec![(7u64, h.rigid_body)];
    let inputs = vec![input_for(7, -AXIS_ONE, 0), input_for(7, AXIS_ONE, AXIS_ONE)];
    server_tick_events(&inputs, &handles, &mut world);
    let b = body_of(&world, h.rigid_body);
    assert_eq!(b.linvel_x, AXIS_ONE);
    assert_eq!(b.linvel_y, AXIS_ONE);
}

// Registry consistency: reciprocal entries on both sides; removal leaves
// no trace on either side.
#[test]
fn registry_consistency() {
    let mut m = UserAvatarMapping::new();
    m.insert(1, 100);
    m.insert(2, 200);
    assert_eq!(m.get_by_user(&1), Some(100));
    assert_eq!(m.get_by_entity(&100), Some(1));
    assert_eq!(m.get_by_user(&2), Some(200));
    assert_eq!(m.get_by_entity(&200), Some(2));

    m.remove_by_user(&1);
    assert_eq!(m.get_by_user(&1), None);
    assert_eq!(m.get_by_entity(&100), None);
    assert_eq!(m.get_by_user(&2), Some(200));

    // re-inserting a user drops the stale reverse entry too
    m.insert(2, 300);
    assert_eq!(m.get_by_entity(&200), None);
    assert_eq!(m.get_by_entity(&300), Some(2));

    m.remove_by_entity(&300);
    assert_eq!(m.get_by_user(&2), None);
}

#[test]
fn name_registry_round_trip() {
    let mut m = UserNameMapping::new();
    m.insert(1, String::from("ada"));
    m.insert(2, String::from("grace"));
    assert_eq!(m.get_by_user(&1), Some(String::from("ada")));
    assert_eq!(m.get_by_name(&String::from("grace")), Some(2));
    m.remove_by_name(&String::from("ada"));
    assert_eq!(m.get_by_user(&1), None);
    assert_eq!(m.get_by_name(&String::from("ada")), None);
    m.remove_by_user(&2);
    assert_eq!(m.get_by_name(&String::from("grace")), None);
}

#[test]
fn auth_rejections_in_order() {
    let cfg = Args {
        max_players: 1,
        password: Some(String::from("sesame")),
    };
    let mut names = UserNameMapping::new();

    let good = Auth {
        name: String::from("ada"),
        channel_password: String::from("sesame"),
    };
    assert_eq!(auth_events(&cfg, 1, &good, &mut names), Ok(()));
    assert_eq!(names.get_by_name(&String::from("ada")), Some(1));

    // server full
    let second = Auth {
        name: String::from("grace"),
        channel_password: String::from("sesame"),
    };
    assert_eq!(
        auth_events(&cfg, 2, &second, &mut names),
        Err(RejectReason::ServerFull)
    );
    assert_eq!(names.get_by_name(&String::from("grace")), None);

    let roomy = Args {
        max_players: 8,
        password: Some(String::from("sesame")),
    };
    // wrong password
    let wrong = Auth {
        name: String::from("grace"),
        channel_password: String::from("guess"),
    };
    assert_eq!(
        auth_events(&roomy, 2, &wrong, &mut names),
        Err(RejectReason::WrongPassword)
    );
    // duplicate name
    let dup = Auth {
        name: String::from("ada"),
        channel_password: String::from("sesame"),
    };
    assert_eq!(
        auth_events(&roomy, 2, &dup, &mut names),
        Err(RejectReason::DuplicateName)
    );
    // no password configured accepts any offered password
    let open = Args {
        max_players: 8,
        password: None,
    };
    let anything = Auth {
        name: String::from("grace"),
        channel_password: String::from("whatever"),
    };
    assert_eq!(auth_events(&open, 2, &anything, &mut names), Ok(()));
}

#[test]
fn connect_then_disconnect_cleans_up() {
    let mut names = UserNameMapping::new();
    let mut avatars = UserAvatarMapping::new();
    let mut handles: Vec<(u64, usize)> = Vec::new();
    let mut room: Vec<u64> = Vec::new();
    let mut world = PhysicsWorld::default();

    names.insert(1, String::from("ada"));
    let msg = connect_events(
        1, 500, 1_000_000, -2_000_000, &names, &mut avatars, &mut handles, &mut room, &mut world,
    );
    assert_eq!(
        msg,
        Some(EntityAssignment {
            entity: Some(500),
            assign: true
        })
    );
    assert_eq!(avatars.get_by_user(&1), Some(500));
    assert_eq!(room, vec![500]);
    let b = body_of(&world, handles[0].1);
    assert_eq!(b.pos_x, 1_000_000);
    assert_eq!(b.pos_y, -2_000_000);
    assert_eq!(b.linvel_x, 0);

    // a user who never authenticated is a benign miss
    let none = connect_events(
        9, 501, 0, 0, &names, &mut avatars, &mut handles, &mut room, &mut world,
    );
    assert_eq!(none, None);
    assert_eq!(room.len(), 1);

    let despawned = disconnect_events(1, &mut names, &mut avatars, &mut handles, &mut room);
    assert_eq!(despawned, Some(500));
    assert_eq!(avatars.get_by_user(&1), None);
    assert_eq!(avatars.get_by_entity(&500), None);
    assert_eq!(names.get_by_user(&1), None);
    assert!(room.is_empty());
    assert!(handles.is_empty());
}

#[test]
fn scope_recomputed_for_all_pairs() {
    let users = vec![1u64, 2];
    let entities = vec![100u64, 200];
    let scope = recompute_scope(&users, &entities);
    assert_eq!(scope.len(), 4);
    for u in &users {
        for e in &entities {
            assert!(scope.iter().any(|p| p == &(*u, *e)));
        }
    }
}

#[test]
fn server_snapshots_follow_world() {
    let mut world = PhysicsWorld::default();
    let h = world.insert(BodyState::at_rest(Layer::Confirmed, 0, 0));
    let handles = vec![(7u64, h.rigid_body)];
    server_tick_events(&vec![input_for(7, AXIS_ONE, 0)], &handles, &mut world);
    let snaps = sync_physics(&handles, &world);
    assert_eq!(snaps.len(), 1);
    assert_eq!(snaps[0].0, 7);
    assert_eq!(snaps[0].1.pos_x, 50_000);
    assert_eq!(snaps[0].1.linvel_x, AXIS_ONE);
    // a stale handle is skipped
    let stale = vec![(9u64, 42usize)];
    assert!(sync_physics(&stale, &world).is_empty());
}

#[test]
fn from_wasd_axis_pairs() {
    let i = PlayerInput::from_wasd(true, false, false, false);
    assert_eq!((i.x_axis, i.y_axis), (0, AXIS_ONE));
    let i = PlayerInput::from_wasd(false, false, true, false);
    assert_eq!((i.x_axis, i.y_axis), (0, -AXIS_ONE));
    let i = PlayerInput::from_wasd(false, true, false, false);
    assert_eq!((i.x_axis, i.y_axis), (-AXIS_ONE, 0));
    let i = PlayerInput::from_wasd(false, false, false, true);
    assert_eq!((i.x_axis, i.y_axis), (AXIS_ONE, 0));
    let i = PlayerInput::from_wasd(true, false, true, false);
    assert_eq!((i.x_axis, i.y_axis), (0, 0));
    let i = PlayerInput::from_wasd(true, true, false, false);
    assert_eq!((i.x_axis, i.y_axis), (-AXIS_ONE, AXIS_ONE));
    assert!(i.entity.is_none());
    let m = NewTarget::new();
    assert!(m.entity.is_none());
    let g = EntityAssignment::new(true);
    assert!(g.assign && g.entity.is_none());
}

#[test]
fn key_input_queues_for_owned_avatar() {
    let owned = OwnedEntities {
        player_avatar: Some(EntityProxy {
            confirmed: 7,
            predicted: 8,
        }),
    };
    let mut queued = QueuedCommand { command: None };
    key_input(false, false, false, true, &owned, &mut queued);
    let cmd = queued.command.expect("queued");
    assert_eq!(cmd.entity, Some(7));
    assert_eq!((cmd.x_axis, cmd.y_axis), (AXIS_ONE, 0));

    // no keys: queue untouched
    let mut queued = QueuedCommand { command: None };
    key_input(false, false, false, false, &owned, &mut queued);
    assert!(queued.command.is_none());

    // no owned avatar: queue untouched
    let unowned = OwnedEntities {
        player_avatar: None,
    };
    let mut queued = QueuedCommand { command: None };
    key_input(true, false, false, false, &unowned, &mut queued);
    assert!(queued.command.is_none());
}

#[test]
fn client_tick_records_and_sends() {
    let owned = OwnedEntities {
        player_avatar: Some(EntityProxy {
            confirmed: 7,
            predicted: 8,
        }),
    };
    let mut queued = QueuedCommand {
        command: Some(input_for(7, AXIS_ONE, 0)),
    };
    let mut history = InputHistory {
        history: CommandHistory::default(),
    };
    let sent = client_tick_events(3, &owned, &mut queued, &mut history);
    assert!(sent.is_some());
    assert!(queued.command.is_none());
    assert_eq!(history.history.len(), 1);

    // duplicate tick: recorded nothing, sent nothing
    let mut queued = QueuedCommand {
        command: Some(input_for(7, 0, AXIS_ONE)),
    };
    let sent = client_tick_events(3, &owned, &mut queued, &mut history);
    assert!(sent.is_none());
    assert_eq!(history.history.len(), 1);
}

#[test]
fn entity_assignment_grants_and_revokes() {
    let pairs = vec![(7u64, 8u64)];
    let mut owned = OwnedEntities {
        player_avatar: None,
    };
    let mut grant = EntityAssignment::new(true);
    grant.entity = Some(7);
    handle_entity_assignment(&grant, &pairs, &mut owned);
    assert_eq!(
        owned.player_avatar,
        Some(EntityProxy {
            confirmed: 7,
            predicted: 8
        })
    );

    // a revocation for another entity leaves ownership alone
    let mut other = EntityAssignment::new(false);
    other.entity = Some(9);
    handle_entity_assignment(&other, &pairs, &mut owned);
    assert!(owned.player_avatar.is_some());

    let mut revoke = EntityAssignment::new(false);
    revoke.entity = Some(7);
    handle_entity_assignment(&revoke, &pairs, &mut owned);
    assert!(owned.player_avatar.is_none());

    // unknown entity: benign miss
    let mut unknown = EntityAssignment::new(true);
    unknown.entity = Some(99);
    handle_entity_assignment(&unknown, &pairs, &mut owned);
    assert!(owned.player_avatar.is_none());
}

#[test]
fn character_creation_pairs_and_layers() {
    let mut world = PhysicsWorld::default();
    let mut proxies: Vec<(u64, u64)> = Vec::new();
    let mut handles: Vec<(u64, usize)> = Vec::new();
    let h = listen_character_creation(7, 8, &mut world, &mut proxies, &mut handles);
    assert_eq!(proxies, vec![(7, 8)]);
    assert_eq!(handles, vec![(8, h.rigid_body)]);
    let b = body_of(&world, h.rigid_body);
    assert_eq!(b.layer, Layer::Predicted);
    assert_eq!(Layer::Predicted.interaction_groups(), (2, 2));
    assert_eq!(Layer::Confirmed.interaction_groups(), (1, 1));
    assert_eq!(
        Layer::Static.interaction_groups(),
        (0xffff_ffff, 0xffff_ffff)
    );
    let other = insert_character_to_world(&mut world, Layer::Confirmed);
    assert_eq!(body_of(&world, other.rigid_body).layer, Layer::Confirmed);
    assert_eq!(assoc_find(&handles, 8), Some(h.rigid_body));
    assert_eq!(assoc_find(&handles, 9), None);
}

#[test]
fn snap_back_only_when_drifted() {
    let mut world = PhysicsWorld::default();
    let h = world.insert(BodyState::at_rest(Layer::Predicted, 0, 0));
    // drift below half a meter: left alone
    let near = snapshot(0, 0, 400_000, 0);
    sync_physics_state(&near, h.rigid_body, &mut world);
    assert_eq!(body_of(&world, h.rigid_body).pos_x, 0);
    // drift beyond half a meter: snapped
    let far = snapshot(AXIS_ONE, 0, 600_000, 0);
    sync_physics_state(&far, h.rigid_body, &mut world);
    let b = body_of(&world, h.rigid_body);
    assert_eq!(b.pos_x, 600_000);
    assert_eq!(b.linvel_x, AXIS_ONE);
}

// End-to-end: the client predicts ten ticks of rightward motion with a
// small initial error; a correction for tick 5 arrives showing 0.25 m
// instead of the predicted 0.26 m; after rewind and replay the client's
// tick-10 position matches the server's authoritative one.
#[test]
fn end_to_end_reconciliation() {
    // server side: authoritative simulation of ticks 1..=10
    let mut server_world = PhysicsWorld::default();
    let sh = server_world.insert(BodyState::at_rest(Layer::Confirmed, 0, 0));
    let server_handles = vec![(7u64, sh.rigid_body)];
    let mut tick5 = None;
    for t in 1..=10u16 {
        server_tick_events(
            &vec![input_for(7, AXIS_ONE, 0)],
            &server_handles,
            &mut server_world,
        );
        if t == 5 {
            tick5 = Some(body_of(&server_world, sh.rigid_body));
        }
    }
    let authoritative5 = tick5.unwrap();
    // 5 ticks of 50 ms at 1 m/s: exactly 0.25 m
    assert_eq!(authoritative5.pos_x, 250_000);
    let authoritative10 = body_of(&server_world, sh.rigid_body);
    assert_eq!(authoritative10.pos_x, 500_000);

    // client side: predicted body starts 0.01 m off, so its local tick-5
    // prediction reads 0.26 m instead of 0.25 m
    let mut client_world = PhysicsWorld::default();
    let mut proxies: Vec<(u64, u64)> = Vec::new();
    let mut handles: Vec<(u64, usize)> = Vec::new();
    let ch = listen_character_creation(7, 8, &mut client_world, &mut proxies, &mut handles);
    client_world.set_translation(ch.rigid_body, 10_000, 0);
    let mut history = InputHistory {
        history: CommandHistory::default(),
    };
    for t in 1..=10u16 {
        let cmd = input_for(7, AXIS_ONE, 0);
        history.history.insert(t, cmd);
        apply_player_input(&mut client_world, ch.rigid_body, &cmd);
        step_physics(&mut client_world);
        if t == 5 {
            assert_eq!(body_of(&client_world, ch.rigid_body).pos_x, 260_000);
        }
    }
    assert_eq!(body_of(&client_world, ch.rigid_body).pos_x, 510_000);

    // a correction for tick 5 arrives; rewind and replay to tick 10
    let correction = snapshot(
        authoritative5.linvel_x,
        authoritative5.linvel_y,
        authoritative5.pos_x,
        authoritative5.pos_y,
    );
    let owned = OwnedEntities {
        player_avatar: Some(EntityProxy {
            confirmed: 7,
            predicted: 8,
        }),
    };
    let updates = vec![(5u16, 7u64, correction)];
    restep_physics(
        &updates,
        &proxies,
        &handles,
        &owned,
        &history,
        10,
        &mut client_world,
    );
    let predicted = body_of(&client_world, ch.rigid_body);
    // within 1e-3 m of the server's tick-10 state; here: exactly equal
    assert_eq!(predicted.pos_x, authoritative10.pos_x);
    assert_eq!(predicted.pos_y, authoritative10.pos_y);
    assert_eq!(predicted.linvel_x, authoritative10.linvel_x);
}

// Reconciliation convergence on the direct entry point: client and
// server apply the same inputs from the same base state, and the
// reconciled body equals the authoritative result.
#[test]
fn reconcile_owned_matches_server() {
    let mut server_world = PhysicsWorld::default();
    let sh = server_world.insert(BodyState::at_rest(Layer::Confirmed, 0, 0));
    let server_handles = vec![(7u64, sh.rigid_body)];
    let base = body_of(&server_world, sh.rigid_body);
    let inputs: Vec<(u16, i64, i64)> = vec![
        (1, AXIS_ONE, 0),
        (2, AXIS_ONE, AXIS_ONE),
        (4, 0, -AXIS_ONE),
        (6, -AXIS_ONE, 0),
    ];
    let mut history = CommandHistory::new(32);
    for (t, x, y) in &inputs {
        history.insert(*t, input_for(7, *x, *y));
    }
    for t in 1..=8u16 {
        let buffered: Vec<PlayerInput> = inputs
            .iter()
            .filter(|(it, _, _)| *it == t)
            .map(|(_, x, y)| input_for(7, *x, *y))
            .collect();
        server_tick_events(&buffered, &server_handles, &mut server_world);
    }
    let authoritative = body_of(&server_world, sh.rigid_body);

    let mut client_world = PhysicsWorld::default();
    let chh = client_world.insert(BodyState::at_rest(Layer::Predicted, 123_456, -9_000));
    let correction = snapshot(base.linvel_x, base.linvel_y, base.pos_x, base.pos_y);
    reconcile_owned(&mut client_world, chh.rigid_body, &history, 0, &correction, 8);
    let reconciled = body_of(&client_world, chh.rigid_body);
    assert_eq!(reconciled.pos_x, authoritative.pos_x);
    assert_eq!(reconciled.pos_y, authoritative.pos_y);
    assert_eq!(reconciled.linvel_x, authoritative.linvel_x);
    assert_eq!(reconciled.linvel_y, authoritative.linvel_y);

    // running the same reconciliation twice gives bit-identical results
    let mut second_world = PhysicsWorld::default();
    let h2 = second_world.insert(BodyState::at_rest(Layer::Predicted, 123_456, -9_000));
    reconcile_owned(&mut second_world, h2.rigid_body, &history, 0, &correction, 8);
    let again = body_of(&second_world, h2.rigid_body);
    assert_eq!(again.pos_x, reconciled.pos_x);
    assert_eq!(again.pos_y, reconciled.pos_y);
}

#[test]
fn physics_step_back_reverses_constant_motion() {
    let mut world = PhysicsWorld::default();
    let h = world.insert(BodyState {
        linvel_x: AXIS_ONE,
        linvel_y: 0,
        angvel: 0,
        pos_x: 0,
        pos_y: 0,
        ang: 0,
        layer: Layer::Predicted,
    });
    world.step();
    world.step();
    assert_eq!(body_of(&world, h.rigid_body).pos_x, 100_000);
    world.step_back();
    assert_eq!(body_of(&world, h.rigid_body).pos_x, 50_000);
    world.step_back();
    assert_eq!(body_of(&world, h.rigid_body).pos_x, 0);
    // a stale handle reads back as a miss
    assert!(world.get_rigid_body(999).is_none());
}

// A correction older than the buffer's depth cannot be fully replayed:
// reconciliation still runs to completion and self-heals later, but the
// predicted state keeps a residual error until a newer correction lands.
#[test]
fn correction_older_than_buffer_depth_degrades_gracefully() {
    let mut world = PhysicsWorld::default();
    let mut proxies: Vec<(u64, u64)> = Vec::new();
    let mut handles: Vec<(u64, usize)> = Vec::new();
    let ch = listen_character_creation(7, 8, &mut world, &mut proxies, &mut handles);
    let mut history = InputHistory {
        history: CommandHistory::new(2),
    };
    for t in 1..=6u16 {
        let cmd = input_for(7, AXIS_ONE, 0);
        history.history.insert(t, cmd);
        apply_player_input(&mut world, ch.rigid_body, &cmd);
        step_physics(&mut world);
    }
    // only ticks 5 and 6 are retained; the correction names tick 2
    assert_eq!(history.history.len(), 2);
    let owned = OwnedEntities {
        player_avatar: Some(EntityProxy {
            confirmed: 7,
            predicted: 8,
        }),
    };
    let updates = vec![(2u16, 7u64, snapshot(AXIS_ONE, 0, 100_000, 0))];
    restep_physics(&updates, &proxies, &handles, &owned, &history, 6, &mut world);
    // replayed under the correction's velocity for the missing ticks:
    // 0.1 m at tick 2 plus four 50 ms steps at 1 m/s
    assert_eq!(body_of(&world, ch.rigid_body).pos_x, 300_000);
}

// A correction outside the meaningful ordering window is applied as a
// plain snapshot but never replayed.
#[test]
fn correction_outside_window_is_not_replayed() {
    let mut world = PhysicsWorld::default();
    let mut proxies: Vec<(u64, u64)> = Vec::new();
    let mut handles: Vec<(u64, usize)> = Vec::new();
    let ch = listen_character_creation(7, 8, &mut world, &mut proxies, &mut handles);
    let history = InputHistory {
        history: CommandHistory::default(),
    };
    let owned = OwnedEntities {
        player_avatar: Some(EntityProxy {
            confirmed: 7,
            predicted: 8,
        }),
    };
    // the "correction" tick lies over half a range behind the client tick
    let updates = vec![(0x1000u16, 7u64, snapshot(AXIS_ONE, 0, 123_000, 0))];
    restep_physics(&updates, &proxies, &handles, &owned, &history, 0, &mut world);
    let b = body_of(&world, ch.rigid_body);
    assert_eq!(b.pos_x, 123_000);
    assert_eq!(b.linvel_x, AXIS_ONE);
}

#[test]
fn snapshot_validity_bounds() {
    assert!(snapshot(0, 0, 0, 0).is_valid());
    assert!(snapshot(AXIS_ONE, -AXIS_ONE, 250_000, -250_000).is_valid());
    let too_fast = PhysicsStateSync::new_complete(i64::MAX, 0, 0, 0, 0, 0);
    assert!(!too_fast.is_valid());
    let too_far = PhysicsStateSync::new_complete(0, 0, 0, i64::MAX, 0, 0);
    assert!(!too_far.is_valid());
}
