//! Server-side simulation tests: connection handshakes, tick conservation,
//! collision behaviour and the registry round trip.

use cibo_online::beach_ball::BeachBall;
use cibo_online::client::{Client, ClientAction, ClientMessage, MoveDirection};
use cibo_online::collision::CollisionInfo;
use cibo_online::geometry::Position;
use cibo_online::ids::{ClientId, ObjectId};
use cibo_online::network_object::{
    encode_boxed, decode_boxed, setup_network_objects, BoxedNetworkObject, NetworkObjectKind,
    NetworkObjectRegistry, NetworkObjectValue, register_network_object,
};
use cibo_online::server::{NotifyTarget, ServerGameState, ServerMessage};
use cibo_online::world::{SpecialEvent, WorldState, decode_world, encode_world};
use cibo_online::codec::DecodeError;

fn new_server() -> ServerGameState {
    ServerGameState::new(setup_network_objects())
}

fn move_action(x: i64, y: i64, d: MoveDirection) -> ClientAction {
    let mut a = ClientAction::new();
    a.movement(Position::new(x, y), d);
    a
}

fn count_update_state(deliveries: &[(NotifyTarget, ServerMessage)]) -> usize {
    deliveries
        .iter()
        .filter(|(_, m)| matches!(m, ServerMessage::UpdateState(_)))
        .count()
}

#[test]
fn connect_handshake_targets() {
    // End to end: Ann connects to an empty world.
    let mut server = new_server();
    let ann = ClientId::from_u32(1);
    server.new_client(ann);
    let deliveries = server.update(ann, ClientMessage::Connect { name: "Ann".to_string() });
    assert_eq!(deliveries.len(), 2);
    match &deliveries[0] {
        (NotifyTarget::Only(id), ServerMessage::FullState(state)) => {
            assert_eq!(id.as_u32(), ann.as_u32());
            assert_eq!(state.0.as_u32(), ann.as_u32());
            // The world handed to Ann decodes, and its only player is Ann:
            // the pre-existing list is empty.
            let registry = setup_network_objects();
            let (world, _) = decode_world(&registry, &state.1, 0).unwrap();
            assert_eq!(world.clients.len(), 1);
            assert_eq!(world.clients[0].id().as_u32(), ann.as_u32());
            assert_eq!(world.clients[0].name(), "Ann");
        }
        _ => panic!("first delivery must be the full state for Ann only"),
    }
    match &deliveries[1] {
        (NotifyTarget::AllExcept(id), ServerMessage::NewClient(c)) => {
            assert_eq!(id.as_u32(), ann.as_u32());
            assert_eq!(c.id().as_u32(), ann.as_u32());
        }
        _ => panic!("second delivery must announce Ann to everyone else"),
    }

    // A second Connect under the same id is ignored.
    let again = server.update(ann, ClientMessage::Connect { name: "Ann".to_string() });
    assert!(again.is_empty());

    // Bob connects afterwards: his full state holds both players.
    let bob = ClientId::from_u32(2);
    server.new_client(bob);
    let deliveries = server.update(bob, ClientMessage::Connect { name: "Bob".to_string() });
    match &deliveries[0] {
        (_, ServerMessage::FullState(state)) => {
            let registry = setup_network_objects();
            let (world, _) = decode_world(&registry, &state.1, 0).unwrap();
            assert_eq!(world.clients.len(), 2);
        }
        _ => panic!("expected a full state"),
    }
}

#[test]
fn tick_conservation_no_actions() {
    let mut server = new_server();
    let ann = ClientId::from_u32(1);
    server.new_client(ann);
    server.update(ann, ClientMessage::Connect { name: "Ann".to_string() });
    let deliveries = server.tick(16);
    assert_eq!(count_update_state(&deliveries), 0);
}

#[test]
fn tick_conservation_batches_actions() {
    let mut server = new_server();
    let ann = ClientId::from_u32(1);
    let bob = ClientId::from_u32(2);
    server.new_client(ann);
    server.new_client(bob);
    server.update(ann, ClientMessage::Connect { name: "Ann".to_string() });
    server.update(bob, ClientMessage::Connect { name: "Bob".to_string() });

    // Ann queues twice within one tick window; the deltas coalesce.
    server.update(ann, ClientMessage::Action(move_action(1, 0, MoveDirection::Right)));
    server.update(ann, ClientMessage::Action(move_action(2, 0, MoveDirection::Right)));
    server.update(bob, ClientMessage::Action(move_action(0, 1, MoveDirection::Down)));

    let deliveries = server.tick(16);
    assert_eq!(count_update_state(&deliveries), 1);
    let batch = deliveries
        .iter()
        .find_map(|(t, m)| match m {
            ServerMessage::UpdateState(entries) => {
                assert!(matches!(t, NotifyTarget::All));
                Some(entries.clone())
            }
            _ => None,
        })
        .unwrap();
    // Exactly one entry per distinct client that queued an action.
    assert_eq!(batch.len(), 2);
    assert_eq!(batch[0].0.as_u32(), ann.as_u32());
    assert_eq!(batch[1].0.as_u32(), bob.as_u32());
    // The last value of Ann's coalesced movement wins.
    match batch[0].1.movement {
        Some(cibo_online::client::ClientActionMovement::Move(p, d)) => {
            assert_eq!(p, Position::new(2, 0));
            assert_eq!(d, MoveDirection::Right);
        }
        _ => panic!("expected a move"),
    }

    // The players now stand at their requested positions (movement is not
    // collision-checked against players in the base protocol).
    assert_eq!(server.world.clients[0].position, Position::new(2, 0));
    assert_eq!(server.world.clients[1].position, Position::new(0, 1));

    // The queue is cleared: the next tick broadcasts nothing.
    let next = server.tick(16);
    assert_eq!(count_update_state(&next), 0);
}

#[test]
fn registry_round_trip() {
    let registry = setup_network_objects();
    let ball = BeachBall::new(Position::new(12, -34));
    let boxed = BoxedNetworkObject::new(&registry, NetworkObjectValue::BeachBall(ball)).unwrap();
    let mut bytes = Vec::new();
    encode_boxed(&mut bytes, &boxed);
    let (decoded, consumed) = decode_boxed(&registry, &bytes, 0).unwrap();
    assert_eq!(consumed, bytes.len());
    let decoded = decoded.unwrap();
    // The kind tag survives and is re-embedded correctly.
    assert_eq!(decoded.id().as_u64(), boxed.id().as_u64());
    let NetworkObjectValue::BeachBall(b) = decoded.object;
    assert_eq!(b.properties.position, ball.properties.position);
    assert_eq!(b.position_milli, ball.position_milli);
    assert_eq!(b.velocity, ball.velocity);
}

#[test]
fn unknown_kind_is_skipped_but_world_survives() {
    // Encode a world under a registry with two kinds... there is only one
    // compile-time kind, so fake the second by registering the ball twice
    // under different wire ids in two registries.
    let full = setup_network_objects();
    let ball = BeachBall::new(Position::new(0, 0));
    let boxed = BoxedNetworkObject::new(&full, NetworkObjectValue::BeachBall(ball)).unwrap();

    let mut world = WorldState::new();
    world.clients.push(Client::new(
        ClientId::from_u32(7),
        "Ann".to_string(),
        Position::new(1, 2),
    ));
    world.network_objects.push((ObjectId::from_u32(0), boxed));
    let mut bytes = Vec::new();
    encode_world(&mut bytes, &world);

    // An empty registry knows no kinds: the object is dropped, everything
    // else decodes.
    let empty = NetworkObjectRegistry::new();
    let (decoded, _) = decode_world(&empty, &bytes, 0).unwrap();
    assert_eq!(decoded.clients.len(), 1);
    assert_eq!(decoded.clients[0].name(), "Ann");
    assert_eq!(decoded.network_objects.len(), 0);

    // The full registry decodes the same bytes with the object intact.
    let (decoded, _) = decode_world(&full, &bytes, 0).unwrap();
    assert_eq!(decoded.network_objects.len(), 1);
}

#[test]
fn single_object_unknown_kind_error() {
    let full = setup_network_objects();
    let ball = BeachBall::new(Position::new(0, 0));
    let boxed = BoxedNetworkObject::new(&full, NetworkObjectValue::BeachBall(ball)).unwrap();
    let serialized = cibo_online::server::SerializedNetworkObject::new(&boxed);
    let empty = NetworkObjectRegistry::new();
    assert_eq!(serialized.serialize(&empty).unwrap_err(), DecodeError::UnknownKind);
    let serialized = cibo_online::server::SerializedNetworkObject::new(&boxed);
    assert!(serialized.serialize(&full).is_ok());
}

#[test]
fn register_assigns_fresh_ids() {
    let mut registry = NetworkObjectRegistry::new();
    let first = register_network_object(&mut registry, NetworkObjectKind::BeachBall);
    assert_eq!(first.as_u64(), 0);
    assert_eq!(
        cibo_online::network_object::get_network_object_id(
            &registry,
            NetworkObjectKind::BeachBall
        )
        .unwrap()
        .as_u64(),
        0
    );
}

#[test]
fn collision_symmetry_between_two_balls() {
    // Two overlapping balls: during one tick each receives the other's
    // pre-tick record exactly once, queued for the server pass, which then
    // pushes them apart along the line between their centres.
    let mut server = new_server();
    let deliveries = server.set_special_event(SpecialEvent::BeachEpisode, false);
    assert!(matches!(
        deliveries.last().unwrap().1,
        ServerMessage::SpecialEvent { active: false, .. }
    ));

    let registry = setup_network_objects();
    let a = BeachBall::new(Position::new(0, 0));
    let b = BeachBall::new(Position::new(8, 0));
    let boxed_a = BoxedNetworkObject::new(&registry, NetworkObjectValue::BeachBall(a)).unwrap();
    let boxed_b = BoxedNetworkObject::new(&registry, NetworkObjectValue::BeachBall(b)).unwrap();
    server.world.network_objects.push((ObjectId::from_u32(100), boxed_a));
    server.world.network_objects.push((ObjectId::from_u32(101), boxed_b));

    server.tick(16);

    let NetworkObjectValue::BeachBall(na) = server.world.network_objects[0].1.object;
    let NetworkObjectValue::BeachBall(nb) = server.world.network_objects[1].1.object;
    // The mutual push moves A left and B right, with equal strength.
    assert!(na.velocity.0 < 0, "left ball must be pushed left");
    assert!(nb.velocity.0 > 0, "right ball must be pushed right");
    assert_eq!(na.velocity.0, -nb.velocity.0);
    assert_eq!(na.velocity.1, 0);
    assert_eq!(nb.velocity.1, 0);
}

#[test]
fn static_obstacle_reflects_ball() {
    // A ball moving right hits a static body to its right: the velocity
    // reflects off the line between the centres.
    let info = CollisionInfo::new_dynamic(Position::new(0, 0), (3000, 0));
    let obstacle = CollisionInfo::new_static(Position::new(10, 0));
    let reflected = info.apply(obstacle);
    assert_eq!(reflected, (-3000, 0));
}

#[test]
fn static_bodies_never_move() {
    let obstacle = CollisionInfo::new_static(Position::new(5, 5));
    let fast = CollisionInfo::new_player(Position::new(4, 4), (5000, 5000));
    assert_eq!(obstacle.apply(fast), (0, 0));
    assert_eq!(obstacle.apply_with_force(fast, 1200), (0, 0));
    let still = CollisionInfo::new_static(Position::new(9, 9));
    assert_eq!(obstacle.apply(still), (0, 0));
}

#[test]
fn velocity_always_clamped() {
    let cases = [
        (Position::new(0, 0), (i64::MAX, i64::MIN), Position::new(1, 1)),
        (Position::new(0, 0), (5000, -5000), Position::new(0, 1)),
        (Position::new(-9999, 9999), (4999, 4999), Position::new(9999, -9999)),
        (Position::new(3, 3), (0, 0), Position::new(3, 3)),
    ];
    for (center, velocity, other_center) in cases {
        for other in [
            CollisionInfo::new_static(other_center),
            CollisionInfo::new_dynamic(other_center, (1000, 1000)),
            CollisionInfo::new_player(other_center, (0, 0)),
        ] {
            let info = CollisionInfo::new_dynamic(center, velocity);
            let (vx, vy) = info.apply(other);
            assert!((-5000..=5000).contains(&vx));
            assert!((-5000..=5000).contains(&vy));
            let (vx, vy) = info.apply_with_force(other, 1200);
            assert!((-5000..=5000).contains(&vx));
            assert!((-5000..=5000).contains(&vy));
        }
    }
}

#[test]
fn disconnect_broadcasts_once_and_purges_queue() {
    let mut server = new_server();
    let ann = ClientId::from_u32(1);
    let bob = ClientId::from_u32(2);
    server.new_client(ann);
    server.new_client(bob);
    server.update(ann, ClientMessage::Connect { name: "Ann".to_string() });
    server.update(bob, ClientMessage::Connect { name: "Bob".to_string() });

    // Ann queues a move, then disconnects before the tick.
    server.update(ann, ClientMessage::Action(move_action(5, 5, MoveDirection::Down)));
    let deliveries = server.remove_client(ann);
    let left: Vec<_> = deliveries
        .iter()
        .filter(|(t, m)| {
            matches!(m, ServerMessage::ClientLeft(id) if id.as_u32() == ann.as_u32())
                && matches!(t, NotifyTarget::AllExcept(e) if e.as_u32() == ann.as_u32())
        })
        .collect();
    assert_eq!(left.len(), 1);

    // No later state update ever carries Ann's id: her queued delta died
    // with her, so this tick broadcasts nothing at all.
    let deliveries = server.tick(16);
    assert_eq!(count_update_state(&deliveries), 0);

    // Bob's own deltas still flow.
    server.update(bob, ClientMessage::Action(move_action(1, 1, MoveDirection::Up)));
    let deliveries = server.tick(16);
    let batch = deliveries
        .iter()
        .find_map(|(_, m)| match m {
            ServerMessage::UpdateState(entries) => Some(entries.clone()),
            _ => None,
        })
        .unwrap();
    assert!(batch.iter().all(|(id, _)| id.as_u32() != ann.as_u32()));
}

#[test]
fn beach_episode_spawns_and_clears() {
    let mut server = new_server();
    let deliveries = server.set_special_event(SpecialEvent::BeachEpisode, true);
    assert_eq!(deliveries.len(), 501);
    assert_eq!(server.world.network_objects.len(), 500);
    assert!(server.get_special_event(SpecialEvent::BeachEpisode));
    for (_, boxed) in &server.world.network_objects {
        let NetworkObjectValue::BeachBall(b) = boxed.object;
        assert!((-2000..2000).contains(&b.properties.position.x));
        assert!((-1000..1000).contains(&b.properties.position.y));
    }
    assert!(matches!(
        deliveries.last().unwrap().1,
        ServerMessage::SpecialEvent { active: true, .. }
    ));

    let deliveries = server.set_special_event(SpecialEvent::BeachEpisode, false);
    assert_eq!(server.world.network_objects.len(), 0);
    assert!(!server.get_special_event(SpecialEvent::BeachEpisode));
    // One removal broadcast per ball, then the flag change.
    assert_eq!(deliveries.len(), 501);
}

#[test]
fn ball_damps_and_rests() {
    let mut ball = BeachBall::new(Position::new(0, 0));
    ball.velocity = (4000, 0);
    ball.tick(16, &Vec::new());
    // One tick of damping: 4000 scaled by (1 - 0.05) in milli-units.
    assert_eq!(ball.velocity.0, 3800);
    assert!(ball.position_milli.0 > 0);

    let mut slow = BeachBall::new(Position::new(0, 0));
    slow.velocity = (99, -99);
    slow.tick(16, &Vec::new());
    assert_eq!(slow.velocity, (0, 0));
}

#[test]
fn ball_state_message_round_trip() {
    let mut ball = BeachBall::new(Position::new(0, 0));
    ball.velocity = (2000, -1500);
    ball.position_milli = (123456, -654321);
    let bytes = ball.server_message(&{
        let mut payload = Vec::new();
        cibo_online::collision::encode_collision_info(
            &mut payload,
            &CollisionInfo::new_static(Position::new(50, 0)),
        );
        payload
    });
    let broadcast = bytes.unwrap().unwrap();

    let mut mirror = BeachBall::new(Position::new(0, 0));
    mirror.client_message(&broadcast).unwrap();
    assert_eq!(mirror.position_milli, ball.position_milli);
    assert_eq!(mirror.velocity, ball.velocity);
}

#[test]
fn world_snapshot_full_round_trip() {
    let registry = setup_network_objects();
    let mut world = WorldState::new();
    world.clients.push(Client::new(
        ClientId::from_u32(3),
        "Ann".to_string(),
        Position::new(-5, 12),
    ));
    world.set_special_event(SpecialEvent::BeachEpisode, true);
    let mut ball = BeachBall::new(Position::new(100, 200));
    ball.velocity = (1500, -2500);
    let boxed = BoxedNetworkObject::new(&registry, NetworkObjectValue::BeachBall(ball)).unwrap();
    world.network_objects.push((ObjectId::from_u32(9), boxed));

    let mut bytes = Vec::new();
    encode_world(&mut bytes, &world);
    let (decoded, consumed) = decode_world(&registry, &bytes, 0).unwrap();
    assert_eq!(consumed, bytes.len());
    assert_eq!(decoded.clients.len(), 1);
    assert_eq!(decoded.clients[0].name(), "Ann");
    assert_eq!(decoded.clients[0].position, Position::new(-5, 12));
    assert!(decoded.special_events.beach_episode);
    assert_eq!(decoded.network_objects.len(), 1);
    assert_eq!(decoded.network_objects[0].0.as_u32(), 9);
    let NetworkObjectValue::BeachBall(b) = decoded.network_objects[0].1.object;
    assert_eq!(b.velocity, (1500, -2500));
    assert_eq!(b.position_milli, ball.position_milli);
}
