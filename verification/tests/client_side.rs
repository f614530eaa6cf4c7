//! Client-mirror, coalescing, moderation and session tests.

use cibo_online::client::{Client, ClientAction, ClientActionMovement, ClientMessage, MoveDirection};
use cibo_online::client_state::{ClientGameState, InputEvent};
use cibo_online::geometry::{Position, Rect};
use cibo_online::ids::{ClientId, ClientIdAllocator, ObjectIdAllocator, ObjectId};
use cibo_online::moderation::{
    censor_chat, contains_banned, sanitize_name, trim_str, truncate_chars, BannedWord,
    ModerationState, get_stream_mode, set_stream_mode,
};
use cibo_online::network_object::setup_network_objects;
use cibo_online::server::ServerMessage;
use cibo_online::session::{SessionData, SessionId, SessionStore, AuthState, LoginError};
use cibo_online::world::WorldState;

fn ann_world() -> WorldState {
    let mut world = WorldState::new();
    world.clients.push(Client::new(
        ClientId::from_u32(1),
        "Ann".to_string(),
        Position::new(0, 0),
    ));
    world.clients.push(Client::new(
        ClientId::from_u32(2),
        "Bob".to_string(),
        Position::new(50, 50),
    ));
    world
}

fn mirror(reconcile: bool) -> ClientGameState {
    ClientGameState::new(
        ClientId::from_u32(1),
        ann_world(),
        setup_network_objects(),
        reconcile,
    )
    .unwrap()
}

#[test]
fn coalescing_keeps_last_value_per_field() {
    // An interleaving of empty deltas changes nothing: only the last Some
    // value of each field survives.
    let empty = ClientAction::new();
    let mut acc = ClientAction::new();
    let mut first = ClientAction::new();
    first.movement(Position::new(1, 1), MoveDirection::Up);
    let mut second = ClientAction::new();
    second.typing(true);
    let mut third = ClientAction::new();
    third.movement(Position::new(9, 9), MoveDirection::Left);

    acc.combine(&empty);
    acc.combine(&first);
    acc.combine(&empty);
    acc.combine(&second);
    acc.combine(&empty);
    acc.combine(&third);
    acc.combine(&empty);

    let mut dense = ClientAction::new();
    dense.combine(&first);
    dense.combine(&second);
    dense.combine(&third);
    assert_eq!(acc, dense);

    assert_eq!(
        acc.movement,
        Some(ClientActionMovement::Move(Position::new(9, 9), MoveDirection::Left))
    );
    assert_eq!(acc.typing, Some(true));
}

#[test]
fn coalescing_look_keeps_pending_move_target() {
    let mut acc = ClientAction::new();
    acc.movement(Position::new(4, 4), MoveDirection::Right);
    let mut look = ClientAction::new();
    look.look(MoveDirection::Up);
    acc.combine(&look);
    assert_eq!(
        acc.movement,
        Some(ClientActionMovement::Move(Position::new(4, 4), MoveDirection::Up))
    );
}

#[test]
fn prediction_moves_one_pixel_per_tick() {
    let mut state = mirror(false);
    let inputs = vec![InputEvent::Press(MoveDirection::Right)];
    let sent = state.update(16, &inputs);
    assert_eq!(state.client().position, Position::new(1, 0));
    assert_eq!(state.client().movement, MoveDirection::Right);
    assert_eq!(state.client().look_direction, MoveDirection::Right);
    match sent.unwrap() {
        ClientMessage::Action(a) => match a.movement {
            Some(ClientActionMovement::Move(p, d)) => {
                assert_eq!(p, Position::new(1, 0));
                assert_eq!(d, MoveDirection::Right);
            }
            _ => panic!("expected a move"),
        },
        _ => panic!("expected an action"),
    }

    // Releasing a stale key cannot cancel a newer press.
    let inputs = vec![
        InputEvent::Press(MoveDirection::Up),
        InputEvent::Release(MoveDirection::Right),
    ];
    state.update(16, &inputs);
    assert_eq!(state.client().movement, MoveDirection::Up);
    assert_eq!(state.client().position, Position::new(1, -1));
}

#[test]
fn prediction_blocked_by_local_object_only_turns() {
    let mut state = mirror(false);
    // A decoration hitbox right where the player would step.
    state.local.objects.push(Rect::new(Position::new(0, 0), Position::new(40, 40)));
    let inputs = vec![InputEvent::Press(MoveDirection::Right)];
    let sent = state.update(16, &inputs);
    assert_eq!(state.client().position, Position::new(0, 0));
    assert_eq!(state.client().look_direction, MoveDirection::Right);
    match sent.unwrap() {
        ClientMessage::Action(a) => {
            assert!(matches!(a.movement, Some(ClientActionMovement::Look(MoveDirection::Right))));
        }
        _ => panic!("expected an action"),
    }
}

#[test]
fn forced_update_after_quiet_interval() {
    let mut state = mirror(false);
    // A long quiet frame with no inputs forces a refresh.
    let sent = state.update(1000, &Vec::new());
    assert!(sent.is_some());
    // Immediately afterwards, nothing to say.
    let sent = state.update(1, &Vec::new());
    assert!(sent.is_none());
}

#[test]
fn mirror_skips_own_echo_by_default() {
    let mut state = mirror(false);
    let mut own_echo = ClientAction::new();
    own_echo.movement(Position::new(77, 77), MoveDirection::Down);
    let mut bob_move = ClientAction::new();
    bob_move.movement(Position::new(51, 50), MoveDirection::Right);
    state.handle_message(ServerMessage::UpdateState(vec![
        (ClientId::from_u32(1), own_echo),
        (ClientId::from_u32(2), bob_move),
    ]));
    // The own player's predicted state is untouched; Bob follows the server.
    assert_eq!(state.client().position, Position::new(0, 0));
    assert_eq!(state.world.clients[1].position, Position::new(51, 50));
}

#[test]
fn mirror_reconciles_own_state_when_asked() {
    let mut state = mirror(true);
    let mut own_echo = ClientAction::new();
    own_echo.movement(Position::new(77, 77), MoveDirection::Down);
    state.handle_message(ServerMessage::UpdateState(vec![(
        ClientId::from_u32(1),
        own_echo,
    )]));
    assert_eq!(state.client().position, Position::new(77, 77));
}

#[test]
fn mirror_handles_join_and_leave() {
    let mut state = mirror(false);
    let carol = Client::new(ClientId::from_u32(3), "Carol".to_string(), Position::new(9, 9));
    state.handle_message(ServerMessage::NewClient(carol));
    assert_eq!(state.world.clients.len(), 3);

    state.handle_message(ServerMessage::ClientLeft(ClientId::from_u32(2)));
    assert_eq!(state.world.clients.len(), 2);
    assert!(state.world.clients.iter().all(|c| c.id().as_u32() != 2));

    // The own player never removes itself.
    state.handle_message(ServerMessage::ClientLeft(ClientId::from_u32(1)));
    assert_eq!(state.client().id().as_u32(), 1);
}

#[test]
fn mirror_chat_marks_sender_and_logs() {
    let mut state = mirror(false);
    state.handle_message(ServerMessage::Chat(ClientId::from_u32(2), "hello".to_string()));
    assert_eq!(state.local.chat_log.len(), 1);
    assert_eq!(state.local.chat_log[0].name, "Bob");
    assert_eq!(state.local.chat_log[0].message, "hello");
    assert_eq!(state.local.other_chat.len(), 1);
    assert_eq!(state.local.other_chat[0].expiry, 5000);
    assert!(!state.world.clients[1].typing);
}

#[test]
fn name_rules() {
    assert_eq!(sanitize_name("Ann"), "Ann");
    assert_eq!(sanitize_name("  Ann  "), "Ann");
    assert_eq!(sanitize_name(""), "Anon");
    assert_eq!(sanitize_name("   "), "Anon");
    // Truncation to the name limit happens before trimming.
    assert_eq!(sanitize_name("abcdefghijklmnopqrstuvwxyz"), "abcdefghijklmnop");
    assert_eq!(truncate_chars("hello", 3), "hel");
    assert_eq!(truncate_chars("hi", 10), "hi");
    assert_eq!(trim_str("\t x y \n"), "x y");
}

#[test]
fn banned_words_respect_severity_and_case() {
    let words = vec![
        BannedWord { word: "bad".to_string(), full_ban: true },
        BannedWord { word: "mild".to_string(), full_ban: false },
    ];
    // The lowercase mapping is what makes this match: if the text came
    // back unchanged from the case fold, "BAD" would not contain "bad".
    assert!(contains_banned("so BAD!", &words, false));
    assert_eq!(censor_chat("so BAD!", &words, false), "*****");
    // A light ban only holds in stream mode.
    assert!(!contains_banned("mildly put", &words, false));
    assert_eq!(censor_chat("mildly put", &words, false), "mildly put");
    assert!(contains_banned("mildly put", &words, true));
    assert_eq!(censor_chat("mildly put", &words, true), "*****");
}

#[test]
fn stream_mode_flag() {
    let mut state = ModerationState::new();
    assert!(!get_stream_mode(&state));
    set_stream_mode(&mut state, true);
    assert!(get_stream_mode(&state));
    set_stream_mode(&mut state, false);
    assert!(!get_stream_mode(&state));
}

#[test]
fn id_allocators_are_monotonic() {
    let mut alloc = ClientIdAllocator::new();
    let a = ClientId::new(&mut alloc);
    let b = ClientId::new(&mut alloc);
    assert!(b.as_u32() > a.as_u32());
    let mut alloc = ObjectIdAllocator::new();
    let a = ObjectId::new(&mut alloc);
    let b = ObjectId::new(&mut alloc);
    assert!(b.as_u32() > a.as_u32());
}

#[test]
fn sessions_expire_and_renew() {
    let mut store = SessionStore::new();
    let id = SessionId::new();
    store.insert(id, SessionData::new(42, 1000));
    // Within the timeout the session lives and its activity renews.
    assert_eq!(store.check(id, 2000), Some(42));
    assert_eq!(store.sessions[0].1.last_activity, 2000);
    // Past the timeout it is dead.
    let late = 2000 + 60 * 60 * 1000 + 1;
    assert_eq!(store.check(id, late), None);
    // An unknown id names nobody.
    assert_eq!(store.check(SessionId(id.as_u128().wrapping_add(1)), 2000), None);
}

#[test]
fn auth_state_reports_user() {
    let anonymous = AuthState(None);
    assert!(!anonymous.is_authenticated());
    assert!(anonymous.user().is_none());
    let user = cibo_online::session::User {
        id: 7,
        username: "admin".to_string(),
        password: "salted-hash-value".to_string(),
    };
    let signed_in = AuthState(Some(user));
    assert!(signed_in.is_authenticated());
    assert_eq!(signed_in.user().unwrap().id, 7);
    assert_eq!(LoginError::InvalidUsername.message(), "Invalid credentials");
    assert_eq!(LoginError::InvalidCredentials.message(), "Invalid credentials");
    assert_eq!(LoginError::InternalError.message(), "Internal error");
}
