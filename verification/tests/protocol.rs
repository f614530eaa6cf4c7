//! Wire-format tests: the hand-written codec against reference encodings,
//! message round trips, and decode-error behaviour.

use cibo_online::client::{ClientAction, ClientMessage, MoveDirection};
use cibo_online::codec::DecodeError;
use cibo_online::geometry::Position;
use cibo_online::ids::{ClientId, ObjectId};
use cibo_online::server::{ServerMessage, SerializedNetworkObject};

fn encode_client_message(m: &ClientMessage) -> Vec<u8> {
    m.to_bytes()
}

#[test]
fn varint_matches_postcard_u32() {
    for v in [0u32, 1, 127, 128, 300, 65535, u32::MAX] {
        let msg = ClientMessage::UpdateObject(ObjectId::from_u32(v), Vec::new());
        let bytes = encode_client_message(&msg);
        // tag 3, then the id as a varint, then the empty payload length.
        let reference = postcard::to_allocvec(&v).unwrap();
        assert_eq!(&bytes[1..bytes.len() - 1], &reference[..]);
    }
}

#[test]
fn string_encoding_matches_postcard() {
    let text = "hello world".to_string();
    let msg = ClientMessage::Chat(text.clone());
    let bytes = encode_client_message(&msg);
    let reference = postcard::to_allocvec(&text).unwrap();
    assert_eq!(&bytes[1..], &reference[..]);
}

#[test]
fn bool_and_option_layout_matches_postcard() {
    let reference_true = postcard::to_allocvec(&true).unwrap();
    let reference_none = postcard::to_allocvec(&Option::<bool>::None).unwrap();
    let reference_some = postcard::to_allocvec(&Some(false)).unwrap();
    // An action with no movement and typing = Some(true):
    // Option tag 0, then option tag 1 and the bool.
    let mut action = ClientAction::new();
    action.typing(true);
    let msg = ClientMessage::Action(action);
    let bytes = encode_client_message(&msg);
    assert_eq!(bytes[1], reference_none[0]);
    assert_eq!(bytes[2], reference_some[0]);
    assert_eq!(bytes[3], reference_true[0]);
}

#[test]
fn signed_positions_use_zigzag() {
    let mut action = ClientAction::new();
    action.movement(Position::new(-3, 7), MoveDirection::Left);
    let msg = ClientMessage::Action(action);
    let bytes = encode_client_message(&msg);
    let ref_x = postcard::to_allocvec(&-3i64).unwrap();
    let ref_y = postcard::to_allocvec(&7i64).unwrap();
    // tag 1, movement present 1, variant 0, then x and y.
    assert_eq!(bytes[3], ref_x[0]);
    assert_eq!(bytes[4], ref_y[0]);
}

#[test]
fn client_message_round_trip() {
    let original = ClientMessage::Connect { name: "Ann".to_string() };
    let bytes = original.to_bytes();
    let decoded = ClientMessage::from_bytes(&bytes).unwrap();
    match decoded {
        ClientMessage::Connect { name } => assert_eq!(name, "Ann"),
        _ => panic!("wrong variant"),
    }

    let mut action = ClientAction::new();
    action.movement(Position::new(-10, 99), MoveDirection::Up);
    action.typing(false);
    let original = ClientMessage::Action(action);
    let decoded = ClientMessage::from_bytes(&original.to_bytes()).unwrap();
    match decoded {
        ClientMessage::Action(a) => assert_eq!(a, action),
        _ => panic!("wrong variant"),
    }
}

#[test]
fn client_message_rejects_garbage() {
    assert_eq!(
        ClientMessage::from_bytes(&[]).unwrap_err(),
        DecodeError::Malformed
    );
    assert_eq!(
        ClientMessage::from_bytes(&[99]).unwrap_err(),
        DecodeError::Malformed
    );
    // A Chat whose payload is not valid UTF-8.
    assert_eq!(
        ClientMessage::from_bytes(&[2, 2, 0xff, 0xfe]).unwrap_err(),
        DecodeError::Malformed
    );
}

#[test]
fn server_message_round_trip() {
    let updates = vec![
        (ClientId::from_u32(1), {
            let mut a = ClientAction::new();
            a.movement(Position::new(5, 6), MoveDirection::Down);
            a
        }),
        (ClientId::from_u32(2), {
            let mut a = ClientAction::new();
            a.typing(true);
            a
        }),
    ];
    let original = ServerMessage::UpdateState(updates.clone());
    let decoded = ServerMessage::from_bytes(&original.to_bytes()).unwrap();
    match decoded {
        ServerMessage::UpdateState(d) => assert_eq!(d, updates),
        _ => panic!("wrong variant"),
    }

    let original = ServerMessage::Chat(ClientId::from_u32(9), "hi there".to_string());
    match ServerMessage::from_bytes(&original.to_bytes()).unwrap() {
        ServerMessage::Chat(id, text) => {
            assert_eq!(id.as_u32(), 9);
            assert_eq!(text, "hi there");
        }
        _ => panic!("wrong variant"),
    }

    let original = ServerMessage::DeleteObject(ObjectId::from_u32(77));
    match ServerMessage::from_bytes(&original.to_bytes()).unwrap() {
        ServerMessage::DeleteObject(id) => assert_eq!(id.as_u32(), 77),
        _ => panic!("wrong variant"),
    }

    let original = ServerMessage::NewObject(
        ObjectId::from_u32(4),
        SerializedNetworkObject(vec![1, 2, 3]),
    );
    match ServerMessage::from_bytes(&original.to_bytes()).unwrap() {
        ServerMessage::NewObject(id, payload) => {
            assert_eq!(id.as_u32(), 4);
            assert_eq!(payload.0, vec![1, 2, 3]);
        }
        _ => panic!("wrong variant"),
    }
}

#[test]
fn server_message_rejects_garbage() {
    assert_eq!(
        ServerMessage::from_bytes(&[42]).unwrap_err(),
        DecodeError::Malformed
    );
    assert_eq!(
        ServerMessage::from_bytes(&[]).unwrap_err(),
        DecodeError::Malformed
    );
}
