use mc_server::handshake::{client_action, parse_handshake, ClientAction};
use mc_server::login::{parse_login_start, LoginError};
use mc_server::packet::Packet;
use mc_server::play::{login_play, login_play_bytes, LOGIN_PLAY_PACKET_ID};

fn handshake_data(next_state: u8) -> Vec<u8> {
    let mut data = vec![0xFB, 0x05, 9];
    data.extend_from_slice(b"localhost");
    data.extend_from_slice(&[0x63, 0xDD, next_state]);
    data
}

#[test]
fn parse_handshake_reads_fields() {
    let h = parse_handshake(handshake_data(2)).unwrap();
    assert_eq!(h.protocol_version, 763);
    assert_eq!(h.host, "localhost");
    assert_eq!(h.port, 25565);
    assert_eq!(h.next_state, 2);
}

#[test]
fn parse_handshake_refuses_truncated_data() {
    let mut data = handshake_data(1);
    data.truncate(12);
    assert!(parse_handshake(data).is_none());
    assert!(parse_handshake(vec![0x80]).is_none());
    assert!(parse_handshake(vec![0xFB, 0x05, 9, b'a']).is_none());
}

#[test]
fn parse_handshake_refuses_invalid_utf8_host() {
    let data = vec![0x01, 0x01, 0xFF, 0x00, 0x01, 0x01];
    assert!(parse_handshake(data).is_none());
}

#[test]
fn client_action_by_next_state() {
    assert_eq!(client_action(Packet::new(0, handshake_data(1))), Some(ClientAction::Status));
    assert_eq!(client_action(Packet::new(0, handshake_data(2))), Some(ClientAction::Login));
    assert_eq!(client_action(Packet::new(0, handshake_data(3))), Some(ClientAction::Close));
    assert_eq!(client_action(Packet::new(5, vec![])), Some(ClientAction::Close));
    assert_eq!(client_action(Packet::new(0, vec![])), None);
}

#[test]
fn parse_login_start_with_guid() {
    let mut data = vec![5];
    data.extend_from_slice(b"Steve");
    data.push(1);
    data.extend_from_slice(&0x2a35098850ac41dfb2741b5eb6e633c1u128.to_be_bytes());
    let l = parse_login_start(data).unwrap();
    assert_eq!(l.username, "Steve");
    assert_eq!(l.guid, 0x2a35098850ac41dfb2741b5eb6e633c1);
}

#[test]
fn parse_login_start_without_guid() {
    let mut data = vec![5];
    data.extend_from_slice(b"Alex!");
    data.push(0);
    let l = parse_login_start(data).unwrap();
    assert_eq!(l.username, "Alex!");
    assert_eq!(l.guid, 0);
}

#[test]
fn parse_login_start_errors() {
    assert_eq!(parse_login_start(vec![5, b'a']).err(), Some(LoginError::BufferTooSmall));
    assert_eq!(parse_login_start(vec![1, b'a']).err(), Some(LoginError::Malformed));
    assert_eq!(parse_login_start(vec![1, b'a', 1, 0, 0]).err(), Some(LoginError::Malformed));
    assert_eq!(parse_login_start(vec![1, 0xC3, 0]).err(), Some(LoginError::Malformed));
}

fn string_field(out: &mut Vec<u8>, s: &[u8]) {
    out.push(s.len() as u8);
    out.extend_from_slice(s);
}

#[test]
fn login_play_defaults() {
    let p = login_play(20, 10, 8, vec![1, 2, 3]);
    assert_eq!(p.dimensions, vec!["minecraft:overworld", "minecraft:the_nether", "minecraft:the_end"]);
    assert_eq!(p.dimension_type, "minecraft:overworld");
    assert_eq!(p.dimension_name, "minecraft:overwarld");
    assert_eq!(p.death_dimension, "nah");
    assert_eq!(p.max_players, 20);
    assert_eq!(p.registry_codec, vec![1, 2, 3]);
    assert_eq!(LOGIN_PLAY_PACKET_ID, 0x28);
}

#[test]
fn login_play_bytes_layout() {
    let p = login_play(20, 10, 8, vec![1, 2, 3]);
    let mut expected = vec![0, 0, 0, 0, 0, 0, 0, 3];
    string_field(&mut expected, b"minecraft:overworld");
    string_field(&mut expected, b"minecraft:the_nether");
    string_field(&mut expected, b"minecraft:the_end");
    expected.extend_from_slice(&[1, 2, 3]);
    string_field(&mut expected, b"minecraft:overworld");
    string_field(&mut expected, b"minecraft:overwarld");
    expected.extend_from_slice(&[0, 0, 0, 0, 0, 0, 0, 0]);
    expected.extend_from_slice(&[20, 10, 8, 0, 0, 0, 0, 0, 0]);
    let bytes = login_play_bytes(&p);
    assert_eq!(bytes.len(), 127);
    assert_eq!(bytes, expected);
}

#[test]
fn login_play_bytes_signed_fields() {
    let mut p = login_play(100, 1, 2, vec![]);
    p.entity_id = -2;
    p.hashed_seed = -1;
    p.is_hardcore = true;
    p.portal_cooldown = 300;
    let bytes = login_play_bytes(&p);
    assert_eq!(&bytes[0..5], &[0xFF, 0xFF, 0xFF, 0xFE, 1]);
    let n = bytes.len();
    assert_eq!(&bytes[n - 2..], &[0xAC, 0x02]);
    assert_eq!(&bytes[n - 19..n - 11], &[0xFF; 8]);
    assert_eq!(&bytes[n - 11..n - 7], &[0xE4, 0x00, 1, 2]);
}
