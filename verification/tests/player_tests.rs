use mc_server::player::{format_guid, Player};
use mc_server::status::{fixed_status_response, status_response, STATUS_RESPONSE_PACKET_ID};

#[test]
fn format_guid_full_width() {
    assert_eq!(
        format_guid(0x2a35098850ac41dfb2741b5eb6e633c1),
        "2a350988-50ac-41df-b274-1b5eb6e633c1"
    );
}

#[test]
fn format_guid_leading_zero_shortens_last_group() {
    assert_eq!(
        format_guid(0x0a35098850ac41dfb2741b5eb6e633c1),
        "a3509885-0ac4-1dfb-2741-b5eb6e633c1"
    );
}

#[test]
fn format_guid_smallest_formattable() {
    assert_eq!(format_guid(1u128 << 76), "10000000-0000-0000-0000-");
}

#[test]
fn format_guid_max() {
    assert_eq!(format_guid(u128::MAX), "ffffffff-ffff-ffff-ffff-ffffffffffff");
}

#[test]
fn status_response_lists_players() {
    let players = vec![
        Player { username: "ReeZey".to_string(), guid: 0x2a35098850ac41dfb2741b5eb6e633c1 },
        Player { username: "Steve".to_string(), guid: u128::MAX },
    ];
    let r = status_response(&players);
    assert_eq!(r.version_name, "1.20");
    assert_eq!(r.protocol, 763);
    assert_eq!(r.max_players, 69);
    assert_eq!(r.online, 2);
    assert_eq!(r.sample.len(), 2);
    assert_eq!(r.sample[0].name, "ReeZey");
    assert_eq!(r.sample[0].id, "2a350988-50ac-41df-b274-1b5eb6e633c1");
    assert_eq!(r.sample[1].name, "Steve");
    assert_eq!(r.sample[1].id, "ffffffff-ffff-ffff-ffff-ffffffffffff");
    assert_eq!(r.description, "yo");
    assert!(!r.enforces_secure_chat);
    assert_eq!(STATUS_RESPONSE_PACKET_ID, 0);
}

#[test]
fn status_response_without_players() {
    let r = status_response(&vec![]);
    assert_eq!(r.online, 0);
    assert!(r.sample.is_empty());
}

#[test]
fn fixed_status_response_shows_one_player() {
    let r = fixed_status_response();
    assert_eq!(r.online, 1);
    assert_eq!(r.sample.len(), 1);
    assert_eq!(r.sample[0].name, "ReeZey");
    assert_eq!(r.sample[0].id, "2a350988-50ac-41df-b274-1b5eb6e633c1");
    assert_eq!(r.version_name, "1.20");
}

#[test]
fn format_guid_parses_back() {
    for guid in [1u128 << 76, 0x0a35098850ac41dfb2741b5eb6e633c1, 0x2a35098850ac41dfb2741b5eb6e633c1, u128::MAX] {
        let text = format_guid(guid);
        assert_eq!(text.matches('-').count(), 4);
        assert_eq!(u128::from_str_radix(&text.replace("-", ""), 16), Ok(guid));
    }
}

#[test]
fn status_packet_data_is_framed_json() {
    let json = "{\"version\":{\"name\":\"1.20\",\"protocol\":763},\"players\":{\"max\":69,\"online\":1,\"sample\":[{\"name\":\"ReeZey\",\"id\":\"2a350988-50ac-41df-b274-1b5eb6e633c1\"}]},\"description\":{\"text\":\"yo\"},\"enforcesSecureChat\":false}";
    let mut expected = vec![];
    mc_server::varint::write_varint(&mut expected, json.len() as u32);
    expected.extend_from_slice(json.as_bytes());
    assert_eq!(mc_server::status::status_packet_data(&fixed_status_response()), expected);
}

#[test]
fn status_packet_data_without_players() {
    let json = "{\"version\":{\"name\":\"1.20\",\"protocol\":763},\"players\":{\"max\":69,\"online\":0,\"sample\":[]},\"description\":{\"text\":\"yo\"},\"enforcesSecureChat\":false}";
    let mut data = mc_server::status::status_packet_data(&status_response(&vec![]));
    // 141 bytes: the length takes two bytes
    assert_eq!(&data[0..2], &[0x8D, 0x01]);
    assert_eq!(mc_server::varint::read_varint_string_buf(&mut data), Ok(json.to_string()));
    assert!(data.is_empty());
}

#[test]
fn status_document_keys_in_order() {
    let doc = mc_server::status::status_document(&fixed_status_response());
    let keys: Vec<&String> = doc.keys().collect();
    assert_eq!(keys, vec!["version", "players", "description", "enforcesSecureChat"]);
    let players = doc.get_document("players").unwrap();
    assert_eq!(players.get_i32("online").unwrap(), 1);
    assert_eq!(players.get_array("sample").unwrap().len(), 1);
}
