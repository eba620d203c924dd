use lu_packets::client::{
    AddFriendRequest, CharListChar, CharacterCreateResponse, CharacterListResponse, ClientMessage,
    CreateCharacter, InstanceType, LoadStaticZone, MinimumChatModeResponsePrivate, TeamInvite,
    TransferToWorld, UpdateFreeTrialStatus,
};
use lu_packets::common::{LuString33, LuWStr33, Vector3, ZoneId};
use lu_packets::wire::DecodeError;

fn w33(s: &str) -> LuWStr33 {
    LuWStr33::from_units(s.encode_utf16().collect()).unwrap()
}

fn record(id: u64, name: &str, items: Vec<u32>) -> CharListChar {
    CharListChar {
        obj_id: id,
        char_name: w33(name),
        pending_name: w33(""),
        requires_rename: false,
        is_free_trial: true,
        torso_color: 1,
        legs_color: 2,
        hair_style: 3,
        hair_color: 4,
        eyebrow_style: 5,
        eye_style: 6,
        mouth_style: 7,
        last_location: ZoneId { map_id: 1000, instance_id: 0, clone_id: 0 },
        equipped_items: items,
    }
}

fn encode_record(c: &CharListChar) -> Vec<u8> {
    let mut out = Vec::new();
    c.serialize(&mut out);
    out
}

#[test]
fn char_list_char_layout() {
    let c = record(0x1122, "Hero", vec![4106, 2515]);
    let out = encode_record(&c);
    assert_eq!(out.len(), 218 + 8);
    assert!(out[8..12].iter().all(|b| *b == 0));
    assert_eq!(out[144], 0);
    assert_eq!(out[145], 1);
    assert!(out[146..156].iter().all(|b| *b == 0));
    assert!(out[176..184].iter().all(|b| *b == 0));
    assert!(out[208..216].iter().all(|b| *b == 0));
    assert_eq!(&out[216..218], &[2, 0]);
    assert_eq!(&out[218..222], &4106u32.to_le_bytes());
    let (back, n) = CharListChar::deserialize(&out, 0).unwrap();
    assert_eq!(n, out.len());
    assert_eq!(back.obj_id, 0x1122);
    assert_eq!(back.char_name, w33("Hero"));
    assert_eq!(back.equipped_items, vec![4106, 2515]);
    assert!(back.is_free_trial);
}

#[test]
fn list_response_field_order() {
    let r0 = encode_record(&record(10, "First", vec![]));
    let r1 = encode_record(&record(11, "Second", vec![1]));
    let mut bytes = vec![2u8, 1u8];
    bytes.extend_from_slice(&r0);
    bytes.extend_from_slice(&r1);
    let (back, n) = CharacterListResponse::deserialize(&bytes, 0).unwrap();
    assert_eq!(n, bytes.len());
    assert_eq!(back.selected_char, 1);
    assert_eq!(back.chars.len(), 2);
    assert_eq!(back.chars[0].obj_id, 10);
    assert_eq!(back.chars[1].obj_id, 11);
    assert_eq!(back.chars[1].char_name, w33("Second"));
}

#[test]
fn list_response_round_trip_four_records() {
    let m = CharacterListResponse {
        selected_char: 3,
        chars: (0..4).map(|i| record(100 + i, "C", vec![i as u32; i as usize])).collect(),
    };
    let mut out = Vec::new();
    m.serialize(&mut out);
    assert_eq!(out[0], 4);
    assert_eq!(out[1], 3);
    let (back, n) = CharacterListResponse::deserialize(&out, 0).unwrap();
    assert_eq!(n, out.len());
    assert_eq!(back.selected_char, 3);
    for (i, c) in back.chars.iter().enumerate() {
        assert_eq!(c.obj_id, 100 + i as u64);
        assert_eq!(c.equipped_items.len(), i);
    }
}

#[test]
fn list_response_empty_and_truncated() {
    let m = CharacterListResponse { selected_char: 0, chars: vec![] };
    let mut out = Vec::new();
    m.serialize(&mut out);
    assert_eq!(out, vec![0, 0]);
    let (back, n) = CharacterListResponse::deserialize(&out, 0).unwrap();
    assert_eq!(n, 2);
    assert!(back.chars.is_empty());
    assert_eq!(CharacterListResponse::deserialize(&[1, 0, 0], 0).unwrap_err(), DecodeError::TruncatedInput);
    let mut short = vec![1u8, 0];
    let mut r = encode_record(&record(1, "A", vec![5]));
    r.pop();
    short.extend_from_slice(&r);
    assert_eq!(CharacterListResponse::deserialize(&short, 0).unwrap_err(), DecodeError::LengthInconsistency);
}

#[test]
fn load_static_zone_round_trip() {
    let m = LoadStaticZone {
        zone_id: ZoneId { map_id: 1200, instance_id: 1, clone_id: 0 },
        map_checksum: 0xdead_beef,
        player_position: Vector3 { x: 1.5f32.to_bits(), y: 0, z: (-2.0f32).to_bits() },
        instance_type: InstanceType::Match,
    };
    let mut out = Vec::new();
    m.serialize(&mut out);
    assert_eq!(out.len(), 30);
    assert_eq!(&out[12..14], &[0, 0]);
    assert_eq!(&out[26..30], &[4, 0, 0, 0]);
    let (back, n) = LoadStaticZone::deserialize(&out, 0).unwrap();
    assert_eq!(n, 30);
    assert_eq!(back, m);
    assert_eq!(f32::from_bits(back.player_position.x), 1.5);
    out[26] = 5;
    assert_eq!(LoadStaticZone::deserialize(&out, 0).unwrap_err(), DecodeError::UnknownDiscriminant);
}

#[test]
fn client_message_tags() {
    let cases: Vec<(ClientMessage, u32)> = vec![
        (ClientMessage::CreateCharacter(CreateCharacter { data: vec![1, 2, 3] }), 4),
        (ClientMessage::CharacterCreateResponse(CharacterCreateResponse::CustomNameInUse), 7),
        (ClientMessage::SubjectGameMessage(vec![]), 12),
        (ClientMessage::AddFriendRequest(AddFriendRequest { sender_name: w33("pal"), is_best_friend_request: true }), 27),
        (ClientMessage::TeamInvite(TeamInvite { sender_name: w33("lead"), sender_id: 99 }), 35),
        (
            ClientMessage::MinimumChatModeResponsePrivate(MinimumChatModeResponsePrivate {
                chat_mode: 1,
                chat_channel: 2,
                recipient_name: w33("r"),
                recipient_gm_level: 9,
            }),
            58,
        ),
        (ClientMessage::UpdateFreeTrialStatus(UpdateFreeTrialStatus { is_free_trial: false }), 62),
    ];
    for (m, tag) in cases {
        let mut out = Vec::new();
        m.serialize(&mut out);
        assert_eq!(&out[..4], &tag.to_le_bytes());
        assert_eq!(out[4], 0);
        let (back, n) = ClientMessage::deserialize(&out, 0).unwrap();
        assert_eq!(n, out.len());
        let mut again = Vec::new();
        back.serialize(&mut again);
        assert_eq!(again, out);
    }
}

#[test]
fn client_message_unknown_tag_is_kept() {
    let bytes = [200u8, 0, 0, 0, 0, 0xde, 0xad];
    match ClientMessage::deserialize(&bytes, 0).unwrap() {
        (ClientMessage::Unknown(tag, data), n) => {
            assert_eq!(tag, 200);
            assert_eq!(data, vec![0xde, 0xad]);
            assert_eq!(n, 7);
        }
        other => panic!("unexpected {:?}", other),
    }
    let m = ClientMessage::Unknown(200, vec![0xde, 0xad]);
    let mut out = Vec::new();
    m.serialize(&mut out);
    assert_eq!(out, bytes.to_vec());
}

#[test]
fn client_message_closed_payload_union() {
    // a character create response with an unknown result code
    let bytes = [7u8, 0, 0, 0, 0, 9];
    assert_eq!(ClientMessage::deserialize(&bytes, 0).unwrap_err(), DecodeError::UnknownDiscriminant);
    assert_eq!(ClientMessage::deserialize(&[7, 0, 0, 0], 0).unwrap_err(), DecodeError::TruncatedInput);
}

#[test]
fn transfer_to_world_round_trip() {
    let ip = LuString33::from_bytes(b"127.0.0.1".to_vec()).unwrap();
    let m = TransferToWorld { redirect_ip: ip.clone(), redirect_port: 2001, is_maintenance_transfer: true };
    let mut out = Vec::new();
    m.serialize(&mut out);
    assert_eq!(out.len(), 36);
    assert_eq!(&out[33..36], &[0xd1, 0x07, 1]);
    let (back, _) = TransferToWorld::deserialize(&out, 0).unwrap();
    assert_eq!(back.redirect_ip, ip);
    assert_eq!(back.redirect_port, 2001);
    assert!(back.is_maintenance_transfer);
    assert!(LuString33::from_bytes(vec![b'1'; 33]).is_none());
}

#[test]
fn boolean_byte_nonzero_is_true() {
    let (back, n) = UpdateFreeTrialStatus::deserialize(&[0x80], 0).unwrap();
    assert_eq!(n, 1);
    assert!(back.is_free_trial);
    assert_eq!(UpdateFreeTrialStatus::deserialize(&[], 0).unwrap_err(), DecodeError::TruncatedInput);
}
