use lu_packets::common::{LuWStr33, LuWStr42, ZoneId};
use lu_packets::server::{
    CharacterCreateRequest, CharacterLoginRequest, ClientValidation, GeneralChatMessage, LuMessage,
    RouteMessage, StringCheck, UgcDownloadFailed, UgcResType, WorldMessage,
};
use lu_packets::wire::DecodeError;

fn units(s: &str) -> Vec<u16> {
    s.encode_utf16().collect()
}

fn w33(s: &str) -> LuWStr33 {
    LuWStr33::from_units(units(s)).unwrap()
}

fn validation() -> ClientValidation {
    let mut fdb_checksum = [0u8; 32];
    for (i, b) in fdb_checksum.iter_mut().enumerate() {
        *b = 0xa0 + i as u8;
    }
    ClientValidation { username: w33("user"), session_key: w33("SECRET-REDACTED"), fdb_checksum }
}

#[test]
fn client_validation_round_trip() {
    let m = validation();
    let mut out = Vec::new();
    m.serialize(&mut out);
    assert_eq!(out.len(), 165);
    let (back, n) = ClientValidation::deserialize(&out, 0).unwrap();
    assert_eq!(n, 165);
    assert_eq!(back.username, m.username);
    assert_eq!(back.session_key, m.session_key);
    assert_eq!(back.fdb_checksum, m.fdb_checksum);
}

#[test]
fn client_validation_filler_byte() {
    let m = validation();
    let mut out = Vec::new();
    m.serialize(&mut out);
    assert_eq!(out[164], 0);
    assert_eq!(&out[132..164], &m.fdb_checksum[..]);
    // the filler is consumed whatever it holds
    let mut bytes = out.clone();
    bytes[164] = 0x7f;
    bytes.push(0x55);
    let (back, n) = ClientValidation::deserialize(&bytes, 0).unwrap();
    assert_eq!(n, 165);
    assert_eq!(back.fdb_checksum, m.fdb_checksum);
    // one byte short of the filler is truncated input
    assert_eq!(ClientValidation::deserialize(&out[..164], 0).unwrap_err(), DecodeError::TruncatedInput);
}

#[test]
fn fixed_wide_string_layout() {
    let mut out = Vec::new();
    w33("ab").serialize(&mut out);
    assert_eq!(out.len(), 66);
    assert_eq!(&out[..4], &[b'a', 0, b'b', 0]);
    assert!(out[4..].iter().all(|b| *b == 0));
    let (back, _) = LuWStr33::deserialize(&out, 0).unwrap();
    assert_eq!(back.units, units("ab"));
}

#[test]
fn fixed_wide_string_capacity() {
    let longest: String = std::iter::repeat('x').take(32).collect();
    let m = w33(&longest);
    let mut out = Vec::new();
    m.serialize(&mut out);
    let (back, _) = LuWStr33::deserialize(&out, 0).unwrap();
    assert_eq!(back.units.len(), 32);
    let too_long: String = std::iter::repeat('x').take(33).collect();
    assert!(LuWStr33::from_units(units(&too_long)).is_none());
    assert!(LuWStr33::from_units(vec![0x61, 0, 0x62]).is_none());
    assert!(LuWStr42::from_units(vec![0x61; 41]).is_some());
    assert!(LuWStr42::from_units(vec![0x61; 42]).is_none());
    let empty = w33("");
    let mut out = Vec::new();
    empty.serialize(&mut out);
    assert!(out.iter().all(|b| *b == 0));
    let (back, _) = LuWStr33::deserialize(&out, 0).unwrap();
    assert!(back.units.is_empty());
}

#[test]
fn character_create_request_round_trip_and_padding() {
    let m = CharacterCreateRequest {
        char_name: w33("Name"),
        predef_name_ids: (1, 2, 3),
        shirt_color: 0xffff_ffff,
        pants_color: 5,
        hair_style: 6,
        hair_color: 7,
        eyebrow_style: 8,
        eye_style: 9,
        mouth_style: 10,
    };
    let mut out = Vec::new();
    m.serialize(&mut out);
    assert_eq!(out.len(), 128);
    assert!(out[78..87].iter().all(|b| *b == 0));
    assert!(out[91..95].iter().all(|b| *b == 0));
    assert!(out[107..115].iter().all(|b| *b == 0));
    assert_eq!(out[127], 0);
    assert_eq!(&out[87..91], &[0xff, 0xff, 0xff, 0xff]);
    let (back, n) = CharacterCreateRequest::deserialize(&out, 0).unwrap();
    assert_eq!(n, 128);
    assert_eq!(back.char_name, m.char_name);
    assert_eq!(back.predef_name_ids, (1, 2, 3));
    assert_eq!(back.shirt_color, 0xffff_ffff);
    assert_eq!(back.pants_color, 5);
    assert_eq!(back.mouth_style, 10);
}

#[test]
fn inclusive_string_prefix_counts_terminator() {
    let m = GeneralChatMessage { chat_channel: 4, source_id: 0x0102, message: units("ab") };
    let mut out = Vec::new();
    m.serialize(&mut out);
    assert_eq!(out, vec![4, 0x02, 0x01, 3, 0, 0, 0, b'a', 0, b'b', 0, 0, 0]);
    let bytes = [4u8, 0x02, 0x01, 3, 0, 0, 0, b'a', 0, b'b', 0, 0, 0];
    let (back, n) = GeneralChatMessage::deserialize(&bytes, 0).unwrap();
    assert_eq!(n, 13);
    assert_eq!(back.message, units("ab"));
    assert_eq!(back.chat_channel, 4);
    assert_eq!(back.source_id, 0x0102);
}

#[test]
fn inclusive_string_zero_prefix_is_rejected() {
    let bytes = [0u8, 0, 0, 0, 0, 0, 0];
    assert_eq!(GeneralChatMessage::deserialize(&bytes, 0).unwrap_err(), DecodeError::LengthInconsistency);
    let past_end = [0u8, 0, 0, 4, 0, 0, 0, b'a', 0];
    assert_eq!(GeneralChatMessage::deserialize(&past_end, 0).unwrap_err(), DecodeError::LengthInconsistency);
    assert_eq!(GeneralChatMessage::deserialize(&bytes[..6], 0).unwrap_err(), DecodeError::TruncatedInput);
}

#[test]
fn exclusive_string_prefix_counts_text() {
    let m = StringCheck {
        chat_mode: 1,
        chat_channel: 2,
        recipient_name: LuWStr42::from_units(units("friend")).unwrap(),
        string: units("ab"),
    };
    let mut out = Vec::new();
    m.serialize(&mut out);
    assert_eq!(out.len(), 92);
    assert_eq!(&out[86..], &[2, 0, b'a', 0, b'b', 0]);
    let (back, n) = StringCheck::deserialize(&out, 0).unwrap();
    assert_eq!(n, 92);
    assert_eq!(back.string, units("ab"));
    assert_eq!(back.recipient_name.units, units("friend"));
    assert_eq!(StringCheck::deserialize(&out[..91], 0).unwrap_err(), DecodeError::LengthInconsistency);
}

#[test]
fn lossy_text_never_fails() {
    // a lone surrogate decodes without error
    let bytes = [0u8, 0, 0, 2, 0, 0, 0, 0x00, 0xd8, 0, 0];
    let (back, _) = GeneralChatMessage::deserialize(&bytes, 0).unwrap();
    assert_eq!(back.message, vec![0xd800]);
    assert_eq!(back.message_text(), "\u{fffd}");
    let m = GeneralChatMessage { chat_channel: 0, source_id: 0, message: units("héllo") };
    assert_eq!(m.message_text(), "héllo");
    assert_eq!(w33("name").to_text(), "name");
}

#[test]
fn world_message_tags() {
    let cases: Vec<(WorldMessage, u32)> = vec![
        (WorldMessage::ClientValidation(validation()), 1),
        (WorldMessage::CharacterListRequest, 2),
        (WorldMessage::CharacterLoginRequest(CharacterLoginRequest { char_id: 7 }), 4),
        (WorldMessage::SubjectGameMessage(vec![9, 9]), 5),
        (WorldMessage::RouteMessage(RouteMessage::Chat(vec![1])), 21),
        (WorldMessage::RequestFreeTrialRefresh, 32),
    ];
    for (m, tag) in cases {
        let mut out = Vec::new();
        m.serialize(&mut out);
        assert_eq!(&out[..4], &tag.to_le_bytes());
        assert_eq!(out[4], 0);
        let (_, n) = WorldMessage::deserialize(&out, 0).unwrap();
        assert_eq!(n, out.len());
    }
}

#[test]
fn world_message_round_trip() {
    let m = WorldMessage::UgcDownloadFailed(UgcDownloadFailed {
        res_type: UgcResType::Dds,
        blueprint_id: 0x0102_0304_0506_0708,
        status_code: 404,
        char_id: u64::MAX,
    });
    let mut out = Vec::new();
    m.serialize(&mut out);
    assert_eq!(out.len(), 5 + 24);
    match WorldMessage::deserialize(&out, 0).unwrap().0 {
        WorldMessage::UgcDownloadFailed(x) => {
            assert_eq!(x.res_type, UgcResType::Dds);
            assert_eq!(x.blueprint_id, 0x0102_0304_0506_0708);
            assert_eq!(x.status_code, 404);
            assert_eq!(x.char_id, u64::MAX);
        }
        other => panic!("unexpected {:?}", other),
    }
}

#[test]
fn world_message_unknown_tag_is_rejected() {
    // only the tag is there: the error comes before any further read
    assert_eq!(WorldMessage::deserialize(&[3, 1, 0, 0], 0).unwrap_err(), DecodeError::UnknownDiscriminant);
    assert_eq!(WorldMessage::deserialize(&[7, 0, 0, 0, 0, 1, 2], 0).unwrap_err(), DecodeError::UnknownDiscriminant);
    assert_eq!(WorldMessage::deserialize(&[2, 0, 0], 0).unwrap_err(), DecodeError::TruncatedInput);
    assert_eq!(WorldMessage::deserialize(&[2, 0, 0, 0], 0).unwrap_err(), DecodeError::TruncatedInput);
}

#[test]
fn ugc_res_type_unknown() {
    assert_eq!(UgcResType::deserialize(&[4, 0, 0, 0], 0).unwrap_err(), DecodeError::UnknownDiscriminant);
    assert_eq!(UgcResType::deserialize(&[1, 0, 0, 0], 0).unwrap(), (UgcResType::Nif, 4));
}

#[test]
fn route_message_layout() {
    let m = RouteMessage::Chat(vec![0xaa, 0xbb]);
    let mut out = Vec::new();
    m.serialize(&mut out);
    assert_eq!(out, vec![0, 0, 0, 0, 2, 0, 0xaa, 0xbb]);
    // the outer size is ignored
    let bytes = [0x10u8, 0x20, 0x30, 0x40, 2, 0, 0xaa, 0xbb];
    match RouteMessage::deserialize(&bytes, 0).unwrap() {
        (RouteMessage::Chat(d), n) => {
            assert_eq!(d, vec![0xaa, 0xbb]);
            assert_eq!(n, 8);
        }
    }
    assert_eq!(RouteMessage::deserialize(&[0, 0, 0, 0, 4, 0], 0).unwrap_err(), DecodeError::UnknownDiscriminant);
}

#[test]
fn lu_message_envelope() {
    let m = LuMessage::World(WorldMessage::LevelLoadComplete(lu_packets::server::LevelLoadComplete {
        zone_id: ZoneId { map_id: 1100, instance_id: 2, clone_id: 3 },
    }));
    let mut out = Vec::new();
    m.serialize(&mut out);
    assert_eq!(&out[..2], &[4, 0]);
    assert_eq!(&out[2..6], &[19, 0, 0, 0]);
    assert_eq!(out.len(), 2 + 5 + 8);
    match LuMessage::deserialize(&out, 0).unwrap().0 {
        LuMessage::World(WorldMessage::LevelLoadComplete(x)) => {
            assert_eq!(x.zone_id, ZoneId { map_id: 1100, instance_id: 2, clone_id: 3 });
        }
        other => panic!("unexpected {:?}", other),
    }
    assert_eq!(LuMessage::deserialize(&[1, 0, 0], 0).unwrap_err(), DecodeError::UnknownDiscriminant);
    match LuMessage::deserialize(&[0, 0, 5, 6], 0).unwrap() {
        (LuMessage::General(d), 4) => assert_eq!(d, vec![5, 6]),
        other => panic!("unexpected {:?}", other),
    }
}
