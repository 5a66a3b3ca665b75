use mc_protocol::clientbound::{ClientboundKind, ClientboundPacket, PacketSerializationError};
use mc_protocol::data_types::{MCEncode, PrefixedArray, PrefixedOptional, Property};
use mc_protocol::legacy::legacy_server_status;
use mc_protocol::packet::{parse_packet, ConnectionState, RawPacket};
use mc_protocol::serverbound::{PacketParseError, ServerboundKind, ServerboundPacket};
use mc_protocol::var_int::{encode_varint, VarInt};

const STATES: [ConnectionState; 5] = [
    ConnectionState::Handshaking,
    ConnectionState::Status,
    ConnectionState::Login,
    ConnectionState::Configuration,
    ConnectionState::Play,
];

fn handshake() -> ServerboundPacket {
    ServerboundPacket::Handshake {
        protocol_version: VarInt::new(769).unwrap(),
        server_address: "localhost".to_string(),
        server_port: 25_565,
        next_state: VarInt::new(1).unwrap(),
    }
}

fn handshake_frame() -> Vec<u8> {
    let mut frame = vec![16, 0x00, 0x81, 0x06, 9];
    frame.extend_from_slice(b"localhost");
    frame.extend_from_slice(&[0x63, 0xDD, 0x01]);
    frame
}

fn raw(id: isize, data: Vec<u8>) -> RawPacket {
    RawPacket { length: 0, id, data }
}

#[test]
fn frame_of_empty_buffer_is_missing() {
    assert!(parse_packet(&Vec::new()).is_none());
}

#[test]
fn frame_of_legacy_probe() {
    let (packet, used) = parse_packet(&vec![0xFE]).unwrap();
    assert_eq!(packet.length, 1);
    assert_eq!(packet.id, 0xFE);
    assert!(packet.data.is_empty());
    assert_eq!(used, 49);
    let (packet, used) = parse_packet(&vec![0xFE, 0x01, 0xFA, 0x00]).unwrap();
    assert_eq!(packet.id, 0xFE);
    assert!(packet.data.is_empty());
    assert_eq!(used, 49);
}

#[test]
fn frame_of_handshake() {
    let buf = handshake_frame();
    let (packet, used) = parse_packet(&buf).unwrap();
    assert_eq!(packet.length, 16);
    assert_eq!(packet.id, 0);
    assert_eq!(packet.data, buf[2..].to_vec());
    assert_eq!(packet.data.len() as isize, packet.length - 1);
    assert_eq!(used, 17);
}

#[test]
fn frame_leaves_the_next_frame_alone() {
    let mut buf = handshake_frame();
    buf.extend_from_slice(&[1, 0]);
    let (packet, used) = parse_packet(&buf).unwrap();
    assert_eq!(packet.data.len(), 15);
    assert_eq!(used, 17);
    let (next, used) = parse_packet(&buf[17..].to_vec()).unwrap();
    assert_eq!((next.length, next.id, used), (1, 0, 2));
    assert!(next.data.is_empty());
}

#[test]
fn frame_with_two_byte_length_and_id() {
    let mut buf = vec![0x82, 0x01, 0xAC, 0x02];
    buf.extend_from_slice(&[7u8; 128]);
    let (packet, used) = parse_packet(&buf).unwrap();
    assert_eq!(packet.length, 130);
    assert_eq!(packet.id, 300);
    assert_eq!(packet.data, vec![7u8; 128]);
    assert_eq!(used, 132);
}

#[test]
fn frame_needs_every_byte_it_declares() {
    let buf = handshake_frame();
    for cut in 0..buf.len() {
        assert!(parse_packet(&buf[..cut].to_vec()).is_none(), "cut at {cut}");
    }
    assert!(parse_packet(&buf).is_some());
    let mut long = vec![0x82, 0x01, 0xAC, 0x02];
    long.extend_from_slice(&[7u8; 128]);
    for cut in 0..long.len() {
        assert!(parse_packet(&long[..cut].to_vec()).is_none(), "cut at {cut}");
    }
}

#[test]
fn frame_without_room_for_its_id() {
    assert!(parse_packet(&vec![0x00]).is_none());
    assert!(parse_packet(&vec![0x00, 0x00]).is_none());
    assert!(parse_packet(&vec![0x01, 0x80, 0x00]).is_none());
    assert!(parse_packet(&vec![0x02, 0x80, 0x80, 0x00]).is_none());
}

#[test]
fn frame_with_malformed_length() {
    assert!(parse_packet(&vec![0x80, 0x80, 0x80, 0x80, 0x80, 0x00]).is_none());
    assert!(parse_packet(&vec![0x80]).is_none());
}

#[test]
fn state_decides_what_id_zero_means() {
    let buf = handshake_frame();
    let (packet, _) = parse_packet(&buf).unwrap();
    let decoded = ServerboundPacket::try_from(ConnectionState::Handshaking, packet).unwrap();
    assert_eq!(decoded, handshake());
    assert_eq!(
        ServerboundPacket::try_from(ConnectionState::Status, raw(0, Vec::new())),
        Ok(ServerboundPacket::StatusRequest {})
    );
    let login = ServerboundPacket::try_from(
        ConnectionState::Login,
        raw(0, ServerboundPacket::LoginStart { player_name: "rustmc".to_string(), player_uuid: 7 }.payload()),
    );
    assert_eq!(
        login,
        Ok(ServerboundPacket::LoginStart { player_name: "rustmc".to_string(), player_uuid: 7 })
    );
    let body = "{}".to_string().into_mc_data();
    assert_eq!(
        ClientboundPacket::try_from(ConnectionState::Status, raw(0, body.clone())),
        Ok(ClientboundPacket::StatusResponse { json_response: "{}".to_string() })
    );
    assert_eq!(
        ClientboundPacket::try_from(ConnectionState::Login, raw(0, body.clone())),
        Ok(ClientboundPacket::Disconnect { reason: "{}".to_string() })
    );
    assert_eq!(
        ClientboundPacket::try_from(ConnectionState::Configuration, raw(0, body)),
        Ok(ClientboundPacket::CookieRequest { key: "{}".to_string() })
    );
}

#[test]
fn status_response_round_trip() {
    let json = "{\"version\":{\"name\":\"1.21.4\",\"protocol\":769}}";
    let packet = ClientboundPacket::StatusResponse { json_response: json.to_string() };
    let bytes = packet.serialize(ConnectionState::Status).unwrap();
    assert_eq!(&bytes[..3], &[46, 0, 44]);
    assert_eq!(&bytes[3..], json.as_bytes());
    let (raw_packet, used) = parse_packet(&bytes).unwrap();
    assert_eq!(used, bytes.len());
    assert_eq!(raw_packet.length, 46);
    assert_eq!(raw_packet.id, 0);
    let decoded = ClientboundPacket::try_from(ConnectionState::Status, raw_packet).unwrap();
    assert_eq!(decoded, ClientboundPacket::StatusResponse { json_response: json.to_string() });
}

#[test]
fn unknown_ids_are_reported() {
    assert_eq!(
        ServerboundPacket::try_from(ConnectionState::Handshaking, raw(0x01, vec![1, 2, 3])),
        Err(PacketParseError::UnknownPacket { id: 0x01 })
    );
    assert_eq!(
        ServerboundPacket::try_from(ConnectionState::Status, raw(0xFE, Vec::new())),
        Err(PacketParseError::UnknownPacket { id: 0xFE })
    );
    assert_eq!(
        ServerboundPacket::try_from(ConnectionState::Play, raw(0x00, Vec::new())),
        Err(PacketParseError::UnknownPacket { id: 0x00 })
    );
    assert_eq!(
        ServerboundPacket::try_from(ConnectionState::Login, raw(-1, Vec::new())),
        Err(PacketParseError::UnknownPacket { id: -1 })
    );
    assert_eq!(
        ClientboundPacket::try_from(ConnectionState::Handshaking, raw(0x00, Vec::new())),
        Err(PacketParseError::UnknownPacket { id: 0x00 })
    );
    assert_eq!(
        ClientboundPacket::try_from(ConnectionState::Status, raw(0x02, Vec::new())),
        Err(PacketParseError::UnknownPacket { id: 0x02 })
    );
    assert_eq!(
        ClientboundPacket::try_from(ConnectionState::Configuration, raw(0x09, Vec::new())),
        Err(PacketParseError::UnknownPacket { id: 0x09 })
    );
}

#[test]
fn corrupt_payload_names_the_field() {
    let whole = handshake().payload();
    let expect = |cut: usize, field: &str| {
        assert_eq!(
            ServerboundPacket::try_from(
                ConnectionState::Handshaking,
                raw(0, whole[..cut].to_vec())
            ),
            Err(PacketParseError::CorruptPacket { problematic_field: field.to_string() }),
            "cut at {cut}"
        );
    };
    expect(0, "protocol_version");
    expect(1, "protocol_version");
    expect(2, "server_address");
    expect(5, "server_address");
    expect(11, "server_address");
    expect(12, "server_port");
    expect(13, "server_port");
    expect(14, "next_state");
    assert_eq!(
        ServerboundPacket::try_from(ConnectionState::Handshaking, raw(0, whole)),
        Ok(handshake())
    );
    assert_eq!(
        ServerboundPacket::try_from(ConnectionState::Status, raw(1, vec![0; 7])),
        Err(PacketParseError::CorruptPacket { problematic_field: "timestamp".to_string() })
    );
    assert_eq!(
        ClientboundPacket::try_from(ConnectionState::Status, raw(0, vec![2, 0xC3, 0x28])),
        Err(PacketParseError::CorruptPacket { problematic_field: "json_response".to_string() })
    );
}

#[test]
fn payload_may_be_followed_by_more() {
    let mut data = handshake().payload();
    data.extend_from_slice(&[9, 9, 9]);
    assert_eq!(
        ServerboundPacket::try_from(ConnectionState::Handshaking, raw(0, data)),
        Ok(handshake())
    );
}

#[test]
fn packet_without_id_in_state_is_refused() {
    let packet = ClientboundPacket::StatusResponse { json_response: "{}".to_string() };
    assert_eq!(
        packet.serialize(ConnectionState::Login),
        Err(PacketSerializationError::InvalidState {
            packet: "StatusResponse".to_string(),
            state: ConnectionState::Login,
        })
    );
    assert_eq!(
        ClientboundPacket::ResetChat {}.serialize(ConnectionState::Play),
        Err(PacketSerializationError::InvalidState {
            packet: "ResetChat".to_string(),
            state: ConnectionState::Play,
        })
    );
    assert_eq!(
        handshake().serialize(ConnectionState::Status),
        Err(PacketSerializationError::InvalidState {
            packet: "Handshake".to_string(),
            state: ConnectionState::Status,
        })
    );
}

#[test]
fn one_packet_under_two_ids() {
    let ping = || ServerboundPacket::PingRequest { timestamp: -2 };
    assert_eq!(ping().get_id(ConnectionState::Status), Some(0x01));
    assert_eq!(ping().get_id(ConnectionState::Play), Some(0x24));
    assert_eq!(ping().get_id(ConnectionState::Login), None);
    let data = (-2i64).into_mc_data();
    assert_eq!(
        ServerboundPacket::try_from(ConnectionState::Status, raw(0x01, data.clone())),
        Ok(ping())
    );
    assert_eq!(
        ServerboundPacket::try_from(ConnectionState::Play, raw(0x24, data.clone())),
        Ok(ping())
    );
    assert_eq!(
        ping().serialize(ConnectionState::Play).unwrap(),
        vec![9, 0x24, 0xFF, 0xFF, 0xFF, 0xFF, 0xFF, 0xFF, 0xFF, 0xFE]
    );
    let cookie = || ClientboundPacket::CookieRequest { key: "k".to_string() };
    assert_eq!(cookie().id(ConnectionState::Login), Some(0x05));
    assert_eq!(cookie().id(ConnectionState::Configuration), Some(0x00));
    assert_eq!(cookie().id(ConnectionState::Status), None);
    assert_eq!(
        cookie().serialize(ConnectionState::Login).unwrap(),
        vec![3, 5, 1, b'k']
    );
    assert_eq!(
        cookie().serialize(ConnectionState::Configuration).unwrap(),
        vec![3, 0, 1, b'k']
    );
}

#[test]
fn names_and_kinds() {
    assert_eq!(handshake().get_name(), Some("Handshake"));
    assert_eq!(handshake().name(), "Handshake");
    assert_eq!(ServerboundPacket::LegacyServerListPing {}.get_name(), Some("LegacyServerListPing"));
    assert_eq!(ClientboundPacket::AddResourcePack {}.name(), "AddResourcePack");
    assert_eq!(
        ServerboundKind::lookup(ConnectionState::Handshaking, 0xFE),
        Some(ServerboundKind::LegacyServerListPing)
    );
    assert_eq!(
        ServerboundKind::lookup(ConnectionState::Play, 0x0C),
        Some(ServerboundKind::ClientInformation)
    );
    assert_eq!(ServerboundKind::lookup(ConnectionState::Play, 0x0D), None);
    assert_eq!(
        ClientboundKind::lookup(ConnectionState::Login, 0x02),
        Some(ClientboundKind::LoginSuccess)
    );
    assert_eq!(
        ClientboundKind::lookup(ConnectionState::Configuration, 0x02),
        Some(ClientboundKind::Disconnect)
    );
    assert_eq!(ClientboundKind::lookup(ConnectionState::Play, 0x00), None);
}

#[test]
fn handshake_frame_is_exact() {
    assert_eq!(
        handshake().serialize(ConnectionState::Handshaking).unwrap(),
        handshake_frame()
    );
}

fn serverbound_samples() -> Vec<ServerboundPacket> {
    vec![
        ServerboundPacket::LegacyServerListPing {},
        handshake(),
        ServerboundPacket::StatusRequest {},
        ServerboundPacket::PingRequest { timestamp: i64::MIN },
        ServerboundPacket::LoginStart {
            player_name: "rustmc".to_string(),
            player_uuid: 0x4566_e69f_c907_48ee_8d71_d7ba_5aa0_0d20,
        },
        ServerboundPacket::EncryptionResponse {
            shared_secret: PrefixedArray::new(vec![1, -2, 3]),
            verify_token: PrefixedArray::new(vec![-128, 127]),
        },
        ServerboundPacket::LoginPluginResponse {
            message_id: VarInt::new(300).unwrap(),
            data: PrefixedOptional(Some(vec![0, -1, 5])),
        },
        ServerboundPacket::LoginPluginResponse {
            message_id: VarInt::new(0).unwrap(),
            data: PrefixedOptional(None),
        },
        ServerboundPacket::LoginAcknowledged {},
        ServerboundPacket::CookieResponse {
            key: "minecraft:cookie".to_string(),
            payload: PrefixedOptional(Some(PrefixedArray::new(vec![9, 8, 7]))),
        },
        ServerboundPacket::ClientInformation {
            locale: "en_GB".to_string(),
            view_distance: -3,
            chat_mode: VarInt::new(2).unwrap(),
            chat_colors: true,
            displayed_skin_parts: 0x7F,
            main_hand: VarInt::new(1).unwrap(),
            enable_text_filtering: false,
            allow_server_listings: true,
            particle_status: VarInt::new(0).unwrap(),
        },
        ServerboundPacket::FinishConfiguration {},
    ]
}

fn clientbound_samples() -> Vec<ClientboundPacket> {
    vec![
        ClientboundPacket::StatusResponse { json_response: "{\"a\":1}".to_string() },
        ClientboundPacket::PongResponse { timestamp: 1_700_000_000_000 },
        ClientboundPacket::Disconnect { reason: "bye".to_string() },
        ClientboundPacket::EncryptionRequest {
            server_id: String::new(),
            public_key: PrefixedArray::new(vec![48, -126, 1]),
            verify_token: PrefixedArray::new(vec![1, 2, 3, 4]),
            should_authenticate: true,
        },
        ClientboundPacket::LoginSuccess {
            uuid: u128::MAX - 5,
            username: "rustmc".to_string(),
            properties: PrefixedArray::new(vec![
                Property("a".to_string(), "b".to_string(), PrefixedOptional(None)),
                Property(
                    "textures".to_string(),
                    "value".to_string(),
                    PrefixedOptional(Some("signature".to_string())),
                ),
            ]),
        },
        ClientboundPacket::SetCompression { threshold: VarInt::new(256).unwrap() },
        ClientboundPacket::LoginPluginRequest {
            message_id: VarInt::new(5).unwrap(),
            channel: "brand".to_string(),
            data: vec![1, 2, -3],
        },
        ClientboundPacket::CookieRequest { key: "key".to_string() },
        ClientboundPacket::PluginMessage { channel: "minecraft:brand".to_string(), data: Vec::new() },
        ClientboundPacket::FinishConfiguration {},
        ClientboundPacket::KeepAlive { keep_alive_id: -1 },
        ClientboundPacket::Ping { id: i32::MIN },
        ClientboundPacket::ResetChat {},
        ClientboundPacket::RegistryData { uuid: PrefixedOptional(Some(42)) },
        ClientboundPacket::RegistryData { uuid: PrefixedOptional(None) },
        ClientboundPacket::AddResourcePack {},
    ]
}

#[test]
fn every_serverbound_packet_round_trips_in_every_state_it_has() {
    let mut framed = 0;
    for (index, packet) in serverbound_samples().into_iter().enumerate() {
        for state in STATES {
            let again = serverbound_samples().swap_remove(index);
            match packet.get_id(state) {
                Some(id) => {
                    let bytes = again.serialize(state).unwrap();
                    if bytes[0] == 0xFE {
                        continue;
                    }
                    let (raw_packet, used) = parse_packet(&bytes).unwrap();
                    assert_eq!(used, bytes.len());
                    assert_eq!(raw_packet.id, id as isize);
                    assert_eq!(raw_packet.length as usize, bytes.len() - 1);
                    assert_eq!(ServerboundPacket::try_from(state, raw_packet).as_ref(), Ok(&packet));
                    framed += 1;
                }
                None => assert!(again.serialize(state).is_err()),
            }
        }
    }
    assert_eq!(framed, 14);
}

#[test]
fn every_clientbound_packet_round_trips_in_every_state_it_has() {
    let mut framed = 0;
    for (index, packet) in clientbound_samples().into_iter().enumerate() {
        for state in STATES {
            let again = clientbound_samples().swap_remove(index);
            match packet.id(state) {
                Some(id) => {
                    let bytes = again.serialize(state).unwrap();
                    let (raw_packet, used) = parse_packet(&bytes).unwrap();
                    assert_eq!(used, bytes.len());
                    assert_eq!(raw_packet.id, id as isize);
                    assert_eq!(ClientboundPacket::try_from(state, raw_packet).as_ref(), Ok(&packet));
                    framed += 1;
                }
                None => assert!(again.serialize(state).is_err()),
            }
        }
    }
    assert_eq!(framed, 18);
}

#[test]
fn legacy_probe_decodes_without_fields() {
    let (raw_packet, _) = parse_packet(&vec![0xFE]).unwrap();
    assert_eq!(
        ServerboundPacket::try_from(ConnectionState::Handshaking, raw_packet),
        Ok(ServerboundPacket::LegacyServerListPing {})
    );
}

#[test]
fn frame_that_starts_like_a_probe_is_taken_for_one() {
    let packet = ClientboundPacket::Disconnect { reason: "r".repeat(251) };
    let bytes = packet.serialize(ConnectionState::Login).unwrap();
    assert_eq!(&bytes[..2], &[0xFE, 0x01]);
    let (raw_packet, used) = parse_packet(&bytes).unwrap();
    assert_eq!((raw_packet.id, used), (0xFE, 49));
}

#[test]
fn legacy_status_is_utf16_behind_marker_and_count() {
    let packet = legacy_server_status(127, "1.21.4", "A", 1, 20);
    let text = "\u{a7}1\u{0}127\u{0}1.21.4\u{0}A\u{0}1\u{0}20";
    let units: Vec<u16> = text.encode_utf16().collect();
    let mut expected = vec![0xFF];
    expected.extend_from_slice(&(units.len() as u16).to_be_bytes());
    for unit in &units {
        expected.extend_from_slice(&unit.to_be_bytes());
    }
    assert_eq!(packet, expected);
    assert_eq!(&packet[..9], &[0xFF, 0x00, 0x14, 0x00, 0xA7, 0x00, 0x31, 0x00, 0x00]);
    assert_eq!(packet.len(), 3 + 2 * 20);
}

#[test]
fn legacy_status_with_negative_numbers_and_wide_characters() {
    let packet = legacy_server_status(-1, "\u{1F600}", "caf\u{e9} \u{4e16}", i32::MIN, i32::MAX);
    let text = format!(
        "\u{a7}1\u{0}{}\u{0}{}\u{0}{}\u{0}{}\u{0}{}",
        -1,
        "\u{1F600}",
        "caf\u{e9} \u{4e16}",
        i32::MIN,
        i32::MAX
    );
    let units: Vec<u16> = text.encode_utf16().collect();
    let mut expected = vec![0xFF];
    expected.extend_from_slice(&(units.len() as u16).to_be_bytes());
    for unit in &units {
        expected.extend_from_slice(&unit.to_be_bytes());
    }
    assert_eq!(packet, expected);
    let zero = legacy_server_status(0, "", "", 0, 0);
    assert_eq!(
        zero,
        vec![0xFF, 0, 10, 0, 0xA7, 0, b'1', 0, 0, 0, b'0', 0, 0, 0, 0, 0, 0, 0, b'0', 0, 0, 0, b'0']
    );
}

#[test]
fn frame_prefix_is_the_length_of_id_and_payload() {
    let packet = ClientboundPacket::PluginMessage {
        channel: "c".repeat(100),
        data: vec![0; 100],
    };
    let payload_len = 1 + 100 + 1 + 100;
    let bytes = packet.serialize(ConnectionState::Configuration).unwrap();
    let prefix = encode_varint(payload_len + 1);
    assert_eq!(&bytes[..prefix.len()], &prefix[..]);
    assert_eq!(bytes[prefix.len()], 0x01);
    assert_eq!(bytes.len(), prefix.len() + 1 + payload_len);
}
