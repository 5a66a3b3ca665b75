//! The packets that the server receives: what each id means in each connection
//! state, and the fields of each packet.

use crate::clientbound::PacketSerializationError;
use crate::data_types::{PrefixedArray, PrefixedOptional};
use crate::packet::{
    frame, frame_at, frame_payload, frameable, lemma_frame_round_trip, ConnectionState, RawPacket,
    LEGACY_PING,
};
use crate::schema::{
    fields_encodable, fits, lemma_fields_round_trip, lemma_parse_end, lemma_parse_start,
    lemma_wire_end, lemma_wire_start, parse_fields, read_next, wire_fields, write_next, Field,
    FieldType, FieldValue,
};
use crate::var_int::{varint_encode, VarInt};
use vstd::prelude::*;

verus! {

/// Why a raw packet could not be decoded.
#[derive(Debug, PartialEq)]
pub enum PacketParseError {
    /// The field of this name could not be read from the payload; the fields
    /// before it could.
    CorruptPacket { problematic_field: String },
    /// The id means nothing in the connection's state.
    UnknownPacket { id: isize },
}

/// The error for a payload whose field `name` cannot be read.
pub(crate) fn corrupt(name: &str) -> (e: PacketParseError)
    ensures
        e matches PacketParseError::CorruptPacket { problematic_field } && problematic_field@
            == name@,
{
    PacketParseError::CorruptPacket { problematic_field: name.to_owned() }
}

/// The packets of this direction, by name.
#[derive(Debug, Clone, Copy, PartialEq, Eq)]
pub enum ServerboundKind {
    LegacyServerListPing,
    Handshake,
    StatusRequest,
    PingRequest,
    LoginStart,
    EncryptionResponse,
    LoginPluginResponse,
    LoginAcknowledged,
    CookieResponse,
    ClientInformation,
    FinishConfiguration,
}

/// A packet that a client sends, with its fields.
#[derive(Debug, PartialEq)]
pub enum ServerboundPacket {
    LegacyServerListPing {},
    Handshake {
        protocol_version: VarInt,
        server_address: String,
        server_port: u16,
        next_state: VarInt,
    },
    StatusRequest {},
    PingRequest { timestamp: i64 },
    LoginStart { player_name: String, player_uuid: u128 },
    EncryptionResponse { shared_secret: PrefixedArray<i8>, verify_token: PrefixedArray<i8> },
    LoginPluginResponse { message_id: VarInt, data: PrefixedOptional<Vec<i8>> },
    LoginAcknowledged {},
    CookieResponse { key: String, payload: PrefixedOptional<PrefixedArray<i8>> },
    ClientInformation {
        locale: String,
        view_distance: i8,
        chat_mode: VarInt,
        chat_colors: bool,
        displayed_skin_parts: u8,
        main_hand: VarInt,
        enable_text_filtering: bool,
        allow_server_listings: bool,
        particle_status: VarInt,
    },
    FinishConfiguration {},
}

impl ServerboundKind {
    /// The packet that `id` means in `state`, if it means any.
    pub open spec fn at(state: ConnectionState, id: int) -> Option<ServerboundKind> {
        match state {
            ConnectionState::Handshaking => if id == 0xFE {
                Some(ServerboundKind::LegacyServerListPing)
            } else if id == 0x00 {
                Some(ServerboundKind::Handshake)
            } else {
                None
            },
            ConnectionState::Status => if id == 0x00 {
                Some(ServerboundKind::StatusRequest)
            } else if id == 0x01 {
                Some(ServerboundKind::PingRequest)
            } else {
                None
            },
            ConnectionState::Login => if id == 0x00 {
                Some(ServerboundKind::LoginStart)
            } else if id == 0x01 {
                Some(ServerboundKind::EncryptionResponse)
            } else if id == 0x02 {
                Some(ServerboundKind::LoginPluginResponse)
            } else if id == 0x03 {
                Some(ServerboundKind::LoginAcknowledged)
            } else if id == 0x04 {
                Some(ServerboundKind::CookieResponse)
            } else {
                None
            },
            ConnectionState::Configuration => if id == 0x00 {
                Some(ServerboundKind::ClientInformation)
            } else if id == 0x03 {
                Some(ServerboundKind::FinishConfiguration)
            } else {
                None
            },
            ConnectionState::Play => if id == 0x24 {
                Some(ServerboundKind::PingRequest)
            } else if id == 0x0C {
                Some(ServerboundKind::ClientInformation)
            } else {
                None
            },
        }
    }

    /// The id under which the packet travels in `state`, if it may be sent there.
    pub open spec fn id_in(self, state: ConnectionState) -> Option<nat> {
        match (self, state) {
            (ServerboundKind::LegacyServerListPing, ConnectionState::Handshaking) => Some(0xFEnat),
            (ServerboundKind::Handshake, ConnectionState::Handshaking) => Some(0x00nat),
            (ServerboundKind::StatusRequest, ConnectionState::Status) => Some(0x00nat),
            (ServerboundKind::PingRequest, ConnectionState::Status) => Some(0x01nat),
            (ServerboundKind::PingRequest, ConnectionState::Play) => Some(0x24nat),
            (ServerboundKind::LoginStart, ConnectionState::Login) => Some(0x00nat),
            (ServerboundKind::EncryptionResponse, ConnectionState::Login) => Some(0x01nat),
            (ServerboundKind::LoginPluginResponse, ConnectionState::Login) => Some(0x02nat),
            (ServerboundKind::LoginAcknowledged, ConnectionState::Login) => Some(0x03nat),
            (ServerboundKind::CookieResponse, ConnectionState::Login) => Some(0x04nat),
            (ServerboundKind::ClientInformation, ConnectionState::Configuration) => Some(0x00nat),
            (ServerboundKind::ClientInformation, ConnectionState::Play) => Some(0x0Cnat),
            (ServerboundKind::FinishConfiguration, ConnectionState::Configuration) => Some(0x03nat),
            _ => None,
        }
    }

    /// The packet's name.
    pub open spec fn name(self) -> Seq<char> {
        match self {
            ServerboundKind::LegacyServerListPing => "LegacyServerListPing"@,
            ServerboundKind::Handshake => "Handshake"@,
            ServerboundKind::StatusRequest => "StatusRequest"@,
            ServerboundKind::PingRequest => "PingRequest"@,
            ServerboundKind::LoginStart => "LoginStart"@,
            ServerboundKind::EncryptionResponse => "EncryptionResponse"@,
            ServerboundKind::LoginPluginResponse => "LoginPluginResponse"@,
            ServerboundKind::LoginAcknowledged => "LoginAcknowledged"@,
            ServerboundKind::CookieResponse => "CookieResponse"@,
            ServerboundKind::ClientInformation => "ClientInformation"@,
            ServerboundKind::FinishConfiguration => "FinishConfiguration"@,
        }
    }

    /// The packet's fields, in wire order.
    pub open spec fn schema(self) -> Seq<Field> {
        match self {
            ServerboundKind::LegacyServerListPing => Seq::empty(),
            ServerboundKind::Handshake => seq![
                Field { name: "protocol_version"@, ty: FieldType::VarInt },
                Field { name: "server_address"@, ty: FieldType::Text },
                Field { name: "server_port"@, ty: FieldType::U16 },
                Field { name: "next_state"@, ty: FieldType::VarInt },
            ],
            ServerboundKind::StatusRequest => Seq::empty(),
            ServerboundKind::PingRequest => seq![
                Field { name: "timestamp"@, ty: FieldType::I64 },
            ],
            ServerboundKind::LoginStart => seq![
                Field { name: "player_name"@, ty: FieldType::Text },
                Field { name: "player_uuid"@, ty: FieldType::U128 },
            ],
            ServerboundKind::EncryptionResponse => seq![
                Field { name: "shared_secret"@, ty: FieldType::ByteArray },
                Field { name: "verify_token"@, ty: FieldType::ByteArray },
            ],
            ServerboundKind::LoginPluginResponse => seq![
                Field { name: "message_id"@, ty: FieldType::VarInt },
                Field { name: "data"@, ty: FieldType::OptionalByteArray },
            ],
            ServerboundKind::LoginAcknowledged => Seq::empty(),
            ServerboundKind::CookieResponse => seq![
                Field { name: "key"@, ty: FieldType::Text },
                Field { name: "payload"@, ty: FieldType::OptionalByteArray },
            ],
            ServerboundKind::ClientInformation => seq![
                Field { name: "locale"@, ty: FieldType::Text },
                Field { name: "view_distance"@, ty: FieldType::I8 },
                Field { name: "chat_mode"@, ty: FieldType::VarInt },
                Field { name: "chat_colors"@, ty: FieldType::Bool },
                Field { name: "displayed_skin_parts"@, ty: FieldType::U8 },
                Field { name: "main_hand"@, ty: FieldType::VarInt },
                Field { name: "enable_text_filtering"@, ty: FieldType::Bool },
                Field { name: "allow_server_listings"@, ty: FieldType::Bool },
                Field { name: "particle_status"@, ty: FieldType::VarInt },
            ],
            ServerboundKind::FinishConfiguration => Seq::empty(),
        }
    }

    /// Looks `id` up in the table of `state`.
    pub fn lookup(state: ConnectionState, id: isize) -> (r: Option<ServerboundKind>)
        ensures
            r == ServerboundKind::at(state, id as int),
    {
        match state {
            ConnectionState::Handshaking => if id == 0xFE {
                Some(ServerboundKind::LegacyServerListPing)
            } else if id == 0x00 {
                Some(ServerboundKind::Handshake)
            } else {
                None
            },
            ConnectionState::Status => if id == 0x00 {
                Some(ServerboundKind::StatusRequest)
            } else if id == 0x01 {
                Some(ServerboundKind::PingRequest)
            } else {
                None
            },
            ConnectionState::Login => if id == 0x00 {
                Some(ServerboundKind::LoginStart)
            } else if id == 0x01 {
                Some(ServerboundKind::EncryptionResponse)
            } else if id == 0x02 {
                Some(ServerboundKind::LoginPluginResponse)
            } else if id == 0x03 {
                Some(ServerboundKind::LoginAcknowledged)
            } else if id == 0x04 {
                Some(ServerboundKind::CookieResponse)
            } else {
                None
            },
            ConnectionState::Configuration => if id == 0x00 {
                Some(ServerboundKind::ClientInformation)
            } else if id == 0x03 {
                Some(ServerboundKind::FinishConfiguration)
            } else {
                None
            },
            ConnectionState::Play => if id == 0x24 {
                Some(ServerboundKind::PingRequest)
            } else if id == 0x0C {
                Some(ServerboundKind::ClientInformation)
            } else {
                None
            },
        }
    }
}

impl ServerboundPacket {
    /// Which packet this is.
    pub open spec fn kind(&self) -> ServerboundKind {
        match self {
            ServerboundPacket::LegacyServerListPing { .. } => ServerboundKind::LegacyServerListPing,
            ServerboundPacket::Handshake { .. } => ServerboundKind::Handshake,
            ServerboundPacket::StatusRequest { .. } => ServerboundKind::StatusRequest,
            ServerboundPacket::PingRequest { .. } => ServerboundKind::PingRequest,
            ServerboundPacket::LoginStart { .. } => ServerboundKind::LoginStart,
            ServerboundPacket::EncryptionResponse { .. } => ServerboundKind::EncryptionResponse,
            ServerboundPacket::LoginPluginResponse { .. } => ServerboundKind::LoginPluginResponse,
            ServerboundPacket::LoginAcknowledged { .. } => ServerboundKind::LoginAcknowledged,
            ServerboundPacket::CookieResponse { .. } => ServerboundKind::CookieResponse,
            ServerboundPacket::ClientInformation { .. } => ServerboundKind::ClientInformation,
            ServerboundPacket::FinishConfiguration { .. } => ServerboundKind::FinishConfiguration,
        }
    }

    /// The values of the packet's fields, in wire order.
    pub open spec fn fields(&self) -> Seq<FieldValue> {
        match self {
            ServerboundPacket::LegacyServerListPing {} => Seq::empty(),
            ServerboundPacket::Handshake {
                protocol_version,
                server_address,
                server_port,
                next_state,
            } => seq![
                FieldValue::VarInt(protocol_version@),
                FieldValue::Text(server_address@),
                FieldValue::U16(*server_port),
                FieldValue::VarInt(next_state@),
            ],
            ServerboundPacket::StatusRequest {} => Seq::empty(),
            ServerboundPacket::PingRequest { timestamp } => seq![
                FieldValue::I64(*timestamp),
            ],
            ServerboundPacket::LoginStart { player_name, player_uuid } => seq![
                FieldValue::Text(player_name@),
                FieldValue::U128(*player_uuid),
            ],
            ServerboundPacket::EncryptionResponse { shared_secret, verify_token } => seq![
                FieldValue::ByteArray(shared_secret@),
                FieldValue::ByteArray(verify_token@),
            ],
            ServerboundPacket::LoginPluginResponse { message_id, data } => seq![
                FieldValue::VarInt(message_id@),
                FieldValue::OptionalByteArray(data@),
            ],
            ServerboundPacket::LoginAcknowledged {} => Seq::empty(),
            ServerboundPacket::CookieResponse { key, payload } => seq![
                FieldValue::Text(key@),
                FieldValue::OptionalByteArray(payload@),
            ],
            ServerboundPacket::ClientInformation {
                locale,
                view_distance,
                chat_mode,
                chat_colors,
                displayed_skin_parts,
                main_hand,
                enable_text_filtering,
                allow_server_listings,
                particle_status,
            } => seq![
                FieldValue::Text(locale@),
                FieldValue::I8(*view_distance),
                FieldValue::VarInt(chat_mode@),
                FieldValue::Bool(*chat_colors),
                FieldValue::U8(*displayed_skin_parts),
                FieldValue::VarInt(main_hand@),
                FieldValue::Bool(*enable_text_filtering),
                FieldValue::Bool(*allow_server_listings),
                FieldValue::VarInt(particle_status@),
            ],
            ServerboundPacket::FinishConfiguration {} => Seq::empty(),
        }
    }

    /// The id under which the packet travels in `state`.
    pub fn get_id(&self, state: ConnectionState) -> (r: Option<usize>)
        ensures
            match self.kind().id_in(state) {
                Some(id) => r == Some(id as usize),
                None => r is None,
            },
    {
        match (self, state) {
            (ServerboundPacket::LegacyServerListPing { .. }, ConnectionState::Handshaking) => {
                Some(0xFE)
            },
            (ServerboundPacket::Handshake { .. }, ConnectionState::Handshaking) => Some(0x00),
            (ServerboundPacket::StatusRequest { .. }, ConnectionState::Status) => Some(0x00),
            (ServerboundPacket::PingRequest { .. }, ConnectionState::Status) => Some(0x01),
            (ServerboundPacket::PingRequest { .. }, ConnectionState::Play) => Some(0x24),
            (ServerboundPacket::LoginStart { .. }, ConnectionState::Login) => Some(0x00),
            (ServerboundPacket::EncryptionResponse { .. }, ConnectionState::Login) => Some(0x01),
            (ServerboundPacket::LoginPluginResponse { .. }, ConnectionState::Login) => Some(0x02),
            (ServerboundPacket::LoginAcknowledged { .. }, ConnectionState::Login) => Some(0x03),
            (ServerboundPacket::CookieResponse { .. }, ConnectionState::Login) => Some(0x04),
            (ServerboundPacket::ClientInformation { .. }, ConnectionState::Configuration) => {
                Some(0x00)
            },
            (ServerboundPacket::ClientInformation { .. }, ConnectionState::Play) => Some(0x0C),
            (ServerboundPacket::FinishConfiguration { .. }, ConnectionState::Configuration) => {
                Some(0x03)
            },
            _ => None,
        }
    }

    /// The packet's name.
    pub fn name(&self) -> (name: &str)
        ensures
            name@ == self.kind().name(),
    {
        match self {
            ServerboundPacket::LegacyServerListPing { .. } => "LegacyServerListPing",
            ServerboundPacket::Handshake { .. } => "Handshake",
            ServerboundPacket::StatusRequest { .. } => "StatusRequest",
            ServerboundPacket::PingRequest { .. } => "PingRequest",
            ServerboundPacket::LoginStart { .. } => "LoginStart",
            ServerboundPacket::EncryptionResponse { .. } => "EncryptionResponse",
            ServerboundPacket::LoginPluginResponse { .. } => "LoginPluginResponse",
            ServerboundPacket::LoginAcknowledged { .. } => "LoginAcknowledged",
            ServerboundPacket::CookieResponse { .. } => "CookieResponse",
            ServerboundPacket::ClientInformation { .. } => "ClientInformation",
            ServerboundPacket::FinishConfiguration { .. } => "FinishConfiguration",
        }
    }

    /// The packet's name.
    pub fn get_name(&self) -> (r: Option<&str>)
        ensures
            r matches Some(name) && name@ == self.kind().name(),
    {
        Some(self.name())
    }

    /// The packet's payload: its fields, written in wire order.
    pub fn payload(self) -> (out: Vec<u8>)
        requires
            fields_encodable(self.fields()),
        ensures
            out@ == wire_fields(self.fields()),
    {
        let ghost values: Seq<FieldValue> = self.fields();
        let mut encoded_packet: Vec<u8> = Vec::new();
        proof {
            lemma_wire_start(values);
        }
        match self {
            ServerboundPacket::LegacyServerListPing {} => {},
            ServerboundPacket::Handshake {
                protocol_version,
                server_address,
                server_port,
                next_state,
            } => {
                write_next(&mut encoded_packet, protocol_version, Ghost(values), Ghost(0));
                write_next(&mut encoded_packet, server_address, Ghost(values), Ghost(1));
                write_next(&mut encoded_packet, server_port, Ghost(values), Ghost(2));
                write_next(&mut encoded_packet, next_state, Ghost(values), Ghost(3));
            },
            ServerboundPacket::StatusRequest {} => {},
            ServerboundPacket::PingRequest { timestamp } => {
                write_next(&mut encoded_packet, timestamp, Ghost(values), Ghost(0));
            },
            ServerboundPacket::LoginStart { player_name, player_uuid } => {
                write_next(&mut encoded_packet, player_name, Ghost(values), Ghost(0));
                write_next(&mut encoded_packet, player_uuid, Ghost(values), Ghost(1));
            },
            ServerboundPacket::EncryptionResponse { shared_secret, verify_token } => {
                write_next(&mut encoded_packet, shared_secret, Ghost(values), Ghost(0));
                write_next(&mut encoded_packet, verify_token, Ghost(values), Ghost(1));
            },
            ServerboundPacket::LoginPluginResponse { message_id, data } => {
                write_next(&mut encoded_packet, message_id, Ghost(values), Ghost(0));
                write_next(&mut encoded_packet, data, Ghost(values), Ghost(1));
            },
            ServerboundPacket::LoginAcknowledged {} => {},
            ServerboundPacket::CookieResponse { key, payload } => {
                write_next(&mut encoded_packet, key, Ghost(values), Ghost(0));
                write_next(&mut encoded_packet, payload, Ghost(values), Ghost(1));
            },
            ServerboundPacket::ClientInformation {
                locale,
                view_distance,
                chat_mode,
                chat_colors,
                displayed_skin_parts,
                main_hand,
                enable_text_filtering,
                allow_server_listings,
                particle_status,
            } => {
                write_next(&mut encoded_packet, locale, Ghost(values), Ghost(0));
                write_next(&mut encoded_packet, view_distance, Ghost(values), Ghost(1));
                write_next(&mut encoded_packet, chat_mode, Ghost(values), Ghost(2));
                write_next(&mut encoded_packet, chat_colors, Ghost(values), Ghost(3));
                write_next(&mut encoded_packet, displayed_skin_parts, Ghost(values), Ghost(4));
                write_next(&mut encoded_packet, main_hand, Ghost(values), Ghost(5));
                write_next(&mut encoded_packet, enable_text_filtering, Ghost(values), Ghost(6));
                write_next(&mut encoded_packet, allow_server_listings, Ghost(values), Ghost(7));
                write_next(&mut encoded_packet, particle_status, Ghost(values), Ghost(8));
            },
            ServerboundPacket::FinishConfiguration {} => {},
        }
        proof {
            lemma_wire_end(values, encoded_packet@);
        }
        encoded_packet
    }

    /// Frames the packet for `state`: length, id, payload. A packet that has no
    /// id in `state` is refused.
    pub fn serialize(self, state: ConnectionState) -> (r: Result<
        Vec<u8>,
        PacketSerializationError,
    >)
        requires
            fields_encodable(self.fields()),
            self.kind().id_in(state) matches Some(id) ==> frameable(
                id,
                wire_fields(self.fields()).len(),
            ),
        ensures
            match self.kind().id_in(state) {
                Some(id) => r matches Ok(bytes) && bytes@ == frame(
                    id,
                    wire_fields(self.fields()),
                ),
                None => r matches Err(
                    PacketSerializationError::InvalidState { packet, state: refused },
                ) && packet@ == self.kind().name() && refused == state,
            },
    {
        let id: usize = match self.get_id(state) {
            Some(id) => id,
            None => {
                let packet: String = self.name().to_owned();
                return Err(PacketSerializationError::InvalidState { packet, state });
            },
        };
        let encoded_packet: Vec<u8> = self.payload();
        Ok(frame_payload(id, encoded_packet))
    }

    /// Decodes a raw packet under `state`: finds what its id means there, then
    /// reads each field of that packet in order from the payload.
    pub fn try_from(state: ConnectionState, raw_packet: RawPacket) -> (r: Result<
        Self,
        PacketParseError,
    >)
        ensures
            match ServerboundKind::at(state, raw_packet.id as int) {
                Some(kind) => match parse_fields(kind.schema(), raw_packet.data@) {
                    Ok(values) => r matches Ok(packet) && packet.kind() == kind
                        && packet.fields() == values,
                    Err(name) => r matches Err(
                        PacketParseError::CorruptPacket { problematic_field },
                    ) && problematic_field@ == name,
                },
                None => r matches Err(PacketParseError::UnknownPacket { id }) && id
                    == raw_packet.id,
            },
    {
        let kind: ServerboundKind = match ServerboundKind::lookup(state, raw_packet.id) {
            Some(kind) => kind,
            None => {
                return Err(PacketParseError::UnknownPacket { id: raw_packet.id });
            },
        };
        match kind {
            ServerboundKind::LegacyServerListPing => {
                decode_legacy_server_list_ping(&raw_packet.data)
            },
            ServerboundKind::Handshake => decode_handshake(&raw_packet.data),
            ServerboundKind::StatusRequest => decode_status_request(&raw_packet.data),
            ServerboundKind::PingRequest => decode_ping_request(&raw_packet.data),
            ServerboundKind::LoginStart => decode_login_start(&raw_packet.data),
            ServerboundKind::EncryptionResponse => decode_encryption_response(&raw_packet.data),
            ServerboundKind::LoginPluginResponse => decode_login_plugin_response(&raw_packet.data),
            ServerboundKind::LoginAcknowledged => decode_login_acknowledged(&raw_packet.data),
            ServerboundKind::CookieResponse => decode_cookie_response(&raw_packet.data),
            ServerboundKind::ClientInformation => decode_client_information(&raw_packet.data),
            ServerboundKind::FinishConfiguration => decode_finish_configuration(&raw_packet.data),
        }
    }
}

/// Reads the fields of `LegacyServerListPing` from a payload.
fn decode_legacy_server_list_ping(bytes: &Vec<u8>) -> (r: Result<
    ServerboundPacket,
    PacketParseError,
>)
    ensures
        match parse_fields(ServerboundKind::LegacyServerListPing.schema(), bytes@) {
            Ok(values) => r matches Ok(packet) && packet.kind()
                == ServerboundKind::LegacyServerListPing
                && packet.fields() == values,
            Err(name) => r matches Err(PacketParseError::CorruptPacket { problematic_field })
                && problematic_field@ == name,
        },
{
    Ok(ServerboundPacket::LegacyServerListPing {})
}

/// Reads the fields of `Handshake` from a payload.
fn decode_handshake(bytes: &Vec<u8>) -> (r: Result<ServerboundPacket, PacketParseError>)
    ensures
        match parse_fields(ServerboundKind::Handshake.schema(), bytes@) {
            Ok(values) => r matches Ok(packet) && packet.kind() == ServerboundKind::Handshake
                && packet.fields() == values,
            Err(name) => r matches Err(PacketParseError::CorruptPacket { problematic_field })
                && problematic_field@ == name,
        },
{
    let ghost schema: Seq<Field> = ServerboundKind::Handshake.schema();
    proof {
        lemma_parse_start(schema, bytes@);
    }
    let offset: usize = 0;
    let ghost done: Seq<FieldValue> = Seq::empty();
    let (protocol_version, offset): (VarInt, usize) =
        match read_next(bytes, offset, Ghost(schema), Ghost(done)) {
            Some(field) => field,
            None => {
                return Err(corrupt("protocol_version"));
            },
        };
    let ghost done: Seq<FieldValue> = done.push(FieldValue::VarInt(protocol_version@));
    let (server_address, offset): (String, usize) =
        match read_next(bytes, offset, Ghost(schema), Ghost(done)) {
            Some(field) => field,
            None => {
                return Err(corrupt("server_address"));
            },
        };
    let ghost done: Seq<FieldValue> = done.push(FieldValue::Text(server_address@));
    let (server_port, offset): (u16, usize) =
        match read_next(bytes, offset, Ghost(schema), Ghost(done)) {
            Some(field) => field,
            None => {
                return Err(corrupt("server_port"));
            },
        };
    let ghost done: Seq<FieldValue> = done.push(FieldValue::U16(server_port));
    let (next_state, offset): (VarInt, usize) =
        match read_next(bytes, offset, Ghost(schema), Ghost(done)) {
            Some(field) => field,
            None => {
                return Err(corrupt("next_state"));
            },
        };
    let ghost done: Seq<FieldValue> = done.push(FieldValue::VarInt(next_state@));
    let packet: ServerboundPacket = ServerboundPacket::Handshake {
        protocol_version,
        server_address,
        server_port,
        next_state,
    };
    proof {
        lemma_parse_end(schema, bytes@, offset as nat, done);
        assert(packet.fields() =~= done);
    }
    Ok(packet)
}

/// Reads the fields of `StatusRequest` from a payload.
fn decode_status_request(bytes: &Vec<u8>) -> (r: Result<ServerboundPacket, PacketParseError>)
    ensures
        match parse_fields(ServerboundKind::StatusRequest.schema(), bytes@) {
            Ok(values) => r matches Ok(packet) && packet.kind() == ServerboundKind::StatusRequest
                && packet.fields() == values,
            Err(name) => r matches Err(PacketParseError::CorruptPacket { problematic_field })
                && problematic_field@ == name,
        },
{
    Ok(ServerboundPacket::StatusRequest {})
}

/// Reads the fields of `PingRequest` from a payload.
fn decode_ping_request(bytes: &Vec<u8>) -> (r: Result<ServerboundPacket, PacketParseError>)
    ensures
        match parse_fields(ServerboundKind::PingRequest.schema(), bytes@) {
            Ok(values) => r matches Ok(packet) && packet.kind() == ServerboundKind::PingRequest
                && packet.fields() == values,
            Err(name) => r matches Err(PacketParseError::CorruptPacket { problematic_field })
                && problematic_field@ == name,
        },
{
    let ghost schema: Seq<Field> = ServerboundKind::PingRequest.schema();
    proof {
        lemma_parse_start(schema, bytes@);
    }
    let offset: usize = 0;
    let ghost done: Seq<FieldValue> = Seq::empty();
    let (timestamp, offset): (i64, usize) =
        match read_next(bytes, offset, Ghost(schema), Ghost(done)) {
            Some(field) => field,
            None => {
                return Err(corrupt("timestamp"));
            },
        };
    let ghost done: Seq<FieldValue> = done.push(FieldValue::I64(timestamp));
    let packet: ServerboundPacket = ServerboundPacket::PingRequest { timestamp };
    proof {
        lemma_parse_end(schema, bytes@, offset as nat, done);
        assert(packet.fields() =~= done);
    }
    Ok(packet)
}

/// Reads the fields of `LoginStart` from a payload.
fn decode_login_start(bytes: &Vec<u8>) -> (r: Result<ServerboundPacket, PacketParseError>)
    ensures
        match parse_fields(ServerboundKind::LoginStart.schema(), bytes@) {
            Ok(values) => r matches Ok(packet) && packet.kind() == ServerboundKind::LoginStart
                && packet.fields() == values,
            Err(name) => r matches Err(PacketParseError::CorruptPacket { problematic_field })
                && problematic_field@ == name,
        },
{
    let ghost schema: Seq<Field> = ServerboundKind::LoginStart.schema();
    proof {
        lemma_parse_start(schema, bytes@);
    }
    let offset: usize = 0;
    let ghost done: Seq<FieldValue> = Seq::empty();
    let (player_name, offset): (String, usize) =
        match read_next(bytes, offset, Ghost(schema), Ghost(done)) {
            Some(field) => field,
            None => {
                return Err(corrupt("player_name"));
            },
        };
    let ghost done: Seq<FieldValue> = done.push(FieldValue::Text(player_name@));
    let (player_uuid, offset): (u128, usize) =
        match read_next(bytes, offset, Ghost(schema), Ghost(done)) {
            Some(field) => field,
            None => {
                return Err(corrupt("player_uuid"));
            },
        };
    let ghost done: Seq<FieldValue> = done.push(FieldValue::U128(player_uuid));
    let packet: ServerboundPacket = ServerboundPacket::LoginStart { player_name, player_uuid };
    proof {
        lemma_parse_end(schema, bytes@, offset as nat, done);
        assert(packet.fields() =~= done);
    }
    Ok(packet)
}

/// Reads the fields of `EncryptionResponse` from a payload.
fn decode_encryption_response(bytes: &Vec<u8>) -> (r: Result<ServerboundPacket, PacketParseError>)
    ensures
        match parse_fields(ServerboundKind::EncryptionResponse.schema(), bytes@) {
            Ok(values) => r matches Ok(packet) && packet.kind()
                == ServerboundKind::EncryptionResponse
                && packet.fields() == values,
            Err(name) => r matches Err(PacketParseError::CorruptPacket { problematic_field })
                && problematic_field@ == name,
        },
{
    let ghost schema: Seq<Field> = ServerboundKind::EncryptionResponse.schema();
    proof {
        lemma_parse_start(schema, bytes@);
    }
    let offset: usize = 0;
    let ghost done: Seq<FieldValue> = Seq::empty();
    let (shared_secret, offset): (PrefixedArray<i8>, usize) =
        match read_next(bytes, offset, Ghost(schema), Ghost(done)) {
            Some(field) => field,
            None => {
                return Err(corrupt("shared_secret"));
            },
        };
    let ghost done: Seq<FieldValue> = done.push(FieldValue::ByteArray(shared_secret@));
    let (verify_token, offset): (PrefixedArray<i8>, usize) =
        match read_next(bytes, offset, Ghost(schema), Ghost(done)) {
            Some(field) => field,
            None => {
                return Err(corrupt("verify_token"));
            },
        };
    let ghost done: Seq<FieldValue> = done.push(FieldValue::ByteArray(verify_token@));
    let packet: ServerboundPacket = ServerboundPacket::EncryptionResponse {
        shared_secret,
        verify_token,
    };
    proof {
        lemma_parse_end(schema, bytes@, offset as nat, done);
        assert(packet.fields() =~= done);
    }
    Ok(packet)
}

/// Reads the fields of `LoginPluginResponse` from a payload.
fn decode_login_plugin_response(bytes: &Vec<u8>) -> (r: Result<ServerboundPacket, PacketParseError>)
    ensures
        match parse_fields(ServerboundKind::LoginPluginResponse.schema(), bytes@) {
            Ok(values) => r matches Ok(packet) && packet.kind()
                == ServerboundKind::LoginPluginResponse
                && packet.fields() == values,
            Err(name) => r matches Err(PacketParseError::CorruptPacket { problematic_field })
                && problematic_field@ == name,
        },
{
    let ghost schema: Seq<Field> = ServerboundKind::LoginPluginResponse.schema();
    proof {
        lemma_parse_start(schema, bytes@);
    }
    let offset: usize = 0;
    let ghost done: Seq<FieldValue> = Seq::empty();
    let (message_id, offset): (VarInt, usize) =
        match read_next(bytes, offset, Ghost(schema), Ghost(done)) {
            Some(field) => field,
            None => {
                return Err(corrupt("message_id"));
            },
        };
    let ghost done: Seq<FieldValue> = done.push(FieldValue::VarInt(message_id@));
    let (data, offset): (PrefixedOptional<Vec<i8>>, usize) =
        match read_next(bytes, offset, Ghost(schema), Ghost(done)) {
            Some(field) => field,
            None => {
                return Err(corrupt("data"));
            },
        };
    let ghost done: Seq<FieldValue> = done.push(FieldValue::OptionalByteArray(data@));
    let packet: ServerboundPacket = ServerboundPacket::LoginPluginResponse { message_id, data };
    proof {
        lemma_parse_end(schema, bytes@, offset as nat, done);
        assert(packet.fields() =~= done);
    }
    Ok(packet)
}

/// Reads the fields of `LoginAcknowledged` from a payload.
fn decode_login_acknowledged(bytes: &Vec<u8>) -> (r: Result<ServerboundPacket, PacketParseError>)
    ensures
        match parse_fields(ServerboundKind::LoginAcknowledged.schema(), bytes@) {
            Ok(values) => r matches Ok(packet) && packet.kind()
                == ServerboundKind::LoginAcknowledged
                && packet.fields() == values,
            Err(name) => r matches Err(PacketParseError::CorruptPacket { problematic_field })
                && problematic_field@ == name,
        },
{
    Ok(ServerboundPacket::LoginAcknowledged {})
}

/// Reads the fields of `CookieResponse` from a payload.
fn decode_cookie_response(bytes: &Vec<u8>) -> (r: Result<ServerboundPacket, PacketParseError>)
    ensures
        match parse_fields(ServerboundKind::CookieResponse.schema(), bytes@) {
            Ok(values) => r matches Ok(packet) && packet.kind() == ServerboundKind::CookieResponse
                && packet.fields() == values,
            Err(name) => r matches Err(PacketParseError::CorruptPacket { problematic_field })
                && problematic_field@ == name,
        },
{
    let ghost schema: Seq<Field> = ServerboundKind::CookieResponse.schema();
    proof {
        lemma_parse_start(schema, bytes@);
    }
    let offset: usize = 0;
    let ghost done: Seq<FieldValue> = Seq::empty();
    let (key, offset): (String, usize) =
        match read_next(bytes, offset, Ghost(schema), Ghost(done)) {
            Some(field) => field,
            None => {
                return Err(corrupt("key"));
            },
        };
    let ghost done: Seq<FieldValue> = done.push(FieldValue::Text(key@));
    let (payload, offset): (PrefixedOptional<PrefixedArray<i8>>, usize) =
        match read_next(bytes, offset, Ghost(schema), Ghost(done)) {
            Some(field) => field,
            None => {
                return Err(corrupt("payload"));
            },
        };
    let ghost done: Seq<FieldValue> = done.push(FieldValue::OptionalByteArray(payload@));
    let packet: ServerboundPacket = ServerboundPacket::CookieResponse { key, payload };
    proof {
        lemma_parse_end(schema, bytes@, offset as nat, done);
        assert(packet.fields() =~= done);
    }
    Ok(packet)
}

/// Reads the fields of `ClientInformation` from a payload.
fn decode_client_information(bytes: &Vec<u8>) -> (r: Result<ServerboundPacket, PacketParseError>)
    ensures
        match parse_fields(ServerboundKind::ClientInformation.schema(), bytes@) {
            Ok(values) => r matches Ok(packet) && packet.kind()
                == ServerboundKind::ClientInformation
                && packet.fields() == values,
            Err(name) => r matches Err(PacketParseError::CorruptPacket { problematic_field })
                && problematic_field@ == name,
        },
{
    let ghost schema: Seq<Field> = ServerboundKind::ClientInformation.schema();
    proof {
        lemma_parse_start(schema, bytes@);
    }
    let offset: usize = 0;
    let ghost done: Seq<FieldValue> = Seq::empty();
    let (locale, offset): (String, usize) =
        match read_next(bytes, offset, Ghost(schema), Ghost(done)) {
            Some(field) => field,
            None => {
                return Err(corrupt("locale"));
            },
        };
    let ghost done: Seq<FieldValue> = done.push(FieldValue::Text(locale@));
    let (view_distance, offset): (i8, usize) =
        match read_next(bytes, offset, Ghost(schema), Ghost(done)) {
            Some(field) => field,
            None => {
                return Err(corrupt("view_distance"));
            },
        };
    let ghost done: Seq<FieldValue> = done.push(FieldValue::I8(view_distance));
    let (chat_mode, offset): (VarInt, usize) =
        match read_next(bytes, offset, Ghost(schema), Ghost(done)) {
            Some(field) => field,
            None => {
                return Err(corrupt("chat_mode"));
            },
        };
    let ghost done: Seq<FieldValue> = done.push(FieldValue::VarInt(chat_mode@));
    let (chat_colors, offset): (bool, usize) =
        match read_next(bytes, offset, Ghost(schema), Ghost(done)) {
            Some(field) => field,
            None => {
                return Err(corrupt("chat_colors"));
            },
        };
    let ghost done: Seq<FieldValue> = done.push(FieldValue::Bool(chat_colors));
    let (displayed_skin_parts, offset): (u8, usize) =
        match read_next(bytes, offset, Ghost(schema), Ghost(done)) {
            Some(field) => field,
            None => {
                return Err(corrupt("displayed_skin_parts"));
            },
        };
    let ghost done: Seq<FieldValue> = done.push(FieldValue::U8(displayed_skin_parts));
    let (main_hand, offset): (VarInt, usize) =
        match read_next(bytes, offset, Ghost(schema), Ghost(done)) {
            Some(field) => field,
            None => {
                return Err(corrupt("main_hand"));
            },
        };
    let ghost done: Seq<FieldValue> = done.push(FieldValue::VarInt(main_hand@));
    let (enable_text_filtering, offset): (bool, usize) =
        match read_next(bytes, offset, Ghost(schema), Ghost(done)) {
            Some(field) => field,
            None => {
                return Err(corrupt("enable_text_filtering"));
            },
        };
    let ghost done: Seq<FieldValue> = done.push(FieldValue::Bool(enable_text_filtering));
    let (allow_server_listings, offset): (bool, usize) =
        match read_next(bytes, offset, Ghost(schema), Ghost(done)) {
            Some(field) => field,
            None => {
                return Err(corrupt("allow_server_listings"));
            },
        };
    let ghost done: Seq<FieldValue> = done.push(FieldValue::Bool(allow_server_listings));
    let (particle_status, offset): (VarInt, usize) =
        match read_next(bytes, offset, Ghost(schema), Ghost(done)) {
            Some(field) => field,
            None => {
                return Err(corrupt("particle_status"));
            },
        };
    let ghost done: Seq<FieldValue> = done.push(FieldValue::VarInt(particle_status@));
    let packet: ServerboundPacket = ServerboundPacket::ClientInformation {
        locale,
        view_distance,
        chat_mode,
        chat_colors,
        displayed_skin_parts,
        main_hand,
        enable_text_filtering,
        allow_server_listings,
        particle_status,
    };
    proof {
        lemma_parse_end(schema, bytes@, offset as nat, done);
        assert(packet.fields() =~= done);
    }
    Ok(packet)
}

/// Reads the fields of `FinishConfiguration` from a payload.
fn decode_finish_configuration(bytes: &Vec<u8>) -> (r: Result<ServerboundPacket, PacketParseError>)
    ensures
        match parse_fields(ServerboundKind::FinishConfiguration.schema(), bytes@) {
            Ok(values) => r matches Ok(packet) && packet.kind()
                == ServerboundKind::FinishConfiguration
                && packet.fields() == values,
            Err(name) => r matches Err(PacketParseError::CorruptPacket { problematic_field })
                && problematic_field@ == name,
        },
{
    Ok(ServerboundPacket::FinishConfiguration {})
}

/// The values of a packet's fields fit the schema of its kind.
pub proof fn lemma_serverbound_fields_fit(packet: ServerboundPacket)
    ensures
        fits(packet.kind().schema(), packet.fields()),
{
}

/// The table is one table: the id under which a packet travels in a state means
/// that packet in that state.
pub proof fn lemma_serverbound_id_consistent(kind: ServerboundKind, state: ConnectionState)
    requires
        kind.id_in(state) is Some,
    ensures
        ServerboundKind::at(state, kind.id_in(state)->Some_0 as int) == Some(kind),
{
}

/// Round trip: the payload that a packet writes reads back, under the id and the
/// state it was written for, as the same kind of packet with the same field
/// values, whatever follows the payload.
pub proof fn lemma_serverbound_round_trip(
    packet: ServerboundPacket,
    state: ConnectionState,
    rest: Seq<u8>,
)
    requires
        fields_encodable(packet.fields()),
        packet.kind().id_in(state) is Some,
    ensures
        ({
            let id = packet.kind().id_in(state)->Some_0;
            let payload = wire_fields(packet.fields());
            &&& ServerboundKind::at(state, id as int) == Some(packet.kind())
            &&& parse_fields(packet.kind().schema(), payload + rest) == Ok::<
                Seq<FieldValue>,
                Seq<char>,
            >(packet.fields())
        }),
{
    lemma_serverbound_fields_fit(packet);
    lemma_serverbound_id_consistent(packet.kind(), state);
    lemma_fields_round_trip(packet.kind().schema(), packet.fields(), rest);
}

/// Round trip over the wire: the bytes that `serialize` gives for a packet hold
/// one frame, whatever follows them; the frame's id means the packet's kind in
/// the state it was written for, and its data reads back as the packet's field
/// values. Left out are the frames whose first byte is that of a legacy probe,
/// and those whose length or id an `isize` cannot hold.
pub proof fn lemma_serverbound_wire_round_trip(
    packet: ServerboundPacket,
    state: ConnectionState,
    rest: Seq<u8>,
)
    requires
        fields_encodable(packet.fields()),
        packet.kind().id_in(state) is Some,
        frameable(packet.kind().id_in(state)->Some_0, wire_fields(packet.fields()).len()),
        varint_encode(packet.kind().id_in(state)->Some_0).len() + wire_fields(
            packet.fields(),
        ).len() <= isize::MAX,
        frame(packet.kind().id_in(state)->Some_0, wire_fields(packet.fields()))[0]
            != LEGACY_PING,
    ensures
        ({
            let id = packet.kind().id_in(state)->Some_0;
            let payload = wire_fields(packet.fields());
            &&& frame_at(frame(id, payload) + rest) matches Some(found)
            &&& found.id == id
            &&& found.data == payload
            &&& found.consumed == frame(id, payload).len()
            &&& ServerboundKind::at(state, found.id) == Some(packet.kind())
            &&& parse_fields(packet.kind().schema(), found.data) == Ok::<
                Seq<FieldValue>,
                Seq<char>,
            >(packet.fields())
        }),
{
    let id = packet.kind().id_in(state)->Some_0;
    let payload = wire_fields(packet.fields());
    lemma_frame_round_trip(id, payload, rest);
    lemma_serverbound_round_trip(packet, state, Seq::empty());
    assert(payload + Seq::<u8>::empty() =~= payload);
}

} // verus!
