//! The packets that the server sends: the id of each in each connection state,
//! and the fields of each packet.

use crate::data_types::{PrefixedArray, PrefixedOptional, Property};
use crate::packet::{
    frame, frame_at, frame_payload, frameable, lemma_frame_round_trip, ConnectionState, RawPacket,
    LEGACY_PING,
};
use crate::schema::{
    fields_encodable, fits, lemma_fields_round_trip, lemma_parse_end, lemma_parse_start,
    lemma_wire_end, lemma_wire_start, parse_fields, read_next, wire_fields, write_next, Field,
    FieldType, FieldValue,
};
use crate::serverbound::{corrupt, PacketParseError};
use crate::var_int::{varint_encode, VarInt};
use vstd::prelude::*;

verus! {

/// Why a packet could not be written.
#[derive(Debug, PartialEq)]
pub enum PacketSerializationError {
    /// The packet has no id in the connection's state.
    InvalidState { packet: String, state: ConnectionState },
}

/// The packets of this direction, by name.
#[derive(Debug, Clone, Copy, PartialEq, Eq)]
pub enum ClientboundKind {
    StatusResponse,
    PongResponse,
    Disconnect,
    EncryptionRequest,
    LoginSuccess,
    SetCompression,
    LoginPluginRequest,
    CookieRequest,
    PluginMessage,
    FinishConfiguration,
    KeepAlive,
    Ping,
    ResetChat,
    RegistryData,
    AddResourcePack,
}

/// A packet that the server sends, with its fields.
#[allow(inconsistent_fields)]
#[derive(Debug, PartialEq)]
pub enum ClientboundPacket {
    StatusResponse { json_response: String },
    PongResponse { timestamp: i64 },
    Disconnect { reason: String },
    EncryptionRequest {
        server_id: String,
        public_key: PrefixedArray<i8>,
        verify_token: PrefixedArray<i8>,
        should_authenticate: bool,
    },
    LoginSuccess { uuid: u128, username: String, properties: PrefixedArray<Property> },
    SetCompression { threshold: VarInt },
    LoginPluginRequest { message_id: VarInt, channel: String, data: Vec<i8> },
    CookieRequest { key: String },
    PluginMessage { channel: String, data: Vec<i8> },
    FinishConfiguration {},
    KeepAlive { keep_alive_id: i64 },
    Ping { id: i32 },
    ResetChat {},
    RegistryData { uuid: PrefixedOptional<u128> },
    AddResourcePack {},
}

impl ClientboundKind {
    /// The packet that `id` means in `state`, if it means any.
    pub open spec fn at(state: ConnectionState, id: int) -> Option<ClientboundKind> {
        match state {
            ConnectionState::Handshaking => None,
            ConnectionState::Status => if id == 0x00 {
                Some(ClientboundKind::StatusResponse)
            } else if id == 0x01 {
                Some(ClientboundKind::PongResponse)
            } else {
                None
            },
            ConnectionState::Login => if id == 0x00 {
                Some(ClientboundKind::Disconnect)
            } else if id == 0x01 {
                Some(ClientboundKind::EncryptionRequest)
            } else if id == 0x02 {
                Some(ClientboundKind::LoginSuccess)
            } else if id == 0x03 {
                Some(ClientboundKind::SetCompression)
            } else if id == 0x04 {
                Some(ClientboundKind::LoginPluginRequest)
            } else if id == 0x05 {
                Some(ClientboundKind::CookieRequest)
            } else {
                None
            },
            ConnectionState::Configuration => if id == 0x02 {
                Some(ClientboundKind::Disconnect)
            } else if id == 0x00 {
                Some(ClientboundKind::CookieRequest)
            } else if id == 0x01 {
                Some(ClientboundKind::PluginMessage)
            } else if id == 0x03 {
                Some(ClientboundKind::FinishConfiguration)
            } else if id == 0x04 {
                Some(ClientboundKind::KeepAlive)
            } else if id == 0x05 {
                Some(ClientboundKind::Ping)
            } else if id == 0x06 {
                Some(ClientboundKind::ResetChat)
            } else if id == 0x07 {
                Some(ClientboundKind::RegistryData)
            } else if id == 0x08 {
                Some(ClientboundKind::AddResourcePack)
            } else {
                None
            },
            ConnectionState::Play => None,
        }
    }

    /// The id under which the packet travels in `state`, if it may be sent there.
    pub open spec fn id_in(self, state: ConnectionState) -> Option<nat> {
        match (self, state) {
            (ClientboundKind::StatusResponse, ConnectionState::Status) => Some(0x00nat),
            (ClientboundKind::PongResponse, ConnectionState::Status) => Some(0x01nat),
            (ClientboundKind::Disconnect, ConnectionState::Login) => Some(0x00nat),
            (ClientboundKind::Disconnect, ConnectionState::Configuration) => Some(0x02nat),
            (ClientboundKind::EncryptionRequest, ConnectionState::Login) => Some(0x01nat),
            (ClientboundKind::LoginSuccess, ConnectionState::Login) => Some(0x02nat),
            (ClientboundKind::SetCompression, ConnectionState::Login) => Some(0x03nat),
            (ClientboundKind::LoginPluginRequest, ConnectionState::Login) => Some(0x04nat),
            (ClientboundKind::CookieRequest, ConnectionState::Login) => Some(0x05nat),
            (ClientboundKind::CookieRequest, ConnectionState::Configuration) => Some(0x00nat),
            (ClientboundKind::PluginMessage, ConnectionState::Configuration) => Some(0x01nat),
            (ClientboundKind::FinishConfiguration, ConnectionState::Configuration) => Some(0x03nat),
            (ClientboundKind::KeepAlive, ConnectionState::Configuration) => Some(0x04nat),
            (ClientboundKind::Ping, ConnectionState::Configuration) => Some(0x05nat),
            (ClientboundKind::ResetChat, ConnectionState::Configuration) => Some(0x06nat),
            (ClientboundKind::RegistryData, ConnectionState::Configuration) => Some(0x07nat),
            (ClientboundKind::AddResourcePack, ConnectionState::Configuration) => Some(0x08nat),
            _ => None,
        }
    }

    /// The packet's name.
    pub open spec fn name(self) -> Seq<char> {
        match self {
            ClientboundKind::StatusResponse => "StatusResponse"@,
            ClientboundKind::PongResponse => "PongResponse"@,
            ClientboundKind::Disconnect => "Disconnect"@,
            ClientboundKind::EncryptionRequest => "EncryptionRequest"@,
            ClientboundKind::LoginSuccess => "LoginSuccess"@,
            ClientboundKind::SetCompression => "SetCompression"@,
            ClientboundKind::LoginPluginRequest => "LoginPluginRequest"@,
            ClientboundKind::CookieRequest => "CookieRequest"@,
            ClientboundKind::PluginMessage => "PluginMessage"@,
            ClientboundKind::FinishConfiguration => "FinishConfiguration"@,
            ClientboundKind::KeepAlive => "KeepAlive"@,
            ClientboundKind::Ping => "Ping"@,
            ClientboundKind::ResetChat => "ResetChat"@,
            ClientboundKind::RegistryData => "RegistryData"@,
            ClientboundKind::AddResourcePack => "AddResourcePack"@,
        }
    }

    /// The packet's fields, in wire order.
    pub open spec fn schema(self) -> Seq<Field> {
        match self {
            ClientboundKind::StatusResponse => seq![
                Field { name: "json_response"@, ty: FieldType::Text },
            ],
            ClientboundKind::PongResponse => seq![
                Field { name: "timestamp"@, ty: FieldType::I64 },
            ],
            ClientboundKind::Disconnect => seq![
                Field { name: "reason"@, ty: FieldType::Text },
            ],
            ClientboundKind::EncryptionRequest => seq![
                Field { name: "server_id"@, ty: FieldType::Text },
                Field { name: "public_key"@, ty: FieldType::ByteArray },
                Field { name: "verify_token"@, ty: FieldType::ByteArray },
                Field { name: "should_authenticate"@, ty: FieldType::Bool },
            ],
            ClientboundKind::LoginSuccess => seq![
                Field { name: "uuid"@, ty: FieldType::U128 },
                Field { name: "username"@, ty: FieldType::Text },
                Field { name: "properties"@, ty: FieldType::Properties },
            ],
            ClientboundKind::SetCompression => seq![
                Field { name: "threshold"@, ty: FieldType::VarInt },
            ],
            ClientboundKind::LoginPluginRequest => seq![
                Field { name: "message_id"@, ty: FieldType::VarInt },
                Field { name: "channel"@, ty: FieldType::Text },
                Field { name: "data"@, ty: FieldType::ByteArray },
            ],
            ClientboundKind::CookieRequest => seq![
                Field { name: "key"@, ty: FieldType::Text },
            ],
            ClientboundKind::PluginMessage => seq![
                Field { name: "channel"@, ty: FieldType::Text },
                Field { name: "data"@, ty: FieldType::ByteArray },
            ],
            ClientboundKind::FinishConfiguration => Seq::empty(),
            ClientboundKind::KeepAlive => seq![
                Field { name: "keep_alive_id"@, ty: FieldType::I64 },
            ],
            ClientboundKind::Ping => seq![
                Field { name: "id"@, ty: FieldType::I32 },
            ],
            ClientboundKind::ResetChat => Seq::empty(),
            ClientboundKind::RegistryData => seq![
                Field { name: "uuid"@, ty: FieldType::OptionalU128 },
            ],
            ClientboundKind::AddResourcePack => Seq::empty(),
        }
    }

    /// Looks `id` up in the table of `state`.
    pub fn lookup(state: ConnectionState, id: isize) -> (r: Option<ClientboundKind>)
        ensures
            r == ClientboundKind::at(state, id as int),
    {
        match state {
            ConnectionState::Handshaking => None,
            ConnectionState::Status => if id == 0x00 {
                Some(ClientboundKind::StatusResponse)
            } else if id == 0x01 {
                Some(ClientboundKind::PongResponse)
            } else {
                None
            },
            ConnectionState::Login => if id == 0x00 {
                Some(ClientboundKind::Disconnect)
            } else if id == 0x01 {
                Some(ClientboundKind::EncryptionRequest)
            } else if id == 0x02 {
                Some(ClientboundKind::LoginSuccess)
            } else if id == 0x03 {
                Some(ClientboundKind::SetCompression)
            } else if id == 0x04 {
                Some(ClientboundKind::LoginPluginRequest)
            } else if id == 0x05 {
                Some(ClientboundKind::CookieRequest)
            } else {
                None
            },
            ConnectionState::Configuration => if id == 0x02 {
                Some(ClientboundKind::Disconnect)
            } else if id == 0x00 {
                Some(ClientboundKind::CookieRequest)
            } else if id == 0x01 {
                Some(ClientboundKind::PluginMessage)
            } else if id == 0x03 {
                Some(ClientboundKind::FinishConfiguration)
            } else if id == 0x04 {
                Some(ClientboundKind::KeepAlive)
            } else if id == 0x05 {
                Some(ClientboundKind::Ping)
            } else if id == 0x06 {
                Some(ClientboundKind::ResetChat)
            } else if id == 0x07 {
                Some(ClientboundKind::RegistryData)
            } else if id == 0x08 {
                Some(ClientboundKind::AddResourcePack)
            } else {
                None
            },
            ConnectionState::Play => None,
        }
    }
}

impl ClientboundPacket {
    /// Which packet this is.
    pub open spec fn kind(&self) -> ClientboundKind {
        match self {
            ClientboundPacket::StatusResponse { .. } => ClientboundKind::StatusResponse,
            ClientboundPacket::PongResponse { .. } => ClientboundKind::PongResponse,
            ClientboundPacket::Disconnect { .. } => ClientboundKind::Disconnect,
            ClientboundPacket::EncryptionRequest { .. } => ClientboundKind::EncryptionRequest,
            ClientboundPacket::LoginSuccess { .. } => ClientboundKind::LoginSuccess,
            ClientboundPacket::SetCompression { .. } => ClientboundKind::SetCompression,
            ClientboundPacket::LoginPluginRequest { .. } => ClientboundKind::LoginPluginRequest,
            ClientboundPacket::CookieRequest { .. } => ClientboundKind::CookieRequest,
            ClientboundPacket::PluginMessage { .. } => ClientboundKind::PluginMessage,
            ClientboundPacket::FinishConfiguration { .. } => ClientboundKind::FinishConfiguration,
            ClientboundPacket::KeepAlive { .. } => ClientboundKind::KeepAlive,
            ClientboundPacket::Ping { .. } => ClientboundKind::Ping,
            ClientboundPacket::ResetChat { .. } => ClientboundKind::ResetChat,
            ClientboundPacket::RegistryData { .. } => ClientboundKind::RegistryData,
            ClientboundPacket::AddResourcePack { .. } => ClientboundKind::AddResourcePack,
        }
    }

    /// The values of the packet's fields, in wire order.
    pub open spec fn fields(&self) -> Seq<FieldValue> {
        match self {
            ClientboundPacket::StatusResponse { json_response } => seq![
                FieldValue::Text(json_response@),
            ],
            ClientboundPacket::PongResponse { timestamp } => seq![
                FieldValue::I64(*timestamp),
            ],
            ClientboundPacket::Disconnect { reason } => seq![
                FieldValue::Text(reason@),
            ],
            ClientboundPacket::EncryptionRequest {
                server_id,
                public_key,
                verify_token,
                should_authenticate,
            } => seq![
                FieldValue::Text(server_id@),
                FieldValue::ByteArray(public_key@),
                FieldValue::ByteArray(verify_token@),
                FieldValue::Bool(*should_authenticate),
            ],
            ClientboundPacket::LoginSuccess { uuid, username, properties } => seq![
                FieldValue::U128(*uuid),
                FieldValue::Text(username@),
                FieldValue::Properties(properties@),
            ],
            ClientboundPacket::SetCompression { threshold } => seq![
                FieldValue::VarInt(threshold@),
            ],
            ClientboundPacket::LoginPluginRequest { message_id, channel, data } => seq![
                FieldValue::VarInt(message_id@),
                FieldValue::Text(channel@),
                FieldValue::ByteArray(data@),
            ],
            ClientboundPacket::CookieRequest { key } => seq![
                FieldValue::Text(key@),
            ],
            ClientboundPacket::PluginMessage { channel, data } => seq![
                FieldValue::Text(channel@),
                FieldValue::ByteArray(data@),
            ],
            ClientboundPacket::FinishConfiguration {} => Seq::empty(),
            ClientboundPacket::KeepAlive { keep_alive_id } => seq![
                FieldValue::I64(*keep_alive_id),
            ],
            ClientboundPacket::Ping { id } => seq![
                FieldValue::I32(*id),
            ],
            ClientboundPacket::ResetChat {} => Seq::empty(),
            ClientboundPacket::RegistryData { uuid } => seq![
                FieldValue::OptionalU128(uuid@),
            ],
            ClientboundPacket::AddResourcePack {} => Seq::empty(),
        }
    }

    /// The id under which the packet travels in `state`.
    pub fn id(&self, state: ConnectionState) -> (r: Option<usize>)
        ensures
            match self.kind().id_in(state) {
                Some(id) => r == Some(id as usize),
                None => r is None,
            },
    {
        match (self, state) {
            (ClientboundPacket::StatusResponse { .. }, ConnectionState::Status) => Some(0x00),
            (ClientboundPacket::PongResponse { .. }, ConnectionState::Status) => Some(0x01),
            (ClientboundPacket::Disconnect { .. }, ConnectionState::Login) => Some(0x00),
            (ClientboundPacket::Disconnect { .. }, ConnectionState::Configuration) => Some(0x02),
            (ClientboundPacket::EncryptionRequest { .. }, ConnectionState::Login) => Some(0x01),
            (ClientboundPacket::LoginSuccess { .. }, ConnectionState::Login) => Some(0x02),
            (ClientboundPacket::SetCompression { .. }, ConnectionState::Login) => Some(0x03),
            (ClientboundPacket::LoginPluginRequest { .. }, ConnectionState::Login) => Some(0x04),
            (ClientboundPacket::CookieRequest { .. }, ConnectionState::Login) => Some(0x05),
            (ClientboundPacket::CookieRequest { .. }, ConnectionState::Configuration) => Some(0x00),
            (ClientboundPacket::PluginMessage { .. }, ConnectionState::Configuration) => Some(0x01),
            (ClientboundPacket::FinishConfiguration { .. }, ConnectionState::Configuration) => {
                Some(0x03)
            },
            (ClientboundPacket::KeepAlive { .. }, ConnectionState::Configuration) => Some(0x04),
            (ClientboundPacket::Ping { .. }, ConnectionState::Configuration) => Some(0x05),
            (ClientboundPacket::ResetChat { .. }, ConnectionState::Configuration) => Some(0x06),
            (ClientboundPacket::RegistryData { .. }, ConnectionState::Configuration) => Some(0x07),
            (ClientboundPacket::AddResourcePack { .. }, ConnectionState::Configuration) => {
                Some(0x08)
            },
            _ => None,
        }
    }

    /// The packet's name.
    pub fn name(&self) -> (name: &str)
        ensures
            name@ == self.kind().name(),
    {
        match self {
            ClientboundPacket::StatusResponse { .. } => "StatusResponse",
            ClientboundPacket::PongResponse { .. } => "PongResponse",
            ClientboundPacket::Disconnect { .. } => "Disconnect",
            ClientboundPacket::EncryptionRequest { .. } => "EncryptionRequest",
            ClientboundPacket::LoginSuccess { .. } => "LoginSuccess",
            ClientboundPacket::SetCompression { .. } => "SetCompression",
            ClientboundPacket::LoginPluginRequest { .. } => "LoginPluginRequest",
            ClientboundPacket::CookieRequest { .. } => "CookieRequest",
            ClientboundPacket::PluginMessage { .. } => "PluginMessage",
            ClientboundPacket::FinishConfiguration { .. } => "FinishConfiguration",
            ClientboundPacket::KeepAlive { .. } => "KeepAlive",
            ClientboundPacket::Ping { .. } => "Ping",
            ClientboundPacket::ResetChat { .. } => "ResetChat",
            ClientboundPacket::RegistryData { .. } => "RegistryData",
            ClientboundPacket::AddResourcePack { .. } => "AddResourcePack",
        }
    }

    /// The packet's payload: its fields, written in wire order.
    pub fn payload(self) -> (out: Vec<u8>)
        requires
            fields_encodable(self.fields()),
        ensures
            out@ == wire_fields(self.fields()),
    {
        let ghost values: Seq<FieldValue> = self.fields();
        let mut encoded_packet: Vec<u8> = Vec::new();
        proof {
            lemma_wire_start(values);
        }
        match self {
            ClientboundPacket::StatusResponse { json_response } => {
                write_next(&mut encoded_packet, json_response, Ghost(values), Ghost(0));
            },
            ClientboundPacket::PongResponse { timestamp } => {
                write_next(&mut encoded_packet, timestamp, Ghost(values), Ghost(0));
            },
            ClientboundPacket::Disconnect { reason } => {
                write_next(&mut encoded_packet, reason, Ghost(values), Ghost(0));
            },
            ClientboundPacket::EncryptionRequest {
                server_id,
                public_key,
                verify_token,
                should_authenticate,
            } => {
                write_next(&mut encoded_packet, server_id, Ghost(values), Ghost(0));
                write_next(&mut encoded_packet, public_key, Ghost(values), Ghost(1));
                write_next(&mut encoded_packet, verify_token, Ghost(values), Ghost(2));
                write_next(&mut encoded_packet, should_authenticate, Ghost(values), Ghost(3));
            },
            ClientboundPacket::LoginSuccess { uuid, username, properties } => {
                write_next(&mut encoded_packet, uuid, Ghost(values), Ghost(0));
                write_next(&mut encoded_packet, username, Ghost(values), Ghost(1));
                write_next(&mut encoded_packet, properties, Ghost(values), Ghost(2));
            },
            ClientboundPacket::SetCompression { threshold } => {
                write_next(&mut encoded_packet, threshold, Ghost(values), Ghost(0));
            },
            ClientboundPacket::LoginPluginRequest { message_id, channel, data } => {
                write_next(&mut encoded_packet, message_id, Ghost(values), Ghost(0));
                write_next(&mut encoded_packet, channel, Ghost(values), Ghost(1));
                write_next(&mut encoded_packet, data, Ghost(values), Ghost(2));
            },
            ClientboundPacket::CookieRequest { key } => {
                write_next(&mut encoded_packet, key, Ghost(values), Ghost(0));
            },
            ClientboundPacket::PluginMessage { channel, data } => {
                write_next(&mut encoded_packet, channel, Ghost(values), Ghost(0));
                write_next(&mut encoded_packet, data, Ghost(values), Ghost(1));
            },
            ClientboundPacket::FinishConfiguration {} => {},
            ClientboundPacket::KeepAlive { keep_alive_id } => {
                write_next(&mut encoded_packet, keep_alive_id, Ghost(values), Ghost(0));
            },
            ClientboundPacket::Ping { id } => {
                write_next(&mut encoded_packet, id, Ghost(values), Ghost(0));
            },
            ClientboundPacket::ResetChat {} => {},
            ClientboundPacket::RegistryData { uuid } => {
                write_next(&mut encoded_packet, uuid, Ghost(values), Ghost(0));
            },
            ClientboundPacket::AddResourcePack {} => {},
        }
        proof {
            lemma_wire_end(values, encoded_packet@);
        }
        encoded_packet
    }

    /// Frames the packet for `state`: length, id, payload. A packet that has no
    /// id in `state` is refused.
    pub fn serialize(self, state: ConnectionState) -> (r: Result<
        Vec<u8>,
        PacketSerializationError,
    >)
        requires
            fields_encodable(self.fields()),
            self.kind().id_in(state) matches Some(id) ==> frameable(
                id,
                wire_fields(self.fields()).len(),
            ),
        ensures
            match self.kind().id_in(state) {
                Some(id) => r matches Ok(bytes) && bytes@ == frame(
                    id,
                    wire_fields(self.fields()),
                ),
                None => r matches Err(
                    PacketSerializationError::InvalidState { packet, state: refused },
                ) && packet@ == self.kind().name() && refused == state,
            },
    {
        let id: usize = match self.id(state) {
            Some(id) => id,
            None => {
                let packet: String = self.name().to_owned();
                return Err(PacketSerializationError::InvalidState { packet, state });
            },
        };
        let encoded_packet: Vec<u8> = self.payload();
        Ok(frame_payload(id, encoded_packet))
    }

    /// Decodes a raw packet under `state`: finds what its id means there, then
    /// reads each field of that packet in order from the payload.
    pub fn try_from(state: ConnectionState, raw_packet: RawPacket) -> (r: Result<
        Self,
        PacketParseError,
    >)
        ensures
            match ClientboundKind::at(state, raw_packet.id as int) {
                Some(kind) => match parse_fields(kind.schema(), raw_packet.data@) {
                    Ok(values) => r matches Ok(packet) && packet.kind() == kind
                        && packet.fields() == values,
                    Err(name) => r matches Err(
                        PacketParseError::CorruptPacket { problematic_field },
                    ) && problematic_field@ == name,
                },
                None => r matches Err(PacketParseError::UnknownPacket { id }) && id
                    == raw_packet.id,
            },
    {
        let kind: ClientboundKind = match ClientboundKind::lookup(state, raw_packet.id) {
            Some(kind) => kind,
            None => {
                return Err(PacketParseError::UnknownPacket { id: raw_packet.id });
            },
        };
        match kind {
            ClientboundKind::StatusResponse => decode_status_response(&raw_packet.data),
            ClientboundKind::PongResponse => decode_pong_response(&raw_packet.data),
            ClientboundKind::Disconnect => decode_disconnect(&raw_packet.data),
            ClientboundKind::EncryptionRequest => decode_encryption_request(&raw_packet.data),
            ClientboundKind::LoginSuccess => decode_login_success(&raw_packet.data),
            ClientboundKind::SetCompression => decode_set_compression(&raw_packet.data),
            ClientboundKind::LoginPluginRequest => decode_login_plugin_request(&raw_packet.data),
            ClientboundKind::CookieRequest => decode_cookie_request(&raw_packet.data),
            ClientboundKind::PluginMessage => decode_plugin_message(&raw_packet.data),
            ClientboundKind::FinishConfiguration => decode_finish_configuration(&raw_packet.data),
            ClientboundKind::KeepAlive => decode_keep_alive(&raw_packet.data),
            ClientboundKind::Ping => decode_ping(&raw_packet.data),
            ClientboundKind::ResetChat => decode_reset_chat(&raw_packet.data),
            ClientboundKind::RegistryData => decode_registry_data(&raw_packet.data),
            ClientboundKind::AddResourcePack => decode_add_resource_pack(&raw_packet.data),
        }
    }
}

/// Reads the fields of `StatusResponse` from a payload.
fn decode_status_response(bytes: &Vec<u8>) -> (r: Result<ClientboundPacket, PacketParseError>)
    ensures
        match parse_fields(ClientboundKind::StatusResponse.schema(), bytes@) {
            Ok(values) => r matches Ok(packet) && packet.kind() == ClientboundKind::StatusResponse
                && packet.fields() == values,
            Err(name) => r matches Err(PacketParseError::CorruptPacket { problematic_field })
                && problematic_field@ == name,
        },
{
    let ghost schema: Seq<Field> = ClientboundKind::StatusResponse.schema();
    proof {
        lemma_parse_start(schema, bytes@);
    }
    let offset: usize = 0;
    let ghost done: Seq<FieldValue> = Seq::empty();
    let (json_response, offset): (String, usize) =
        match read_next(bytes, offset, Ghost(schema), Ghost(done)) {
            Some(field) => field,
            None => {
                return Err(corrupt("json_response"));
            },
        };
    let ghost done: Seq<FieldValue> = done.push(FieldValue::Text(json_response@));
    let packet: ClientboundPacket = ClientboundPacket::StatusResponse { json_response };
    proof {
        lemma_parse_end(schema, bytes@, offset as nat, done);
        assert(packet.fields() =~= done);
    }
    Ok(packet)
}

/// Reads the fields of `PongResponse` from a payload.
fn decode_pong_response(bytes: &Vec<u8>) -> (r: Result<ClientboundPacket, PacketParseError>)
    ensures
        match parse_fields(ClientboundKind::PongResponse.schema(), bytes@) {
            Ok(values) => r matches Ok(packet) && packet.kind() == ClientboundKind::PongResponse
                && packet.fields() == values,
            Err(name) => r matches Err(PacketParseError::CorruptPacket { problematic_field })
                && problematic_field@ == name,
        },
{
    let ghost schema: Seq<Field> = ClientboundKind::PongResponse.schema();
    proof {
        lemma_parse_start(schema, bytes@);
    }
    let offset: usize = 0;
    let ghost done: Seq<FieldValue> = Seq::empty();
    let (timestamp, offset): (i64, usize) =
        match read_next(bytes, offset, Ghost(schema), Ghost(done)) {
            Some(field) => field,
            None => {
                return Err(corrupt("timestamp"));
            },
        };
    let ghost done: Seq<FieldValue> = done.push(FieldValue::I64(timestamp));
    let packet: ClientboundPacket = ClientboundPacket::PongResponse { timestamp };
    proof {
        lemma_parse_end(schema, bytes@, offset as nat, done);
        assert(packet.fields() =~= done);
    }
    Ok(packet)
}

/// Reads the fields of `Disconnect` from a payload.
fn decode_disconnect(bytes: &Vec<u8>) -> (r: Result<ClientboundPacket, PacketParseError>)
    ensures
        match parse_fields(ClientboundKind::Disconnect.schema(), bytes@) {
            Ok(values) => r matches Ok(packet) && packet.kind() == ClientboundKind::Disconnect
                && packet.fields() == values,
            Err(name) => r matches Err(PacketParseError::CorruptPacket { problematic_field })
                && problematic_field@ == name,
        },
{
    let ghost schema: Seq<Field> = ClientboundKind::Disconnect.schema();
    proof {
        lemma_parse_start(schema, bytes@);
    }
    let offset: usize = 0;
    let ghost done: Seq<FieldValue> = Seq::empty();
    let (reason, offset): (String, usize) =
        match read_next(bytes, offset, Ghost(schema), Ghost(done)) {
            Some(field) => field,
            None => {
                return Err(corrupt("reason"));
            },
        };
    let ghost done: Seq<FieldValue> = done.push(FieldValue::Text(reason@));
    let packet: ClientboundPacket = ClientboundPacket::Disconnect { reason };
    proof {
        lemma_parse_end(schema, bytes@, offset as nat, done);
        assert(packet.fields() =~= done);
    }
    Ok(packet)
}

/// Reads the fields of `EncryptionRequest` from a payload.
fn decode_encryption_request(bytes: &Vec<u8>) -> (r: Result<ClientboundPacket, PacketParseError>)
    ensures
        match parse_fields(ClientboundKind::EncryptionRequest.schema(), bytes@) {
            Ok(values) => r matches Ok(packet) && packet.kind()
                == ClientboundKind::EncryptionRequest
                && packet.fields() == values,
            Err(name) => r matches Err(PacketParseError::CorruptPacket { problematic_field })
                && problematic_field@ == name,
        },
{
    let ghost schema: Seq<Field> = ClientboundKind::EncryptionRequest.schema();
    proof {
        lemma_parse_start(schema, bytes@);
    }
    let offset: usize = 0;
    let ghost done: Seq<FieldValue> = Seq::empty();
    let (server_id, offset): (String, usize) =
        match read_next(bytes, offset, Ghost(schema), Ghost(done)) {
            Some(field) => field,
            None => {
                return Err(corrupt("server_id"));
            },
        };
    let ghost done: Seq<FieldValue> = done.push(FieldValue::Text(server_id@));
    let (public_key, offset): (PrefixedArray<i8>, usize) =
        match read_next(bytes, offset, Ghost(schema), Ghost(done)) {
            Some(field) => field,
            None => {
                return Err(corrupt("public_key"));
            },
        };
    let ghost done: Seq<FieldValue> = done.push(FieldValue::ByteArray(public_key@));
    let (verify_token, offset): (PrefixedArray<i8>, usize) =
        match read_next(bytes, offset, Ghost(schema), Ghost(done)) {
            Some(field) => field,
            None => {
                return Err(corrupt("verify_token"));
            },
        };
    let ghost done: Seq<FieldValue> = done.push(FieldValue::ByteArray(verify_token@));
    let (should_authenticate, offset): (bool, usize) =
        match read_next(bytes, offset, Ghost(schema), Ghost(done)) {
            Some(field) => field,
            None => {
                return Err(corrupt("should_authenticate"));
            },
        };
    let ghost done: Seq<FieldValue> = done.push(FieldValue::Bool(should_authenticate));
    let packet: ClientboundPacket = ClientboundPacket::EncryptionRequest {
        server_id,
        public_key,
        verify_token,
        should_authenticate,
    };
    proof {
        lemma_parse_end(schema, bytes@, offset as nat, done);
        assert(packet.fields() =~= done);
    }
    Ok(packet)
}

/// Reads the fields of `LoginSuccess` from a payload.
fn decode_login_success(bytes: &Vec<u8>) -> (r: Result<ClientboundPacket, PacketParseError>)
    ensures
        match parse_fields(ClientboundKind::LoginSuccess.schema(), bytes@) {
            Ok(values) => r matches Ok(packet) && packet.kind() == ClientboundKind::LoginSuccess
                && packet.fields() == values,
            Err(name) => r matches Err(PacketParseError::CorruptPacket { problematic_field })
                && problematic_field@ == name,
        },
{
    let ghost schema: Seq<Field> = ClientboundKind::LoginSuccess.schema();
    proof {
        lemma_parse_start(schema, bytes@);
    }
    let offset: usize = 0;
    let ghost done: Seq<FieldValue> = Seq::empty();
    let (uuid, offset): (u128, usize) = match read_next(bytes, offset, Ghost(schema), Ghost(done)) {
        Some(field) => field,
        None => {
            return Err(corrupt("uuid"));
        },
    };
    let ghost done: Seq<FieldValue> = done.push(FieldValue::U128(uuid));
    let (username, offset): (String, usize) =
        match read_next(bytes, offset, Ghost(schema), Ghost(done)) {
            Some(field) => field,
            None => {
                return Err(corrupt("username"));
            },
        };
    let ghost done: Seq<FieldValue> = done.push(FieldValue::Text(username@));
    let (properties, offset): (PrefixedArray<Property>, usize) =
        match read_next(bytes, offset, Ghost(schema), Ghost(done)) {
            Some(field) => field,
            None => {
                return Err(corrupt("properties"));
            },
        };
    let ghost done: Seq<FieldValue> = done.push(FieldValue::Properties(properties@));
    let packet: ClientboundPacket = ClientboundPacket::LoginSuccess { uuid, username, properties };
    proof {
        lemma_parse_end(schema, bytes@, offset as nat, done);
        assert(packet.fields() =~= done);
    }
    Ok(packet)
}

/// Reads the fields of `SetCompression` from a payload.
fn decode_set_compression(bytes: &Vec<u8>) -> (r: Result<ClientboundPacket, PacketParseError>)
    ensures
        match parse_fields(ClientboundKind::SetCompression.schema(), bytes@) {
            Ok(values) => r matches Ok(packet) && packet.kind() == ClientboundKind::SetCompression
                && packet.fields() == values,
            Err(name) => r matches Err(PacketParseError::CorruptPacket { problematic_field })
                && problematic_field@ == name,
        },
{
    let ghost schema: Seq<Field> = ClientboundKind::SetCompression.schema();
    proof {
        lemma_parse_start(schema, bytes@);
    }
    let offset: usize = 0;
    let ghost done: Seq<FieldValue> = Seq::empty();
    let (threshold, offset): (VarInt, usize) =
        match read_next(bytes, offset, Ghost(schema), Ghost(done)) {
            Some(field) => field,
            None => {
                return Err(corrupt("threshold"));
            },
        };
    let ghost done: Seq<FieldValue> = done.push(FieldValue::VarInt(threshold@));
    let packet: ClientboundPacket = ClientboundPacket::SetCompression { threshold };
    proof {
        lemma_parse_end(schema, bytes@, offset as nat, done);
        assert(packet.fields() =~= done);
    }
    Ok(packet)
}

/// Reads the fields of `LoginPluginRequest` from a payload.
fn decode_login_plugin_request(bytes: &Vec<u8>) -> (r: Result<ClientboundPacket, PacketParseError>)
    ensures
        match parse_fields(ClientboundKind::LoginPluginRequest.schema(), bytes@) {
            Ok(values) => r matches Ok(packet) && packet.kind()
                == ClientboundKind::LoginPluginRequest
                && packet.fields() == values,
            Err(name) => r matches Err(PacketParseError::CorruptPacket { problematic_field })
                && problematic_field@ == name,
        },
{
    let ghost schema: Seq<Field> = ClientboundKind::LoginPluginRequest.schema();
    proof {
        lemma_parse_start(schema, bytes@);
    }
    let offset: usize = 0;
    let ghost done: Seq<FieldValue> = Seq::empty();
    let (message_id, offset): (VarInt, usize) =
        match read_next(bytes, offset, Ghost(schema), Ghost(done)) {
            Some(field) => field,
            None => {
                return Err(corrupt("message_id"));
            },
        };
    let ghost done: Seq<FieldValue> = done.push(FieldValue::VarInt(message_id@));
    let (channel, offset): (String, usize) =
        match read_next(bytes, offset, Ghost(schema), Ghost(done)) {
            Some(field) => field,
            None => {
                return Err(corrupt("channel"));
            },
        };
    let ghost done: Seq<FieldValue> = done.push(FieldValue::Text(channel@));
    let (data, offset): (Vec<i8>, usize) =
        match read_next(bytes, offset, Ghost(schema), Ghost(done)) {
            Some(field) => field,
            None => {
                return Err(corrupt("data"));
            },
        };
    let ghost done: Seq<FieldValue> = done.push(FieldValue::ByteArray(data@));
    let packet: ClientboundPacket = ClientboundPacket::LoginPluginRequest {
        message_id,
        channel,
        data,
    };
    proof {
        lemma_parse_end(schema, bytes@, offset as nat, done);
        assert(packet.fields() =~= done);
    }
    Ok(packet)
}

/// Reads the fields of `CookieRequest` from a payload.
fn decode_cookie_request(bytes: &Vec<u8>) -> (r: Result<ClientboundPacket, PacketParseError>)
    ensures
        match parse_fields(ClientboundKind::CookieRequest.schema(), bytes@) {
            Ok(values) => r matches Ok(packet) && packet.kind() == ClientboundKind::CookieRequest
                && packet.fields() == values,
            Err(name) => r matches Err(PacketParseError::CorruptPacket { problematic_field })
                && problematic_field@ == name,
        },
{
    let ghost schema: Seq<Field> = ClientboundKind::CookieRequest.schema();
    proof {
        lemma_parse_start(schema, bytes@);
    }
    let offset: usize = 0;
    let ghost done: Seq<FieldValue> = Seq::empty();
    let (key, offset): (String, usize) =
        match read_next(bytes, offset, Ghost(schema), Ghost(done)) {
            Some(field) => field,
            None => {
                return Err(corrupt("key"));
            },
        };
    let ghost done: Seq<FieldValue> = done.push(FieldValue::Text(key@));
    let packet: ClientboundPacket = ClientboundPacket::CookieRequest { key };
    proof {
        lemma_parse_end(schema, bytes@, offset as nat, done);
        assert(packet.fields() =~= done);
    }
    Ok(packet)
}

/// Reads the fields of `PluginMessage` from a payload.
fn decode_plugin_message(bytes: &Vec<u8>) -> (r: Result<ClientboundPacket, PacketParseError>)
    ensures
        match parse_fields(ClientboundKind::PluginMessage.schema(), bytes@) {
            Ok(values) => r matches Ok(packet) && packet.kind() == ClientboundKind::PluginMessage
                && packet.fields() == values,
            Err(name) => r matches Err(PacketParseError::CorruptPacket { problematic_field })
                && problematic_field@ == name,
        },
{
    let ghost schema: Seq<Field> = ClientboundKind::PluginMessage.schema();
    proof {
        lemma_parse_start(schema, bytes@);
    }
    let offset: usize = 0;
    let ghost done: Seq<FieldValue> = Seq::empty();
    let (channel, offset): (String, usize) =
        match read_next(bytes, offset, Ghost(schema), Ghost(done)) {
            Some(field) => field,
            None => {
                return Err(corrupt("channel"));
            },
        };
    let ghost done: Seq<FieldValue> = done.push(FieldValue::Text(channel@));
    let (data, offset): (Vec<i8>, usize) =
        match read_next(bytes, offset, Ghost(schema), Ghost(done)) {
            Some(field) => field,
            None => {
                return Err(corrupt("data"));
            },
        };
    let ghost done: Seq<FieldValue> = done.push(FieldValue::ByteArray(data@));
    let packet: ClientboundPacket = ClientboundPacket::PluginMessage { channel, data };
    proof {
        lemma_parse_end(schema, bytes@, offset as nat, done);
        assert(packet.fields() =~= done);
    }
    Ok(packet)
}

/// Reads the fields of `FinishConfiguration` from a payload.
fn decode_finish_configuration(bytes: &Vec<u8>) -> (r: Result<ClientboundPacket, PacketParseError>)
    ensures
        match parse_fields(ClientboundKind::FinishConfiguration.schema(), bytes@) {
            Ok(values) => r matches Ok(packet) && packet.kind()
                == ClientboundKind::FinishConfiguration
                && packet.fields() == values,
            Err(name) => r matches Err(PacketParseError::CorruptPacket { problematic_field })
                && problematic_field@ == name,
        },
{
    Ok(ClientboundPacket::FinishConfiguration {})
}

/// Reads the fields of `KeepAlive` from a payload.
fn decode_keep_alive(bytes: &Vec<u8>) -> (r: Result<ClientboundPacket, PacketParseError>)
    ensures
        match parse_fields(ClientboundKind::KeepAlive.schema(), bytes@) {
            Ok(values) => r matches Ok(packet) && packet.kind() == ClientboundKind::KeepAlive
                && packet.fields() == values,
            Err(name) => r matches Err(PacketParseError::CorruptPacket { problematic_field })
                && problematic_field@ == name,
        },
{
    let ghost schema: Seq<Field> = ClientboundKind::KeepAlive.schema();
    proof {
        lemma_parse_start(schema, bytes@);
    }
    let offset: usize = 0;
    let ghost done: Seq<FieldValue> = Seq::empty();
    let (keep_alive_id, offset): (i64, usize) =
        match read_next(bytes, offset, Ghost(schema), Ghost(done)) {
            Some(field) => field,
            None => {
                return Err(corrupt("keep_alive_id"));
            },
        };
    let ghost done: Seq<FieldValue> = done.push(FieldValue::I64(keep_alive_id));
    let packet: ClientboundPacket = ClientboundPacket::KeepAlive { keep_alive_id };
    proof {
        lemma_parse_end(schema, bytes@, offset as nat, done);
        assert(packet.fields() =~= done);
    }
    Ok(packet)
}

/// Reads the fields of `Ping` from a payload.
fn decode_ping(bytes: &Vec<u8>) -> (r: Result<ClientboundPacket, PacketParseError>)
    ensures
        match parse_fields(ClientboundKind::Ping.schema(), bytes@) {
            Ok(values) => r matches Ok(packet) && packet.kind() == ClientboundKind::Ping
                && packet.fields() == values,
            Err(name) => r matches Err(PacketParseError::CorruptPacket { problematic_field })
                && problematic_field@ == name,
        },
{
    let ghost schema: Seq<Field> = ClientboundKind::Ping.schema();
    proof {
        lemma_parse_start(schema, bytes@);
    }
    let offset: usize = 0;
    let ghost done: Seq<FieldValue> = Seq::empty();
    let (id, offset): (i32, usize) = match read_next(bytes, offset, Ghost(schema), Ghost(done)) {
        Some(field) => field,
        None => {
            return Err(corrupt("id"));
        },
    };
    let ghost done: Seq<FieldValue> = done.push(FieldValue::I32(id));
    let packet: ClientboundPacket = ClientboundPacket::Ping { id };
    proof {
        lemma_parse_end(schema, bytes@, offset as nat, done);
        assert(packet.fields() =~= done);
    }
    Ok(packet)
}

/// Reads the fields of `ResetChat` from a payload.
fn decode_reset_chat(bytes: &Vec<u8>) -> (r: Result<ClientboundPacket, PacketParseError>)
    ensures
        match parse_fields(ClientboundKind::ResetChat.schema(), bytes@) {
            Ok(values) => r matches Ok(packet) && packet.kind() == ClientboundKind::ResetChat
                && packet.fields() == values,
            Err(name) => r matches Err(PacketParseError::CorruptPacket { problematic_field })
                && problematic_field@ == name,
        },
{
    Ok(ClientboundPacket::ResetChat {})
}

/// Reads the fields of `RegistryData` from a payload.
fn decode_registry_data(bytes: &Vec<u8>) -> (r: Result<ClientboundPacket, PacketParseError>)
    ensures
        match parse_fields(ClientboundKind::RegistryData.schema(), bytes@) {
            Ok(values) => r matches Ok(packet) && packet.kind() == ClientboundKind::RegistryData
                && packet.fields() == values,
            Err(name) => r matches Err(PacketParseError::CorruptPacket { problematic_field })
                && problematic_field@ == name,
        },
{
    let ghost schema: Seq<Field> = ClientboundKind::RegistryData.schema();
    proof {
        lemma_parse_start(schema, bytes@);
    }
    let offset: usize = 0;
    let ghost done: Seq<FieldValue> = Seq::empty();
    let (uuid, offset): (PrefixedOptional<u128>, usize) =
        match read_next(bytes, offset, Ghost(schema), Ghost(done)) {
            Some(field) => field,
            None => {
                return Err(corrupt("uuid"));
            },
        };
    let ghost done: Seq<FieldValue> = done.push(FieldValue::OptionalU128(uuid@));
    let packet: ClientboundPacket = ClientboundPacket::RegistryData { uuid };
    proof {
        lemma_parse_end(schema, bytes@, offset as nat, done);
        assert(packet.fields() =~= done);
    }
    Ok(packet)
}

/// Reads the fields of `AddResourcePack` from a payload.
fn decode_add_resource_pack(bytes: &Vec<u8>) -> (r: Result<ClientboundPacket, PacketParseError>)
    ensures
        match parse_fields(ClientboundKind::AddResourcePack.schema(), bytes@) {
            Ok(values) => r matches Ok(packet) && packet.kind() == ClientboundKind::AddResourcePack
                && packet.fields() == values,
            Err(name) => r matches Err(PacketParseError::CorruptPacket { problematic_field })
                && problematic_field@ == name,
        },
{
    Ok(ClientboundPacket::AddResourcePack {})
}

/// The values of a packet's fields fit the schema of its kind.
pub proof fn lemma_clientbound_fields_fit(packet: ClientboundPacket)
    ensures
        fits(packet.kind().schema(), packet.fields()),
{
}

/// The table is one table: the id under which a packet travels in a state means
/// that packet in that state.
pub proof fn lemma_clientbound_id_consistent(kind: ClientboundKind, state: ConnectionState)
    requires
        kind.id_in(state) is Some,
    ensures
        ClientboundKind::at(state, kind.id_in(state)->Some_0 as int) == Some(kind),
{
}

/// Round trip: the payload that a packet writes reads back, under the id and the
/// state it was written for, as the same kind of packet with the same field
/// values, whatever follows the payload.
pub proof fn lemma_clientbound_round_trip(
    packet: ClientboundPacket,
    state: ConnectionState,
    rest: Seq<u8>,
)
    requires
        fields_encodable(packet.fields()),
        packet.kind().id_in(state) is Some,
    ensures
        ({
            let id = packet.kind().id_in(state)->Some_0;
            let payload = wire_fields(packet.fields());
            &&& ClientboundKind::at(state, id as int) == Some(packet.kind())
            &&& parse_fields(packet.kind().schema(), payload + rest) == Ok::<
                Seq<FieldValue>,
                Seq<char>,
            >(packet.fields())
        }),
{
    lemma_clientbound_fields_fit(packet);
    lemma_clientbound_id_consistent(packet.kind(), state);
    lemma_fields_round_trip(packet.kind().schema(), packet.fields(), rest);
}

/// Round trip over the wire: the bytes that `serialize` gives for a packet hold
/// one frame, whatever follows them; the frame's id means the packet's kind in
/// the state it was written for, and its data reads back as the packet's field
/// values. Left out are the frames whose first byte is that of a legacy probe,
/// and those whose length or id an `isize` cannot hold.
pub proof fn lemma_clientbound_wire_round_trip(
    packet: ClientboundPacket,
    state: ConnectionState,
    rest: Seq<u8>,
)
    requires
        fields_encodable(packet.fields()),
        packet.kind().id_in(state) is Some,
        frameable(packet.kind().id_in(state)->Some_0, wire_fields(packet.fields()).len()),
        varint_encode(packet.kind().id_in(state)->Some_0).len() + wire_fields(
            packet.fields(),
        ).len() <= isize::MAX,
        frame(packet.kind().id_in(state)->Some_0, wire_fields(packet.fields()))[0]
            != LEGACY_PING,
    ensures
        ({
            let id = packet.kind().id_in(state)->Some_0;
            let payload = wire_fields(packet.fields());
            &&& frame_at(frame(id, payload) + rest) matches Some(found)
            &&& found.id == id
            &&& found.data == payload
            &&& found.consumed == frame(id, payload).len()
            &&& ClientboundKind::at(state, found.id) == Some(packet.kind())
            &&& parse_fields(packet.kind().schema(), found.data) == Ok::<
                Seq<FieldValue>,
                Seq<char>,
            >(packet.fields())
        }),
{
    let id = packet.kind().id_in(state)->Some_0;
    let payload = wire_fields(packet.fields());
    lemma_frame_round_trip(id, payload, rest);
    lemma_clientbound_round_trip(packet, state, Seq::empty());
    assert(payload + Seq::<u8>::empty() =~= payload);
}

} // verus!
