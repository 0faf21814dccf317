//! Type-discriminator dispatch for the two command directions.
//!
//! Each command buffer opens with a one-byte type id. Decoding reads it
//! and routes to the matching payload decoder; an id that matches no
//! variant fails with `DecodeError::UnknownCommandType`, never silently.

use vstd::prelude::*;

use crate::commands::{
    lemma_ping_round_trip, lemma_room_info_round_trip, ping_bytes, room_info_bytes,
    spec_ping_decode, spec_room_info_decode, PingCommand, RoomInfoCommand, RoomInfoView,
};
use crate::stream::{DecodeError, InOctetStream, OutOctetStream};

verus! {

/// Discriminator byte of a server-inbound `Ping` buffer.
pub const PING_COMMAND_TYPE_ID: u8 = 0x01;

/// Discriminator byte of a client-inbound `RoomInfo` buffer.
pub const ROOM_INFO_COMMAND_TYPE_ID: u8 = 0x02;

/// A command the server receives from a client.
#[derive(Debug)]
pub enum ServerReceiveCommand {
    PingCommandType(PingCommand),
}

/// A command a client receives from the server.
#[derive(Debug)]
pub enum ClientReceiveCommand {
    RoomInfoType(RoomInfoCommand),
}

/// The full server-inbound buffer: type id, then the ping payload.
pub open spec fn server_command_bytes(c: ServerReceiveCommand) -> Seq<u8> {
    match c {
        ServerReceiveCommand::PingCommandType(p) => seq![PING_COMMAND_TYPE_ID] + ping_bytes(p),
    }
}

/// Decoding a server-inbound buffer: dispatch on the leading type id.
pub open spec fn spec_server_decode(b: Seq<u8>) -> Result<ServerReceiveCommand, DecodeError> {
    if b.len() == 0 {
        Err(DecodeError::UnexpectedEndOfInput)
    } else if b[0] == PING_COMMAND_TYPE_ID {
        match spec_ping_decode(b.skip(1)) {
            Ok(p) => Ok(ServerReceiveCommand::PingCommandType(p)),
            Err(e) => Err(e),
        }
    } else {
        Err(DecodeError::UnknownCommandType(b[0]))
    }
}

/// The room snapshot a client-inbound command carries.
pub open spec fn client_command_view(c: ClientReceiveCommand) -> RoomInfoView {
    match c {
        ClientReceiveCommand::RoomInfoType(ri) => ri@,
    }
}

/// The full client-inbound buffer: type id, then the room payload.
pub open spec fn client_command_bytes(v: RoomInfoView) -> Seq<u8>
    recommends
        v.client_infos.len() <= 255,
{
    seq![ROOM_INFO_COMMAND_TYPE_ID] + room_info_bytes(v)
}

/// Decoding a client-inbound buffer: dispatch on the leading type id.
pub open spec fn spec_client_decode(b: Seq<u8>) -> Result<RoomInfoView, DecodeError> {
    if b.len() == 0 {
        Err(DecodeError::UnexpectedEndOfInput)
    } else if b[0] == ROOM_INFO_COMMAND_TYPE_ID {
        spec_room_info_decode(b.skip(1))
    } else {
        Err(DecodeError::UnknownCommandType(b[0]))
    }
}

impl ServerReceiveCommand {
    /// Appends the type id and the payload encoding to the stream.
    pub fn to_octets(&self, stream: &mut OutOctetStream)
        ensures
            final(stream).data@ == old(stream).data@ + server_command_bytes(*self),
    {
        let command_type_id = match self {
            ServerReceiveCommand::PingCommandType(_) => PING_COMMAND_TYPE_ID,
        };
        stream.write_u8(command_type_id);
        match self {
            ServerReceiveCommand::PingCommandType(ping_command) => {
                ping_command.to_octets(stream);
            },
        }
        assert(stream.data@ =~= old(stream).data@ + server_command_bytes(*self));
    }

    /// Reads the type id and routes to the ping decoder; any other id
    /// fails with `UnknownCommandType` carrying the offending byte.
    pub fn from_cursor(stream: &mut InOctetStream) -> (r: Result<
        ServerReceiveCommand,
        DecodeError,
    >)
        requires
            old(stream).wf(),
        ensures
            final(stream).wf(),
            final(stream).data@ == old(stream).data@,
            r == spec_server_decode(old(stream).remaining()),
            r is Ok ==> final(stream).pos == old(stream).pos + 12,
    {
        let command_type_id = match stream.read_u8() {
            Ok(v) => v,
            Err(e) => {
                return Err(e);
            },
        };
        if command_type_id == PING_COMMAND_TYPE_ID {
            assert(stream.remaining() =~= old(stream).remaining().skip(1));
            match PingCommand::from_cursor(stream) {
                Ok(ping_command) => Ok(ServerReceiveCommand::PingCommandType(ping_command)),
                Err(e) => Err(e),
            }
        } else {
            Err(DecodeError::UnknownCommandType(command_type_id))
        }
    }
}

impl ClientReceiveCommand {
    /// Appends the type id and the payload encoding to the stream.
    pub fn to_octets(&self, stream: &mut OutOctetStream)
        requires
            client_command_view(*self).client_infos.len() <= 255,
        ensures
            final(stream).data@ == old(stream).data@ + client_command_bytes(
                client_command_view(*self),
            ),
    {
        let command_type_id = match self {
            ClientReceiveCommand::RoomInfoType(_) => ROOM_INFO_COMMAND_TYPE_ID,
        };
        stream.write_u8(command_type_id);
        match self {
            ClientReceiveCommand::RoomInfoType(room_info_command) => {
                room_info_command.to_octets(stream);
            },
        }
        assert(stream.data@ =~= old(stream).data@ + client_command_bytes(
            client_command_view(*self),
        ));
    }

    /// Reads the type id and routes to the room-info decoder; any other
    /// id fails with `UnknownCommandType` carrying the offending byte.
    pub fn from_octets(stream: &mut InOctetStream) -> (r: Result<
        ClientReceiveCommand,
        DecodeError,
    >)
        requires
            old(stream).wf(),
        ensures
            final(stream).wf(),
            final(stream).data@ == old(stream).data@,
            match r {
                Ok(c) => {
                    &&& spec_client_decode(old(stream).remaining())
                        == Ok::<RoomInfoView, DecodeError>(client_command_view(c))
                    &&& client_command_view(c).client_infos.len() <= 255
                    &&& final(stream).pos == old(stream).pos + 5 + 9 * client_command_view(
                        c,
                    ).client_infos.len()
                },
                Err(e) => spec_client_decode(old(stream).remaining()) == Err::<
                    RoomInfoView,
                    DecodeError,
                >(e),
            },
    {
        let command_type_id = match stream.read_u8() {
            Ok(v) => v,
            Err(e) => {
                return Err(e);
            },
        };
        if command_type_id == ROOM_INFO_COMMAND_TYPE_ID {
            assert(stream.remaining() =~= old(stream).remaining().skip(1));
            match RoomInfoCommand::from_cursor(stream) {
                Ok(room_info_command) => Ok(ClientReceiveCommand::RoomInfoType(room_info_command)),
                Err(e) => Err(e),
            }
        } else {
            Err(DecodeError::UnknownCommandType(command_type_id))
        }
    }
}

/// Round trip: every server-inbound command decodes back from its own
/// encoding.
pub proof fn lemma_server_round_trip(c: ServerReceiveCommand)
    ensures
        spec_server_decode(server_command_bytes(c)) == Ok::<ServerReceiveCommand, DecodeError>(c),
{
    match c {
        ServerReceiveCommand::PingCommandType(p) => {
            let b = server_command_bytes(c);
            assert(b[0] == PING_COMMAND_TYPE_ID);
            assert(b.skip(1) =~= ping_bytes(p));
            lemma_ping_round_trip(p);
        },
    }
}

/// Round trip: every client-inbound command whose client list fits the
/// count byte decodes back from its own encoding.
pub proof fn lemma_client_round_trip(v: RoomInfoView)
    requires
        v.client_infos.len() <= 255,
    ensures
        spec_client_decode(client_command_bytes(v)) == Ok::<RoomInfoView, DecodeError>(v),
{
    let b = client_command_bytes(v);
    assert(b[0] == ROOM_INFO_COMMAND_TYPE_ID);
    assert(b.skip(1) =~= room_info_bytes(v));
    lemma_room_info_round_trip(v);
}

/// Dispatch correctness, server side: the known id routes to the ping
/// decoder, every other id fails with `UnknownCommandType`, and an
/// empty buffer runs out of input.
pub proof fn lemma_server_dispatch(b: Seq<u8>)
    ensures
        b.len() == 0 ==> spec_server_decode(b) == Err::<ServerReceiveCommand, DecodeError>(
            DecodeError::UnexpectedEndOfInput,
        ),
        b.len() > 0 && b[0] == PING_COMMAND_TYPE_ID ==> spec_server_decode(b) == (match spec_ping_decode(
            b.skip(1),
        ) {
            Ok(p) => Ok::<ServerReceiveCommand, DecodeError>(
                ServerReceiveCommand::PingCommandType(p),
            ),
            Err(e) => Err(e),
        }),
        b.len() > 0 && b[0] != PING_COMMAND_TYPE_ID ==> spec_server_decode(b) == Err::<
            ServerReceiveCommand,
            DecodeError,
        >(DecodeError::UnknownCommandType(b[0])),
{
}

/// Dispatch correctness, client side: the known id routes to the
/// room-info decoder, every other id fails with `UnknownCommandType`,
/// and an empty buffer runs out of input.
pub proof fn lemma_client_dispatch(b: Seq<u8>)
    ensures
        b.len() == 0 ==> spec_client_decode(b) == Err::<RoomInfoView, DecodeError>(
            DecodeError::UnexpectedEndOfInput,
        ),
        b.len() > 0 && b[0] == ROOM_INFO_COMMAND_TYPE_ID ==> spec_client_decode(b)
            == spec_room_info_decode(b.skip(1)),
        b.len() > 0 && b[0] != ROOM_INFO_COMMAND_TYPE_ID ==> spec_client_decode(b) == Err::<
            RoomInfoView,
            DecodeError,
        >(DecodeError::UnknownCommandType(b[0])),
{
}

/// Truncation safety, server side: decoding any proper non-empty prefix
/// of a valid encoded buffer fails with `UnexpectedEndOfInput`.
pub proof fn lemma_server_truncation(c: ServerReceiveCommand, k: int)
    requires
        0 < k < server_command_bytes(c).len(),
    ensures
        spec_server_decode(server_command_bytes(c).take(k)) == Err::<
            ServerReceiveCommand,
            DecodeError,
        >(DecodeError::UnexpectedEndOfInput),
{
    match c {
        ServerReceiveCommand::PingCommandType(p) => {
            let b = server_command_bytes(c);
            let t = b.take(k);
            assert(t[0] == PING_COMMAND_TYPE_ID);
            assert(t.skip(1).len() == k - 1);
            assert(b.len() == 12);
        },
    }
}

/// Truncation safety, client side: decoding any proper non-empty prefix
/// of a valid encoded buffer fails with `UnexpectedEndOfInput`.
pub proof fn lemma_client_truncation(v: RoomInfoView, k: int)
    requires
        v.client_infos.len() <= 255,
        0 < k < client_command_bytes(v).len(),
    ensures
        spec_client_decode(client_command_bytes(v).take(k)) == Err::<RoomInfoView, DecodeError>(
            DecodeError::UnexpectedEndOfInput,
        ),
{
    let b = client_command_bytes(v);
    let n = v.client_infos.len() as int;
    crate::commands::lemma_client_infos_bytes_len(v.client_infos);
    assert(b.len() == 5 + 9 * n);
    let t = b.take(k);
    assert(t[0] == ROOM_INFO_COMMAND_TYPE_ID);
    let u = t.skip(1);
    assert(u =~= room_info_bytes(v).take(k - 1));
    assert(u.len() == k - 1);
    if k - 1 >= 3 {
        assert(room_info_bytes(v)[2] == (v.client_infos.len() as u8));
        assert(u[2] == (v.client_infos.len() as u8));
        assert(u.len() < 4 + 9 * (u[2] as int));
    }
}

} // verus!
