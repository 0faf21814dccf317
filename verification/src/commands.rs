//! Command payload types and their binary layouts.

use vstd::prelude::*;

use conclave_room::{Knowledge, Term};

use crate::stream::{
    be16, be64, lemma_be16_round_trip, lemma_be64_round_trip, u16_be_bytes, u64_be_bytes,
    DecodeError, InOctetStream, OutOctetStream,
};

verus! {

/// Client-to-server heartbeat and status report.
#[derive(Debug, PartialEq)]
pub struct PingCommand {
    pub term: Term,
    pub knowledge: Knowledge,
    pub has_connection_to_leader: bool,
}

/// The boolean wire octet: strict on encode, `0x01` or `0x00`.
pub open spec fn bool_octet(b: bool) -> u8 {
    if b {
        0x01
    } else {
        0x00
    }
}

/// The 11-byte payload layout of a ping:
/// `term` (u16), `knowledge` (u64), `has_connection_to_leader` (u8).
pub open spec fn ping_bytes(c: PingCommand) -> Seq<u8> {
    u16_be_bytes(c.term) + u64_be_bytes(c.knowledge) + seq![bool_octet(c.has_connection_to_leader)]
}

/// The ping a well-formed 11-byte payload denotes. Any nonzero final
/// octet reads as `true` (lenient decode).
pub open spec fn ping_from_bytes(b: Seq<u8>) -> PingCommand
    recommends
        b.len() >= 11,
{
    PingCommand {
        term: be16(b[0], b[1]),
        knowledge: be64(b.subrange(2, 10)),
        has_connection_to_leader: b[10] != 0,
    }
}

/// Decoding a ping payload: succeeds exactly when 11 bytes are available.
pub open spec fn spec_ping_decode(b: Seq<u8>) -> Result<PingCommand, DecodeError> {
    if b.len() >= 11 {
        Ok(ping_from_bytes(b))
    } else {
        Err(DecodeError::UnexpectedEndOfInput)
    }
}

impl PingCommand {
    /// Appends this ping's 11-byte payload to the stream.
    pub fn to_octets(&self, stream: &mut OutOctetStream)
        ensures
            final(stream).data@ == old(stream).data@ + ping_bytes(*self),
    {
        stream.write_u16(self.term);
        stream.write_u64(self.knowledge);
        stream.write_u8(if self.has_connection_to_leader {
            0x01
        } else {
            0x00
        });
        assert(stream.data@ =~= old(stream).data@ + ping_bytes(*self));
    }

    /// Reads an 11-byte ping payload from the cursor.
    pub fn from_cursor(stream: &mut InOctetStream) -> (r: Result<Self, DecodeError>)
        requires
            old(stream).wf(),
        ensures
            final(stream).wf(),
            final(stream).data@ == old(stream).data@,
            r == spec_ping_decode(old(stream).remaining()),
            r is Ok ==> final(stream).pos == old(stream).pos + 11,
    {
        let term = match stream.read_u16() {
            Ok(v) => v,
            Err(e) => {
                return Err(e);
            },
        };
        let knowledge = match stream.read_u64() {
            Ok(v) => v,
            Err(e) => {
                return Err(e);
            },
        };
        let flag = match stream.read_u8() {
            Ok(v) => v,
            Err(e) => {
                return Err(e);
            },
        };
        proof {
            let rem = old(stream).remaining();
            assert(rem.subrange(2, 10) =~= old(stream).data@.subrange(
                old(stream).pos + 2,
                old(stream).pos + 10,
            ));
            assert(rem[10] == old(stream).data@[old(stream).pos + 10]);
        }
        Ok(PingCommand { term, knowledge, has_connection_to_leader: flag != 0 })
    }
}

/// Round trip: every ping decodes back from its own encoding.
pub proof fn lemma_ping_round_trip(c: PingCommand)
    ensures
        spec_ping_decode(ping_bytes(c)) == Ok::<PingCommand, DecodeError>(c),
{
    let b = ping_bytes(c);
    assert(b.len() == 11);
    lemma_be16_round_trip(c.term);
    assert(b[0] == u16_be_bytes(c.term)[0]);
    assert(b[1] == u16_be_bytes(c.term)[1]);
    assert(b.subrange(2, 10) =~= u64_be_bytes(c.knowledge));
    lemma_be64_round_trip(c.knowledge);
    assert(b[10] == bool_octet(c.has_connection_to_leader));
    assert(ping_from_bytes(b) == c);
}

/// Boolean leniency: the flag octet decodes to `true` exactly when nonzero.
pub proof fn lemma_bool_leniency(b: Seq<u8>)
    requires
        b.len() >= 11,
    ensures
        spec_ping_decode(b) == Ok::<PingCommand, DecodeError>(ping_from_bytes(b)),
        ping_from_bytes(b).has_connection_to_leader == (b[10] != 0),
{
}

/// One entry of a room snapshot: a connected client.
#[derive(Debug, PartialEq, Clone)]
pub struct ClientInfo {
    pub custom_user_id: u64,
    pub connection_index: u8,
}

/// Server-to-client room snapshot.
#[derive(Debug, PartialEq)]
pub struct RoomInfoCommand {
    pub term: Term,
    pub leader_index: u8,
    pub client_infos: Vec<ClientInfo>,
}

/// Mathematical model of a room snapshot: the client list as a sequence.
#[verifier::ext_equal]
pub ghost struct RoomInfoView {
    pub term: u16,
    pub leader_index: u8,
    pub client_infos: Seq<ClientInfo>,
}

impl View for RoomInfoCommand {
    type V = RoomInfoView;

    open spec fn view(&self) -> RoomInfoView {
        RoomInfoView {
            term: self.term,
            leader_index: self.leader_index,
            client_infos: self.client_infos@,
        }
    }
}

/// The 9-byte layout of one client entry:
/// `connection_index` (u8) then `custom_user_id` (u64).
pub open spec fn client_info_bytes(ci: ClientInfo) -> Seq<u8> {
    seq![ci.connection_index] + u64_be_bytes(ci.custom_user_id)
}

/// The client entries laid out one after another, in sequence order.
pub open spec fn client_infos_bytes(s: Seq<ClientInfo>) -> Seq<u8>
    decreases s.len(),
{
    if s.len() == 0 {
        Seq::empty()
    } else {
        client_infos_bytes(s.drop_last()) + client_info_bytes(s.last())
    }
}

/// Each client entry takes 9 bytes on the wire.
pub proof fn lemma_client_infos_bytes_len(s: Seq<ClientInfo>)
    ensures
        client_infos_bytes(s).len() == 9 * s.len(),
    decreases s.len(),
{
    if s.len() > 0 {
        lemma_client_infos_bytes_len(s.drop_last());
    }
}

/// The `4 + 9 * count`-byte payload layout of a room snapshot:
/// `term` (u16), `count` (u8), the client entries, `leader_index` (u8).
pub open spec fn room_info_bytes(v: RoomInfoView) -> Seq<u8>
    recommends
        v.client_infos.len() <= 255,
{
    u16_be_bytes(v.term) + seq![(v.client_infos.len() as u8)] + client_infos_bytes(v.client_infos)
        + seq![v.leader_index]
}

/// The `n` client entries a byte region denotes, 9 bytes each from offset 0.
pub open spec fn client_infos_from_bytes(b: Seq<u8>, n: nat) -> Seq<ClientInfo>
    recommends
        b.len() >= 9 * n,
{
    Seq::new(
        n,
        |i: int|
            ClientInfo {
                connection_index: b[9 * i],
                custom_user_id: be64(b.subrange(9 * i + 1, 9 * i + 9)),
            },
    )
}

/// The room snapshot a well-formed payload denotes: the declared count
/// at offset 2 fixes where the entries end and the leader byte sits.
pub open spec fn room_info_from_bytes(b: Seq<u8>) -> RoomInfoView
    recommends
        b.len() >= 4 + 9 * (b[2] as int),
{
    RoomInfoView {
        term: be16(b[0], b[1]),
        leader_index: b[3 + 9 * (b[2] as int)],
        client_infos: client_infos_from_bytes(b.skip(3), b[2] as nat),
    }
}

/// Decoding a room payload: succeeds exactly when the declared count
/// leaves enough bytes for the entries and the leader index.
pub open spec fn spec_room_info_decode(b: Seq<u8>) -> Result<RoomInfoView, DecodeError> {
    if b.len() < 3 {
        Err(DecodeError::UnexpectedEndOfInput)
    } else if b.len() < 4 + 9 * (b[2] as int) {
        Err(DecodeError::UnexpectedEndOfInput)
    } else {
        Ok(room_info_from_bytes(b))
    }
}

impl RoomInfoCommand {
    /// Appends this snapshot's payload to the stream. The client list
    /// must fit the one-byte count; constructing a longer one is the
    /// caller's breach of the wire format.
    pub fn to_octets(&self, stream: &mut OutOctetStream)
        requires
            self.client_infos@.len() <= 255,
        ensures
            final(stream).data@ == old(stream).data@ + room_info_bytes(self@),
    {
        stream.write_u16(self.term);
        stream.write_u8(self.client_infos.len() as u8);
        let n = self.client_infos.len();
        let mut i: usize = 0;
        while i < n
            invariant
                n == self.client_infos@.len(),
                n <= 255,
                i <= n,
                stream.data@ == old(stream).data@ + u16_be_bytes(self.term)
                    + seq![(self.client_infos@.len() as u8)]
                    + client_infos_bytes(self.client_infos@.take(i as int)),
            decreases n - i,
        {
            let ci = &self.client_infos[i];
            stream.write_u8(ci.connection_index);
            stream.write_u64(ci.custom_user_id);
            proof {
                let s = self.client_infos@;
                assert(s.take(i + 1).drop_last() =~= s.take(i as int));
                assert(s.take(i + 1).last() == s[i as int]);
                assert(stream.data@ =~= old(stream).data@ + u16_be_bytes(self.term)
                    + seq![(s.len() as u8)] + client_infos_bytes(s.take(i + 1)));
            }
            i = i + 1;
        }
        stream.write_u8(self.leader_index);
        proof {
            let s = self.client_infos@;
            assert(s.take(n as int) =~= s);
            assert(stream.data@ =~= old(stream).data@ + room_info_bytes(self@));
        }
    }

    /// Reads a room snapshot payload from the cursor: `term`, `count`,
    /// then exactly `count` client entries and the `leader_index`.
    pub fn from_cursor(stream: &mut InOctetStream) -> (r: Result<Self, DecodeError>)
        requires
            old(stream).wf(),
        ensures
            final(stream).wf(),
            final(stream).data@ == old(stream).data@,
            match r {
                Ok(c) => {
                    &&& spec_room_info_decode(old(stream).remaining())
                        == Ok::<RoomInfoView, DecodeError>(c@)
                    &&& c.client_infos@.len() <= 255
                    &&& final(stream).pos == old(stream).pos + 4 + 9 * c.client_infos@.len()
                },
                Err(e) => spec_room_info_decode(old(stream).remaining())
                    == Err::<RoomInfoView, DecodeError>(e),
            },
    {
        let ghost rem = old(stream).remaining();
        let term = match stream.read_u16() {
            Ok(v) => v,
            Err(e) => {
                return Err(e);
            },
        };
        let count = match stream.read_u8() {
            Ok(v) => v,
            Err(e) => {
                return Err(e);
            },
        };
        assert(count == rem[2]);
        let mut infos: Vec<ClientInfo> = Vec::new();
        let mut i: usize = 0;
        while i < count as usize
            invariant
                stream.wf(),
                stream.data@ == old(stream).data@,
                rem == old(stream).remaining(),
                rem.len() >= 3,
                count == rem[2],
                i <= count,
                stream.pos == old(stream).pos + 3 + 9 * i,
                infos@.len() == i,
                forall|j: int|
                    0 <= j < i ==> #[trigger] infos@[j] == (ClientInfo {
                        connection_index: rem[3 + 9 * j],
                        custom_user_id: be64(rem.subrange(3 + 9 * j + 1, 3 + 9 * j + 9)),
                    }),
            decreases count - i,
        {
            let connection_index = match stream.read_u8() {
                Ok(v) => v,
                Err(e) => {
                    assert(rem.len() < 4 + 9 * (rem[2] as int));
                    return Err(e);
                },
            };
            let custom_user_id = match stream.read_u64() {
                Ok(v) => v,
                Err(e) => {
                    assert(rem.len() < 4 + 9 * (rem[2] as int));
                    return Err(e);
                },
            };
            proof {
                let j = i as int;
                assert(old(stream).data@.subrange(
                    old(stream).pos + 3 + 9 * j + 1,
                    old(stream).pos + 3 + 9 * j + 9,
                ) =~= rem.subrange(3 + 9 * j + 1, 3 + 9 * j + 9));
                assert(rem[3 + 9 * j] == old(stream).data@[old(stream).pos + 3 + 9 * j]);
            }
            infos.push(ClientInfo { custom_user_id, connection_index });
            i = i + 1;
        }
        let leader_index = match stream.read_u8() {
            Ok(v) => v,
            Err(e) => {
                assert(rem.len() < 4 + 9 * (rem[2] as int));
                return Err(e);
            },
        };
        let c = RoomInfoCommand { term, leader_index, client_infos: infos };
        proof {
            let n = count as int;
            assert(rem.len() >= 4 + 9 * n);
            assert(rem[3 + 9 * n] == old(stream).data@[old(stream).pos + 3 + 9 * n]);
            assert forall|j: int| 0 <= j < n implies client_infos_from_bytes(
                rem.skip(3),
                count as nat,
            )[j] == c.client_infos@[j] by {
                assert(rem.skip(3)[9 * j] == rem[3 + 9 * j]);
                assert(rem.skip(3).subrange(9 * j + 1, 9 * j + 9) =~= rem.subrange(
                    3 + 9 * j + 1,
                    3 + 9 * j + 9,
                ));
            }
            assert(client_infos_from_bytes(rem.skip(3), count as nat) =~= c.client_infos@);
            assert(c@ =~= room_info_from_bytes(rem));
        }
        Ok(c)
    }
}

/// Round trip: every room snapshot whose client list fits the count
/// byte decodes back from its own encoding.
pub proof fn lemma_room_info_round_trip(v: RoomInfoView)
    requires
        v.client_infos.len() <= 255,
    ensures
        spec_room_info_decode(room_info_bytes(v)) == Ok::<RoomInfoView, DecodeError>(v),
{
    let b = room_info_bytes(v);
    let s = v.client_infos;
    let n = s.len() as int;
    lemma_client_infos_bytes_len(s);
    assert(b.len() == 4 + 9 * n);
    assert(b[2] == (s.len() as u8));
    assert(b[2] as int == n);
    lemma_be16_round_trip(v.term);
    assert(b[0] == u16_be_bytes(v.term)[0]);
    assert(b[1] == u16_be_bytes(v.term)[1]);
    assert(b[3 + 9 * n] == v.leader_index);
    lemma_client_infos_round_trip(s);
    let cb = client_infos_bytes(s);
    assert forall|j: int| 0 <= j < n implies client_infos_from_bytes(b.skip(3), s.len())[j]
        == client_infos_from_bytes(cb, s.len())[j] by {
        assert(b.skip(3)[9 * j] == cb[9 * j]);
        assert(b.skip(3).subrange(9 * j + 1, 9 * j + 9) =~= cb.subrange(9 * j + 1, 9 * j + 9));
    }
    assert(client_infos_from_bytes(b.skip(3), s.len()) =~= client_infos_from_bytes(cb, s.len()));
    assert(room_info_from_bytes(b) =~= v);
}

/// Round trip for the entry region: laying out any client list and
/// reading it back entry by entry gives the same list.
pub proof fn lemma_client_infos_round_trip(s: Seq<ClientInfo>)
    ensures
        client_infos_from_bytes(client_infos_bytes(s), s.len()) == s,
    decreases s.len(),
{
    lemma_client_infos_bytes_len(s);
    let n = s.len() as int;
    let b = client_infos_bytes(s);
    if s.len() == 0 {
        assert(client_infos_from_bytes(b, s.len()) =~= s);
    } else {
        let s0 = s.drop_last();
        lemma_client_infos_round_trip(s0);
        lemma_client_infos_bytes_len(s0);
        let b0 = client_infos_bytes(s0);
        let cb = client_info_bytes(s.last());
        assert forall|i: int| 0 <= i < n implies client_infos_from_bytes(b, s.len())[i]
            == s[i] by {
            if i < n - 1 {
                assert(b[9 * i] == b0[9 * i]);
                assert(b.subrange(9 * i + 1, 9 * i + 9) =~= b0.subrange(9 * i + 1, 9 * i + 9));
                assert(client_infos_from_bytes(b0, s0.len())[i] == s0[i]);
            } else {
                assert(b[9 * i] == cb[0]);
                assert(b.subrange(9 * i + 1, 9 * i + 9) =~= u64_be_bytes(
                    s.last().custom_user_id,
                ));
                lemma_be64_round_trip(s.last().custom_user_id);
            }
        }
        assert(client_infos_from_bytes(b, s.len()) =~= s);
    }
}

} // verus!

