//! The first packet a client sends: the handshake, and what the server does
//! next because of it.
use vstd::prelude::*;
use crate::bytes::be_value;
use crate::packet::Packet;
use crate::varint::{decode_varint, read_string_spec, try_read_varint, try_read_varint_string};

verus! {

/// The fields of a handshake packet.
#[derive(Debug)]
pub struct Handshake {
    pub protocol_version: u32,
    pub host: String,
    pub port: u16,
    pub next_state: u32,
}

/// What the server does with a connection after its first packet.
#[derive(Debug, Clone, Copy, PartialEq, Eq, Structural)]
pub enum ClientAction {
    /// Answer a status request and a ping.
    Status,
    /// Run the login and join the player to the game.
    Login,
    /// Do nothing more and close.
    Close,
}

/// The handshake fields that `data` holds, in order: the protocol version as
/// a VarInt, the host as a VarInt-prefixed string, the port as two bytes
/// most significant first, the next state as a VarInt; bytes after it are
/// ignored. `None` where a field is missing or malformed.
pub open spec fn handshake_spec(data: Seq<u8>) -> Option<(u32, Seq<char>, u16, u32)> {
    match decode_varint(data) {
        None => None,
        Some((protocol_version, k)) => match read_string_spec(data.skip(k as int)) {
            Some((Ok(host), rest)) => if rest.len() < 2 {
                None
            } else {
                match decode_varint(rest.skip(2)) {
                    Some((next_state, _)) => Some(
                        (protocol_version, host, be_value(rest.take(2)) as u16, next_state),
                    ),
                    None => None,
                }
            },
            _ => None,
        },
    }
}

/// A handshake whose fields are all present gives the protocol version and
/// the host as read, the port as the two bytes after the host, most
/// significant first, and the next state as read.
pub proof fn lemma_handshake_fields(data: Seq<u8>)
    ensures
        decode_varint(data) matches Some((protocol_version, k)) ==> (read_string_spec(
            data.skip(k as int),
        ) matches Some((Ok(host), rest)) ==> (rest.len() >= 2 ==> (decode_varint(rest.skip(2)) matches Some(
            (next_state, _),
        ) ==> handshake_spec(data) matches Some((v, h, port, n)) && v == protocol_version && h
            == host && port == rest[0] * 256 + rest[1] && n == next_state))),
{
    if let Some((protocol_version, k)) = decode_varint(data) {
        if let Some((Ok(host), rest)) = read_string_spec(data.skip(k as int)) {
            if rest.len() >= 2 {
                reveal_with_fuel(be_value, 3);
                assert(rest.take(2).drop_last() =~= seq![rest[0]]);
                assert(seq![rest[0]].drop_last() =~= Seq::<u8>::empty());
                assert(be_value(rest.take(2)) == rest[0] * 256 + rest[1]);
            }
        }
    }
}

/// A handshake is refused exactly where a field is missing or unreadable:
/// the protocol version, the host (cut short or no UTF-8), the two port
/// bytes, or the next state.
pub proof fn lemma_handshake_refused(data: Seq<u8>)
    ensures
        handshake_spec(data) is Some <==> (decode_varint(data) matches Some((_, k)) && (read_string_spec(
            data.skip(k as int),
        ) matches Some((Ok(_), rest)) && rest.len() >= 2 && decode_varint(rest.skip(2)) is Some)),
{
}

/// Reads the fields of a handshake from its data.
///
/// `None` exactly where the server gives up on the connection: a VarInt is
/// incomplete or longer than five bytes, the host is cut short or is no
/// valid UTF-8, or the port or the next state is missing.
pub fn parse_handshake(data: Vec<u8>) -> (r: Option<Handshake>)
    ensures
        match r {
            Some(h) => handshake_spec(data@) == Some((h.protocol_version, h.host@, h.port, h.next_state)),
            None => handshake_spec(data@) is None,
        },
{
    let mut data = data;
    let protocol_version = match try_read_varint(&mut data) {
        Some(v) => v,
        None => return None,
    };
    let host = match try_read_varint_string(&mut data) {
        Some(Ok(host)) => host,
        _ => return None,
    };
    if data.len() < 2 {
        return None;
    }
    let port: u16 = (data[0] as u16) * 256 + (data[1] as u16);
    let ghost rest = data@;
    proof {
        reveal_with_fuel(be_value, 3);
        assert(rest.take(2).drop_last() =~= seq![rest[0]]);
        assert(seq![rest[0]].drop_last() =~= Seq::<u8>::empty());
        assert(be_value(rest.take(2)) == rest[0] * 256 + rest[1]);
    }
    let mut tail = data.split_off(2);
    assert(tail@ =~= rest.skip(2));
    let next_state = match try_read_varint(&mut tail) {
        Some(v) => v,
        None => return None,
    };
    Some(Handshake { protocol_version, host, port, next_state })
}

/// What the server does after the first packet: a handshake (packet id 0)
/// that asks for state 1 gets the status answered, one that asks for
/// state 2 gets the login; any other packet or state closes. `None` where
/// the handshake cannot be read.
pub open spec fn client_action_spec(packet_id: u32, data: Seq<u8>) -> Option<ClientAction> {
    if packet_id != 0 {
        Some(ClientAction::Close)
    } else {
        match handshake_spec(data) {
            None => None,
            Some((_, _, _, next_state)) => Some(
                if next_state == 1 {
                    ClientAction::Status
                } else if next_state == 2 {
                    ClientAction::Login
                } else {
                    ClientAction::Close
                },
            ),
        }
    }
}

/// A first packet with another id than 0 closes the connection; a
/// handshake asking for state 1 gets the status, one asking for state 2 the
/// login, any other state closes; an unreadable handshake gives no action.
pub proof fn lemma_client_action(packet_id: u32, data: Seq<u8>)
    ensures
        packet_id != 0 ==> client_action_spec(packet_id, data) == Some(ClientAction::Close),
        packet_id == 0 ==> (handshake_spec(data) is None <==> client_action_spec(packet_id, data) is None),
        packet_id == 0 ==> (handshake_spec(data) matches Some((_, _, _, next_state)) ==> {
            &&& next_state == 1 ==> client_action_spec(packet_id, data) == Some(ClientAction::Status)
            &&& next_state == 2 ==> client_action_spec(packet_id, data) == Some(ClientAction::Login)
            &&& next_state != 1 && next_state != 2 ==> client_action_spec(packet_id, data) == Some(
                ClientAction::Close,
            )
        }),
{
}

/// Decides what to do with a connection from the first packet it sent.
pub fn client_action(packet: Packet) -> (r: Option<ClientAction>)
    ensures
        r == client_action_spec(packet.packet_id, packet.data@),
{
    if packet.packet_id != 0 {
        return Some(ClientAction::Close);
    }
    match parse_handshake(packet.data) {
        None => None,
        Some(h) => {
            if h.next_state == 1 {
                Some(ClientAction::Status)
            } else if h.next_state == 2 {
                Some(ClientAction::Login)
            } else {
                Some(ClientAction::Close)
            }
        },
    }
}

} // verus!
