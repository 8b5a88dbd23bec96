//! The login start packet: the player's name and, optionally, GUID.
use vstd::prelude::*;
use crate::bytes::{be_bytes, be_u128, be_value, lemma_be_bytes_of_value, lemma_be_value_bound, pow256};
use crate::varint::{decode_varint, lemma_decode_from_len, VarintState, read_string_spec, try_read_varint, try_read_varint_string};

verus! {

/// What a login start packet says.
#[derive(Debug)]
pub struct LoginStart {
    pub username: String,
    pub guid: u128,
}

/// Why a login start packet was refused.
#[derive(Debug, Clone, Copy, PartialEq, Eq, Structural)]
pub enum LoginError {
    /// The name's length prefix announces more bytes than the packet holds.
    BufferTooSmall,
    /// A VarInt is incomplete or too long, the name is no valid UTF-8, or a
    /// GUID is announced and fewer than 16 bytes follow; the server gives up
    /// on the connection.
    Malformed,
}

/// What a login start packet's data says: the name as a VarInt-prefixed
/// string, then a VarInt flag; when the flag is 1, a GUID in the next 16
/// bytes, most significant first, else GUID 0. Bytes after are ignored.
pub open spec fn login_start_spec(data: Seq<u8>) -> Result<(Seq<char>, u128), LoginError> {
    match read_string_spec(data) {
        None => Err(LoginError::Malformed),
        Some((Err(_), _)) => Err(LoginError::BufferTooSmall),
        Some((Ok(username), rest)) => match decode_varint(rest) {
            None => Err(LoginError::Malformed),
            Some((flag, k)) => if flag == 1 {
                let tail = rest.skip(k as int);
                if tail.len() < 16 {
                    Err(LoginError::Malformed)
                } else {
                    Ok((username, be_value(tail.take(16)) as u128))
                }
            } else {
                Ok((username, 0))
            },
        },
    }
}

/// After a well-formed name: a flag of 1 followed by at least 16 bytes gives
/// the name and a GUID whose 16 big-endian bytes are exactly those bytes;
/// any other flag gives the name and GUID 0.
pub proof fn lemma_login_start_guid(data: Seq<u8>)
    ensures
        read_string_spec(data) matches Some((Ok(name), rest)) ==> (decode_varint(rest) matches Some(
            (flag, k),
        ) ==> (flag == 1 && rest.len() >= k + 16 ==> (login_start_spec(data) matches Ok((n, guid)) && n
            == name && be_bytes(guid as nat, 16) == rest.subrange(k as int, (k + 16) as int))) && (flag != 1
            ==> login_start_spec(data) == Ok::<(Seq<char>, u128), LoginError>((name, 0)))),
{
    if let Some((Ok(name), rest)) = read_string_spec(data) {
        if let Some((flag, k)) = decode_varint(rest) {
            if flag == 1 && rest.len() >= k + 16 {
                let bytes = rest.skip(k as int).take(16);
                assert(bytes =~= rest.subrange(k as int, (k + 16) as int));
                lemma_be_value_bound(bytes);
                reveal_with_fuel(pow256, 17);
                assert(pow256(16) == 0x1_0000_0000_0000_0000_0000_0000_0000_0000);
                lemma_be_bytes_of_value(bytes);
            }
        }
    }
}

/// A name whose length prefix announces more bytes than follow gives
/// `BufferTooSmall`; an incomplete prefix or name bytes that are no UTF-8,
/// a missing flag, or a flag of 1 with fewer than 16 bytes after it give
/// `Malformed`.
pub proof fn lemma_login_start_errors(data: Seq<u8>)
    ensures
        read_string_spec(data) is None ==> login_start_spec(data) == Err::<(Seq<char>, u128), LoginError>(
            LoginError::Malformed,
        ),
        read_string_spec(data) matches Some((Err(_), _)) ==> login_start_spec(data) == Err::<
            (Seq<char>, u128),
            LoginError,
        >(LoginError::BufferTooSmall),
        read_string_spec(data) matches Some((Ok(_), rest)) ==> (decode_varint(rest) is None
            ==> login_start_spec(data) == Err::<(Seq<char>, u128), LoginError>(LoginError::Malformed)),
        read_string_spec(data) matches Some((Ok(_), rest)) ==> (decode_varint(rest) matches Some((flag, k))
            ==> (flag == 1 && rest.len() < k + 16 ==> login_start_spec(data) == Err::<
            (Seq<char>, u128),
            LoginError,
        >(LoginError::Malformed))),
{
    if let Some((Ok(_), rest)) = read_string_spec(data) {
        lemma_decode_from_len(VarintState::start(), rest);
    }
}

/// Reads the name and GUID from a login start packet's data.
pub fn parse_login_start(data: Vec<u8>) -> (r: Result<LoginStart, LoginError>)
    ensures
        match r {
            Ok(l) => login_start_spec(data@) == Ok::<(Seq<char>, u128), LoginError>((l.username@, l.guid)),
            Err(e) => login_start_spec(data@) == Err::<(Seq<char>, u128), LoginError>(e),
        },
{
    let mut data = data;
    let username = match try_read_varint_string(&mut data) {
        None => return Err(LoginError::Malformed),
        Some(Err(_)) => return Err(LoginError::BufferTooSmall),
        Some(Ok(name)) => name,
    };
    let has_guid = match try_read_varint(&mut data) {
        None => return Err(LoginError::Malformed),
        Some(flag) => flag == 1,
    };
    let mut guid: u128 = 0;
    if has_guid {
        if data.len() < 16 {
            return Err(LoginError::Malformed);
        }
        let ghost tail = data@;
        let _rest = data.split_off(16);
        assert(data@ =~= tail.take(16));
        guid = be_u128(data.as_slice());
    }
    Ok(LoginStart { username, guid })
}

} // verus!
