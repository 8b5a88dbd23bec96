//! VarInt coding as this server writes and reads it.
//!
//! Each byte carries seven bits of the value, least significant group first;
//! the high bit of a byte says that another byte follows.
use vstd::prelude::*;
use vstd::utf8::*;

verus! {

/// Mask of the seven value bits of an encoded byte.
pub const SEGMENT_BITS: u8 = 0x7F;

/// The bit that marks that another byte follows.
pub const CONTINUE_BIT: u8 = 0x80;

/// The bytes that `write_varint` appends for `n`.
///
/// A byte is the low eight bits of what is left of the value; it carries the
/// continue bit unless what is left is below 64, in which case it is the last
/// byte. Values from 64 to 127 thus take two bytes, the second one zero.
pub open spec fn varint_bytes(n: u32) -> Seq<u8>
    decreases n,
{
    if n >> 6u32 == 0 {
        seq![(n as u8) & !CONTINUE_BIT]
    } else {
        proof {
            lemma_shift_seven_decreases(n);
        }
        seq![(n as u8) | CONTINUE_BIT] + varint_bytes(n >> 7u32)
    }
}

/// Dropping seven bits from a value of at least 64 makes it smaller.
pub proof fn lemma_shift_seven_decreases(n: u32)
    requires
        n >> 6u32 != 0,
    ensures
        n >> 7u32 < n,
{
    assert(n >> 6u32 != 0 ==> n >> 7u32 < n) by (bit_vector);
}

/// Appends the VarInt encoding of `number` to `buffer`.
pub fn write_varint(buffer: &mut Vec<u8>, number: u32)
    ensures
        final(buffer)@ == old(buffer)@ + varint_bytes(number),
{
    let mut rest = number;
    let ghost start = old(buffer)@;
    loop
        invariant
            start == old(buffer)@,
            buffer@ + varint_bytes(rest) == start + varint_bytes(number),
        decreases rest,
    {
        let mut byte: u8 = #[verifier::truncate] (rest as u8);
        let ghost before = rest;
        rest = rest >> 6u32;
        let done = rest == 0;
        if done {
            byte = byte & !CONTINUE_BIT;
        } else {
            rest = rest >> 1u32;
            assert(before >> 6u32 >> 1u32 == before >> 7u32) by (bit_vector);
            proof {
                lemma_shift_seven_decreases(before);
            }
            byte = byte | CONTINUE_BIT;
        }
        buffer.push(byte);
        if done {
            assert(buffer@ =~= start + varint_bytes(number));
            return;
        }
        assert(buffer@ + varint_bytes(rest) =~= start + varint_bytes(number));
    }
}

/// The number of bytes that `write_varint` writes for `n`.
pub open spec fn varint_len_spec(n: u32) -> nat {
    if n < 0x40 {
        1
    } else if n < 0x2000 {
        2
    } else if n < 0x10_0000 {
        3
    } else if n < 0x800_0000 {
        4
    } else {
        5
    }
}

/// The encoding of `n` takes one byte per seven bits, where the last byte
/// holds at most six: from one byte below 64 to five bytes from 2^27 on.
pub proof fn lemma_varint_len(n: u32)
    ensures
        varint_bytes(n).len() == varint_len_spec(n),
        1 <= varint_bytes(n).len() <= 5,
{
    let n1 = n >> 7u32;
    let n2 = n1 >> 7u32;
    let n3 = n2 >> 7u32;
    let n4 = n3 >> 7u32;
    assert((n >> 6u32 == 0 <==> n < 0x40) && (n1 >> 6u32 == 0 <==> n < 0x2000) && (n2 >> 6u32 == 0
        <==> n < 0x10_0000) && (n3 >> 6u32 == 0 <==> n < 0x800_0000) && n4 >> 6u32 == 0)
        by (bit_vector)
        requires
            n1 == n >> 7u32,
            n2 == n1 >> 7u32,
            n3 == n2 >> 7u32,
            n4 == n3 >> 7u32,
    ;
    if n >> 6u32 != 0 {
        lemma_shift_seven_decreases(n);
        if n1 >> 6u32 != 0 {
            lemma_shift_seven_decreases(n1);
            if n2 >> 6u32 != 0 {
                lemma_shift_seven_decreases(n2);
                if n3 >> 6u32 != 0 {
                    lemma_shift_seven_decreases(n3);
                    assert(varint_bytes(n4).len() == 1);
                }
                assert(varint_bytes(n3).len() == varint_len_spec(n) - 3);
            }
            assert(varint_bytes(n2).len() == varint_len_spec(n) - 2);
        }
        assert(varint_bytes(n1).len() == varint_len_spec(n) - 1);
    }
}

/// The number of bytes of the VarInt encoding of `number`.
pub fn varint_length(number: u32) -> (r: u32)
    ensures
        r == varint_bytes(number).len(),
        r == varint_len_spec(number),
{
    let mut buffer: Vec<u8> = Vec::new();
    write_varint(&mut buffer, number);
    proof {
        lemma_varint_len(number);
        assert(buffer@ =~= varint_bytes(number));
    }
    buffer.len() as u32
}

proof fn lemma_shape_from(n: u32, j: u32, m: u32)
    requires
        j <= 4,
        m == n >> ((7 * j) as u32),
    ensures
        j + varint_bytes(m).len() <= 5,
        forall|i: int|
            0 <= i < varint_bytes(m).len() ==> #[trigger] varint_bytes(m)[i] & 0x7Fu8 == ((n >> ((7 * (i
                + j)) as u32)) & 0x7F) as u8,
        forall|i: int|
            0 <= i < varint_bytes(m).len() - 1 ==> #[trigger] varint_bytes(m)[i] >= 0x80 && n >> ((7 * (i
                + j)) as u32) >= 64,
        ({
            let last = varint_bytes(m).len() - 1;
            &&& varint_bytes(m)[last] == (n >> ((7 * (last + j)) as u32)) as u8
            &&& n >> ((7 * (last + j)) as u32) < 64
        }),
    decreases m,
{
    let b = varint_bytes(m);
    if m >> 6u32 == 0 {
        let byte = (m as u8) & !CONTINUE_BIT;
        assert(byte & 0x7Fu8 == ((n >> ((7 * j) as u32)) & 0x7F) as u8 && byte == m as u8 && m < 64)
            by (bit_vector)
            requires
                byte == (m as u8) & !CONTINUE_BIT,
                CONTINUE_BIT == 0x80u8,
                m == n >> ((7 * j) as u32),
                m >> 6u32 == 0,
        ;
        assert(b[0] == byte);
    } else {
        let byte = (m as u8) | CONTINUE_BIT;
        assert(j < 4 && m >> 7u32 == n >> ((7 * (j + 1)) as u32) && byte & 0x7Fu8 == ((n >> ((7 * j)
            as u32)) & 0x7F) as u8 && byte >= 0x80 && m >= 64) by (bit_vector)
            requires
                j <= 4,
                byte == (m as u8) | CONTINUE_BIT,
                CONTINUE_BIT == 0x80u8,
                m == n >> ((7 * j) as u32),
                m >> 6u32 != 0,
        ;
        lemma_shift_seven_decreases(m);
        lemma_shape_from(n, (j + 1) as u32, m >> 7u32);
        let rest = varint_bytes(m >> 7u32);
        assert(b == seq![byte] + rest);
        assert(b[0] == byte);
        assert forall|i: int| 1 <= i < b.len() implies #[trigger] b[i] == rest[i - 1] by {}
        assert forall|i: int| 0 <= i < b.len() implies #[trigger] b[i] & 0x7Fu8 == ((n >> ((7 * (i + j))
            as u32)) & 0x7F) as u8 by {
            if i > 0 {
                assert(rest[i - 1] & 0x7Fu8 == ((n >> ((7 * ((i - 1) + (j + 1))) as u32)) & 0x7F) as u8);
            }
        }
        assert forall|i: int| 0 <= i < b.len() - 1 implies #[trigger] b[i] >= 0x80 && n >> ((7 * (i + j))
            as u32) >= 64 by {
            if i > 0 {
                assert(rest[i - 1] >= 0x80 && n >> ((7 * ((i - 1) + (j + 1))) as u32) >= 64);
            }
        }
        let last = b.len() - 1;
        assert(b[last] == rest[last - 1]);
    }
}

/// The bytes of the encoding of `n` carry its seven-bit groups, least
/// significant first: byte `i` holds bits `7i` to `7i + 6` of `n` in its low
/// seven bits. Every byte but the last has the high bit set, and is written
/// because what is left of `n` at that byte is 64 or more; the last byte is
/// what is left of `n`, which is below 64. There are at most five bytes.
pub proof fn lemma_varint_bytes_shape(n: u32)
    ensures
        1 <= varint_bytes(n).len() <= 5,
        forall|i: int|
            0 <= i < varint_bytes(n).len() ==> #[trigger] varint_bytes(n)[i] & 0x7Fu8 == ((n >> ((7 * i)
                as u32)) & 0x7F) as u8,
        forall|i: int|
            0 <= i < varint_bytes(n).len() - 1 ==> #[trigger] varint_bytes(n)[i] >= 0x80 && n >> ((7 * i)
                as u32) >= 64,
        ({
            let last = varint_bytes(n).len() - 1;
            &&& varint_bytes(n)[last] == (n >> ((7 * last) as u32)) as u8
            &&& n >> ((7 * last) as u32) < 64
        }),
{
    assert(n >> 0u32 == n) by (bit_vector);
    lemma_shape_from(n, 0, n);
    lemma_varint_len(n);
}

/// 128 to the power `k`.
pub open spec fn pow128(k: nat) -> nat
    decreases k,
{
    if k == 0 {
        1
    } else {
        128 * pow128((k - 1) as nat)
    }
}

/// The number whose base-128 digits, least significant first, are the low
/// seven bits of the bytes of `s`.
pub open spec fn groups_value(s: Seq<u8>) -> nat
    decreases s.len(),
{
    if s.len() == 0 {
        0
    } else {
        (s[0] & 0x7Fu8) as nat + 128 * groups_value(s.drop_first())
    }
}

/// Adding the group of `byte` at place `size` to a value that holds only
/// lower places.
proof fn lemma_group_add(value: u32, size: u32, byte: u8)
    requires
        size <= 4,
        value < pow128(size as nat),
    ensures
        (value | group_value(byte, size)) as nat == (value + pow128(size as nat) * ((byte & 0x7Fu8) as nat))
            % 0x1_0000_0000,
        size < 4 ==> value + pow128(size as nat) * ((byte & 0x7Fu8) as nat) < pow128((size + 1) as nat),
{
    reveal_with_fuel(pow128, 6);
    let g = byte & 0x7Fu8;
    assert(g < 128) by (bit_vector)
        requires
            g == byte & 0x7Fu8,
    ;
    if size == 0 {
        assert((value | ((g as u32) << 0u32)) == (value + g) % 0x1_0000_0000) by (bit_vector)
            requires
                value < 1,
                g < 128,
        ;
    } else if size == 1 {
        assert((value | ((g as u32) << 7u32)) == (value + 0x80 * g) % 0x1_0000_0000) by (bit_vector)
            requires
                value < 0x80,
                g < 128,
        ;
    } else if size == 2 {
        assert((value | ((g as u32) << 14u32)) == (value + 0x4000 * g) % 0x1_0000_0000) by (bit_vector)
            requires
                value < 0x4000,
                g < 128,
        ;
    } else if size == 3 {
        assert((value | ((g as u32) << 21u32)) == (value + 0x20_0000 * g) % 0x1_0000_0000) by (bit_vector)
            requires
                value < 0x20_0000,
                g < 128,
        ;
    } else {
        assert((value | ((g as u32) << 28u32)) == (value + 0x1000_0000 * g) % 0x1_0000_0000) by (bit_vector)
            requires
                value < 0x1000_0000,
                g < 128,
        ;
    }
}

proof fn lemma_decode_from_value(state: VarintState, t: Seq<u8>)
    requires
        state.size <= 4 ==> state.value < pow128(state.size as nat),
    ensures
        decode_from(state, t) matches Some((v, k)) ==> {
            &&& state.size + k <= 5
            &&& 1 <= k <= t.len()
            &&& forall|i: int| 0 <= i < k - 1 ==> #[trigger] t[i] >= 0x80
            &&& t[k - 1] < 0x80
            &&& v == (state.value + pow128(state.size as nat) * groups_value(t.take(k as int))) % 0x1_0000_0000
        },
        decode_from(state, t) is None ==> forall|i: int|
            0 <= i < t.len() && state.size + i < 5 ==> #[trigger] t[i] >= 0x80,
    decreases t.len(),
{
    if t.len() > 0 && state.size <= 4 {
        let byte = t[0];
        lemma_group_add(state.value, state.size, byte);
        assert(byte & CONTINUE_BIT == CONTINUE_BIT <==> byte >= 0x80) by (bit_vector)
            requires
                CONTINUE_BIT == 0x80u8,
        ;
        let g = (byte & 0x7Fu8) as nat;
        let p = pow128(state.size as nat);
        reveal_with_fuel(groups_value, 2);
        assert(t.take(1).drop_first() =~= Seq::<u8>::empty());
        match step_spec(state, byte) {
            VarintStep::Done(v) => {},
            VarintStep::More(next) => {
                let rest = t.drop_first();
                if state.size < 4 {
                    lemma_decode_from_value(next, rest);
                    if let Some((v, k1)) = decode_from(next, rest) {
                        let k = k1 + 1;
                        assert(t.take(k as int).drop_first() =~= rest.take(k1 as int));
                        let gr = groups_value(rest.take(k1 as int));
                        assert(p * (g + 128 * gr) == p * g + (128 * p) * gr) by (nonlinear_arith);
                        assert forall|i: int| 0 <= i < k - 1 implies #[trigger] t[i] >= 0x80 by {
                            if i > 0 {
                                assert(t[i] == rest[i - 1]);
                            }
                        }
                        assert(t[k - 1] == rest[k1 - 1]);
                    } else {
                        assert forall|i: int| 0 <= i < t.len() && state.size + i < 5 implies #[trigger] t[i] >= 0x80 by {
                            if i > 0 {
                                assert(t[i] == rest[i - 1]);
                            }
                        }
                    }
                } else {
                    assert(decode_from(next, rest) is None);
                }
            },
        }
    }
}

/// What `decode_varint` reads: the bytes up to and including the first one
/// without the high bit, at most five of them, their low seven bits read as
/// base-128 digits, least significant first, and the number cut to 32 bits.
/// Where no byte among the first five ends the VarInt, nothing is read.
pub proof fn lemma_decode_varint_value(s: Seq<u8>)
    ensures
        decode_varint(s) matches Some((v, k)) ==> {
            &&& 1 <= k <= 5
            &&& k <= s.len()
            &&& forall|i: int| 0 <= i < k - 1 ==> #[trigger] s[i] >= 0x80
            &&& s[k - 1] < 0x80
            &&& v == groups_value(s.take(k as int)) % 0x1_0000_0000
        },
        decode_varint(s) is None ==> forall|i: int| 0 <= i < s.len() && i < 5 ==> #[trigger] s[i] >= 0x80,
{
    reveal_with_fuel(pow128, 1);
    lemma_decode_from_value(VarintState::start(), s);
}

/// Why reading a VarInt-prefixed string failed.
#[derive(Debug, Clone, Copy, PartialEq, Eq, Structural)]
pub enum VarintError {
    /// The length prefix announces more bytes than the buffer holds.
    BufferTooSmall,
}

/// What has been decoded of a VarInt so far: the value gathered from the
/// bytes read, and how many bytes that was.
#[derive(Debug, Clone, Copy, PartialEq, Eq, Structural)]
pub struct VarintState {
    pub value: u32,
    pub size: u32,
}

impl VarintState {
    /// The state before the first byte.
    pub fn new() -> (r: VarintState)
        ensures
            r == VarintState::start(),
    {
        VarintState { value: 0, size: 0 }
    }

    pub open spec fn start() -> VarintState {
        VarintState { value: 0, size: 0 }
    }
}

/// The outcome of feeding one byte to a VarInt decoder.
#[derive(Debug, Clone, Copy, PartialEq, Eq, Structural)]
pub enum VarintStep {
    /// The byte carried the continue bit: read another one.
    More(VarintState),
    /// The byte was the last one, and this is the value.
    Done(u32),
}

/// The seven value bits of `byte`, moved to the place of byte number `size`.
/// Bits that land beyond the 32 bits of the value are lost.
pub open spec fn group_value(byte: u8, size: u32) -> u32 {
    ((byte & SEGMENT_BITS) as u32) << ((size * 7) as u32)
}

/// What one decoding step does with `byte` in `state`.
pub open spec fn step_spec(state: VarintState, byte: u8) -> VarintStep {
    let value = state.value | group_value(byte, state.size);
    if byte & CONTINUE_BIT == CONTINUE_BIT {
        VarintStep::More(VarintState { value, size: (state.size + 1) as u32 })
    } else {
        VarintStep::Done(value)
    }
}

/// Feeds one byte to a VarInt decoder.
///
/// A decoder that has already taken five bytes cannot take another: the
/// group would be shifted by 35 bits, past the width of the value.
pub fn varint_step(state: VarintState, byte: u8) -> (r: VarintStep)
    requires
        state.size <= 4,
    ensures
        r == step_spec(state, byte),
{
    let value = state.value | (((byte & SEGMENT_BITS) as u32) << (state.size * 7));
    if (byte & CONTINUE_BIT) == CONTINUE_BIT {
        VarintStep::More(VarintState { value, size: state.size + 1 })
    } else {
        VarintStep::Done(value)
    }
}

/// Decoding `s` from `state` on: the value and the number of bytes taken,
/// or `None` where the bytes run out before a last byte or a sixth byte
/// would have to be taken.
pub open spec fn decode_from(state: VarintState, s: Seq<u8>) -> Option<(u32, nat)>
    decreases s.len(),
{
    if s.len() == 0 || state.size > 4 {
        None
    } else {
        match step_spec(state, s[0]) {
            VarintStep::Done(v) => Some((v, 1)),
            VarintStep::More(next) => match decode_from(next, s.drop_first()) {
                Some((v, k)) => Some((v, k + 1)),
                None => None,
            },
        }
    }
}

/// The VarInt at the front of `s`, and its length in bytes.
pub open spec fn decode_varint(s: Seq<u8>) -> Option<(u32, nat)> {
    decode_from(VarintState::start(), s)
}

/// A decoded VarInt lies within the bytes it was decoded from, and takes at
/// most as many bytes as the decoder has room for.
pub proof fn lemma_decode_from_len(state: VarintState, s: Seq<u8>)
    ensures
        decode_from(state, s) matches Some((v, k)) ==> 1 <= k <= s.len() && state.size + k <= 5,
    decreases s.len(),
{
    if s.len() > 0 && state.size <= 4 {
        if let VarintStep::More(next) = step_spec(state, s[0]) {
            lemma_decode_from_len(next, s.drop_first());
        }
    }
}

/// Adds `n` to the length of a decoding result.
pub open spec fn taken_after(r: Option<(u32, nat)>, n: nat) -> Option<(u32, nat)> {
    match r {
        Some((v, k)) => Some((v, k + n)),
        None => None,
    }
}

/// The bits of `n` below group number `i`.
pub open spec fn low_groups(n: u32, i: u32) -> u32 {
    n & (((1u32 << ((i * 7) as u32)) - 1) as u32)
}

/// Decoding the bytes that encode what is left of `n` after `i` groups, from
/// a decoder that holds the first `i` groups, gives back `n`.
proof fn lemma_decode_encoding_from(n: u32, i: u32, m: u32, rest: Seq<u8>)
    requires
        i <= 4,
        m == n >> ((i * 7) as u32),
    ensures
        decode_from(VarintState { value: low_groups(n, i), size: i }, varint_bytes(m) + rest)
            == Some((n, varint_bytes(m).len())),
    decreases m,
{
    let value = low_groups(n, i);
    let state = VarintState { value, size: i };
    let b = varint_bytes(m) + rest;
    if m >> 6u32 == 0 {
        let byte = (m as u8) & !CONTINUE_BIT;
        assert(b[0] == byte);
        assert(byte & CONTINUE_BIT != CONTINUE_BIT) by (bit_vector)
            requires
                byte == (m as u8) & !CONTINUE_BIT,
                CONTINUE_BIT == 0x80u8,
        ;
        assert(value | group_value(byte, i) == n) by (bit_vector)
            requires
                i <= 4,
                m == n >> ((i * 7) as u32),
                m >> 6u32 == 0,
                byte == (m as u8) & !CONTINUE_BIT,
                value == n & (((1u32 << ((i * 7) as u32)) - 1) as u32),
                CONTINUE_BIT == 0x80u8,
                SEGMENT_BITS == 0x7Fu8,
        ;
    } else {
        let byte = (m as u8) | CONTINUE_BIT;
        assert(b[0] == byte);
        assert(byte & CONTINUE_BIT == CONTINUE_BIT) by (bit_vector)
            requires
                byte == (m as u8) | CONTINUE_BIT,
                CONTINUE_BIT == 0x80u8,
        ;
        assert(i < 4 && m >> 7u32 == n >> (((i + 1) * 7) as u32)
            && value | group_value(byte, i) == n & (((1u32 << (((i + 1) * 7) as u32)) - 1) as u32))
            by (bit_vector)
            requires
                i <= 4,
                m == n >> ((i * 7) as u32),
                m >> 6u32 != 0,
                byte == (m as u8) | CONTINUE_BIT,
                value == n & (((1u32 << ((i * 7) as u32)) - 1) as u32),
                CONTINUE_BIT == 0x80u8,
                SEGMENT_BITS == 0x7Fu8,
        ;
        lemma_shift_seven_decreases(m);
        lemma_decode_encoding_from(n, (i + 1) as u32, m >> 7u32, rest);
        assert(b.drop_first() =~= varint_bytes(m >> 7u32) + rest);
    }
}

/// Reading a VarInt back from the bytes that `write_varint` wrote gives the
/// number that was written, and takes exactly those bytes, whatever follows.
pub proof fn lemma_varint_roundtrip(n: u32, rest: Seq<u8>)
    ensures
        decode_varint(varint_bytes(n) + rest) == Some((n, varint_bytes(n).len())),
{
    assert(n >> 0u32 == n && n & (((1u32 << 0u32) - 1) as u32) == 0) by (bit_vector);
    lemma_decode_encoding_from(n, 0, n, rest);
}

/// Decodes the VarInt that starts at `buf[start]`, without consuming it:
/// its value and how many bytes it takes.
pub fn decode_varint_at(buf: &[u8], start: usize) -> (r: Option<(u32, usize)>)
    requires
        start <= buf@.len(),
    ensures
        match r {
            Some((v, k)) => decode_varint(buf@.skip(start as int)) == Some((v, k as nat)),
            None => decode_varint(buf@.skip(start as int)) is None,
        },
{
    let ghost s = buf@.skip(start as int);
    let mut state = VarintState::new();
    let mut i: usize = start;
    assert(s.skip(0) =~= s);
    while i < buf.len()
        invariant
            start <= i <= buf.len(),
            s == buf@.skip(start as int),
            decode_varint(s) == taken_after(decode_from(state, buf@.skip(i as int)), (i - start) as nat),
        decreases buf.len() - i,
    {
        if state.size > 4 {
            return None;
        }
        let ghost tail = buf@.skip(i as int);
        assert(tail[0] == buf@[i as int]);
        match varint_step(state, buf[i]) {
            VarintStep::Done(v) => {
                return Some((v, i - start + 1));
            },
            VarintStep::More(next) => {
                assert(tail.drop_first() =~= buf@.skip(i + 1));
                state = next;
                i = i + 1;
            },
        }
    }
    None
}

/// Decodes the VarInt at the front of `buf` without consuming it.
pub fn decode_varint_prefix(buf: &[u8]) -> (r: Option<(u32, usize)>)
    ensures
        match r {
            Some((v, k)) => decode_varint(buf@) == Some((v, k as nat)),
            None => decode_varint(buf@) is None,
        },
{
    assert(buf@.skip(0) =~= buf@);
    decode_varint_at(buf, 0)
}

/// Reads a VarInt from the front of `buffer` and removes its bytes; `None`,
/// with `buffer` untouched, where the front holds no complete VarInt.
pub fn try_read_varint(buffer: &mut Vec<u8>) -> (r: Option<u32>)
    ensures
        match decode_varint(old(buffer)@) {
            Some((v, k)) => r == Some(v) && final(buffer)@ == old(buffer)@.skip(k as int),
            None => r is None && final(buffer)@ == old(buffer)@,
        },
{
    match decode_varint_prefix(buffer.as_slice()) {
        Some((value, taken)) => {
            proof {
                lemma_decode_from_len(VarintState::start(), buffer@);
            }
            let rest = buffer.split_off(taken);
            *buffer = rest;
            Some(value)
        },
        None => None,
    }
}

/// Reads a VarInt from the front of `buffer` and removes its bytes.
///
/// The caller must hand a buffer that starts with a complete VarInt of at
/// most five bytes; on any other buffer the decoding runs past the end or
/// shifts a group past the width of the value.
pub fn read_varint_buf(buffer: &mut Vec<u8>) -> (r: Result<u32, VarintError>)
    requires
        decode_varint(old(buffer)@) is Some,
    ensures
        decode_varint(old(buffer)@) matches Some((v, k)) && r == Ok::<u32, VarintError>(v)
            && final(buffer)@ == old(buffer)@.skip(k as int),
{
    match try_read_varint(buffer) {
        Some(value) => Ok(value),
        None => Ok(0),  // unreachable: the caller promised a complete VarInt
    }
}

/// Turns bytes into a `String` with std's `String::from_utf8`.
///
/// Trusted: std documents that `String::from_utf8` succeeds exactly on valid
/// UTF-8 and then holds the characters those bytes encode; the contract states
/// that over vstd's `valid_utf8` and `decode_utf8`.
#[verifier::external_body]
pub(crate) fn string_from_utf8(bytes: Vec<u8>) -> (r: Option<String>)
    ensures
        r is Some <==> valid_utf8(bytes@),
        r matches Some(s) ==> s@ == decode_utf8(bytes@),
{
    String::from_utf8(bytes).ok()
}

/// The bytes that `write_varint_string` appends for the characters `c`: the
/// length of their UTF-8 encoding, cut to 32 bits, as a VarInt, then the
/// encoding itself.
pub open spec fn varint_string_bytes(c: Seq<char>) -> Seq<u8> {
    varint_bytes(encode_utf8(c).len() as u32) + encode_utf8(c)
}

/// Reading a VarInt-prefixed string from the front of `s`: the string, or
/// `BufferTooSmall` when the prefix announces more bytes than follow it,
/// together with the bytes left over. `None` where the reading cannot go
/// through: the prefix is no complete VarInt, or the announced bytes are no
/// valid UTF-8.
pub open spec fn read_string_spec(s: Seq<u8>) -> Option<(Result<Seq<char>, VarintError>, Seq<u8>)> {
    match decode_varint(s) {
        None => None,
        Some((len, k)) => {
            let r = s.skip(k as int);
            if r.len() < len {
                Some((Err(VarintError::BufferTooSmall), r))
            } else if valid_utf8(r.take(len as int)) {
                Some((Ok(decode_utf8(r.take(len as int))), r.skip(len as int)))
            } else {
                None
            }
        },
    }
}

/// Reads a VarInt length and then that many bytes of UTF-8 from the front
/// of `buffer`, removing what it read, as `read_string_spec` says; `None`
/// where that reading cannot go through, with `buffer` untouched when its
/// front holds no complete VarInt and with the length and the invalid bytes
/// removed when they are no UTF-8.
pub fn try_read_varint_string(buffer: &mut Vec<u8>) -> (r: Option<Result<String, VarintError>>)
    ensures
        match r {
            Some(Ok(s)) => read_string_spec(old(buffer)@) == Some(
                (Ok::<Seq<char>, VarintError>(s@), final(buffer)@),
            ),
            Some(Err(e)) => read_string_spec(old(buffer)@) == Some(
                (Err::<Seq<char>, VarintError>(e), final(buffer)@),
            ),
            None => read_string_spec(old(buffer)@) is None && final(buffer)@ == match decode_varint(
                old(buffer)@,
            ) {
                None => old(buffer)@,
                Some((len, k)) => old(buffer)@.skip(k as int).skip(len as int),
            },
        },
{
    let stringlen = match try_read_varint(buffer) {
        Some(len) => len as usize,
        None => return None,
    };
    if buffer.len() < stringlen {
        return Some(Err(VarintError::BufferTooSmall));
    }
    let mut bytes = buffer.split_off(stringlen);
    std::mem::swap(buffer, &mut bytes);
    match string_from_utf8(bytes) {
        Some(s) => Some(Ok(s)),
        None => None,
    }
}

/// Reads a VarInt length and then that many bytes of UTF-8 from the front
/// of `buffer`, removing what it read.
///
/// When fewer bytes follow the length than it announces, the length alone
/// is consumed and `BufferTooSmall` comes back. The caller must hand a
/// buffer that starts with a complete VarInt and whose announced bytes, if
/// present, are valid UTF-8.
pub fn read_varint_string_buf(buffer: &mut Vec<u8>) -> (r: Result<String, VarintError>)
    requires
        read_string_spec(old(buffer)@) is Some,
    ensures
        match r {
            Ok(s) => read_string_spec(old(buffer)@) == Some((Ok::<Seq<char>, VarintError>(s@), final(buffer)@)),
            Err(e) => read_string_spec(old(buffer)@) == Some((Err::<Seq<char>, VarintError>(e), final(buffer)@)),
        },
{
    match try_read_varint_string(buffer) {
        Some(r) => r,
        None => Err(VarintError::BufferTooSmall),  // unreachable: the caller promised a readable string
    }
}

/// Appends the length of `string` in bytes, as a VarInt, and then its UTF-8
/// bytes. A length beyond 32 bits is written cut to its low 32 bits.
pub fn write_varint_string(buffer: &mut Vec<u8>, string: String)
    ensures
        final(buffer)@ == old(buffer)@ + varint_string_bytes(string@),
{
    let bytes: &[u8] = string.as_str().as_bytes();
    let len: usize = bytes.len();
    write_varint(buffer, #[verifier::truncate] (len as u32));
    let ghost mid = buffer@;
    buffer.extend_from_slice(bytes);
    assert(buffer@ =~= mid + bytes@);
    assert(buffer@ =~= old(buffer)@ + varint_string_bytes(string@));
}

/// What `write_varint_string` writes for `c`: a VarInt that reads as the
/// number of bytes of the UTF-8 encoding of `c`, cut to 32 bits, and after
/// it exactly that encoding.
pub proof fn lemma_varint_string_layout(c: Seq<char>)
    ensures
        decode_varint(varint_string_bytes(c)) matches Some((len, k)) && len == encode_utf8(c).len() as u32
            && varint_string_bytes(c).skip(k as int) == encode_utf8(c),
{
    let len = encode_utf8(c).len() as u32;
    lemma_varint_roundtrip(len, encode_utf8(c));
    assert(varint_string_bytes(c).skip(varint_bytes(len).len() as int) =~= encode_utf8(c));
}

/// How a VarInt-prefixed string is read: after a complete length prefix,
/// too few bytes give `BufferTooSmall` and leave the bytes after the prefix;
/// enough bytes that are valid UTF-8 give the characters they encode and
/// leave the bytes after them; invalid UTF-8 or an incomplete prefix cannot
/// be read.
pub proof fn lemma_read_string_cases(s: Seq<u8>)
    ensures
        decode_varint(s) is None ==> read_string_spec(s) is None,
        decode_varint(s) matches Some((len, k)) ==> {
            &&& s.len() < k + len ==> read_string_spec(s) == Some(
                (Err::<Seq<char>, VarintError>(VarintError::BufferTooSmall), s.skip(k as int)),
            )
            &&& s.len() >= k + len && valid_utf8(s.subrange(k as int, k + len)) ==> read_string_spec(s)
                == Some((Ok::<Seq<char>, VarintError>(decode_utf8(s.subrange(k as int, k + len))), s.skip(k + len)))
            &&& s.len() >= k + len && !valid_utf8(s.subrange(k as int, k + len)) ==> read_string_spec(s) is None
        },
{
    if let Some((len, k)) = decode_varint(s) {
        lemma_decode_from_len(VarintState::start(), s);
        let r = s.skip(k as int);
        if s.len() >= k + len {
            assert(r.take(len as int) =~= s.subrange(k as int, k + len));
            assert(r.skip(len as int) =~= s.skip(k + len));
        }
    }
}

/// Reading back what `write_varint_string` wrote gives the same characters
/// and leaves whatever followed, as long as the encoding has fewer than 2^32
/// bytes (a longer one has its length written cut short).
pub proof fn lemma_varint_string_roundtrip(c: Seq<char>, rest: Seq<u8>)
    requires
        encode_utf8(c).len() <= u32::MAX,
    ensures
        read_string_spec(varint_string_bytes(c) + rest) == Some((Ok::<Seq<char>, VarintError>(c), rest)),
{
    let enc = encode_utf8(c);
    let len = enc.len() as u32;
    let s = varint_string_bytes(c) + rest;
    assert(s =~= varint_bytes(len) + (enc + rest));
    lemma_varint_roundtrip(len, enc + rest);
    let r = s.skip(varint_bytes(len).len() as int);
    assert(r =~= enc + rest);
    assert(r.take(len as int) =~= enc);
    assert(r.skip(len as int) =~= rest);
    encode_utf8_valid_utf8(c);
    encode_utf8_decode_utf8(c);
}

} // verus!
