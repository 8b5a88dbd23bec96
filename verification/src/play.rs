//! The join-game packet that puts a logged-in player into the world.
use vstd::prelude::*;
use crate::bytes::{be_bytes, lemma_be_bytes_len, push_be};
use crate::varint::{varint_bytes, varint_string_bytes, write_varint, write_varint_string};

verus! {

/// The packet id of the join-game packet.
pub const LOGIN_PLAY_PACKET_ID: u32 = 0x28;

/// What the join-game packet tells the client.
#[derive(Debug)]
pub struct LoginPlay {
    pub entity_id: i32,
    pub is_hardcore: bool,
    pub gamemode: u8,
    pub prev_gamemode: u8,
    pub dimensions: Vec<String>,
    pub registry_codec: Vec<u8>,
    pub dimension_type: String,
    pub dimension_name: String,
    pub hashed_seed: i64,
    pub max_players: u32,
    pub view_distance: u32,
    pub simulation_distance: u32,
    pub reduced_debug_info: bool,
    pub enable_respawn_screen: bool,
    pub debug: bool,
    pub flat: bool,
    pub has_death: bool,
    pub death_dimension: String,
    pub portal_cooldown: u32,
}

/// The join-game data this server sends: player entity 0 in survival, not
/// hardcore, in the three vanilla dimensions, with the given limits and
/// registry codec, and every optional feature off.
pub fn login_play(
    max_players: u32,
    view_distance: u32,
    simulation_distance: u32,
    registry_codec: Vec<u8>,
) -> (r: LoginPlay)
    ensures
        r.entity_id == 0,
        !r.is_hardcore,
        r.gamemode == 0,
        r.prev_gamemode == 0,
        r.dimensions@.map_values(|s: String| s@) == seq![
            "minecraft:overworld"@,
            "minecraft:the_nether"@,
            "minecraft:the_end"@,
        ],
        r.registry_codec@ == registry_codec@,
        r.dimension_type@ == "minecraft:overworld"@,
        r.dimension_name@ == "minecraft:overwarld"@,
        r.hashed_seed == 0,
        r.max_players == max_players,
        r.view_distance == view_distance,
        r.simulation_distance == simulation_distance,
        !r.reduced_debug_info,
        !r.enable_respawn_screen,
        !r.debug,
        !r.flat,
        !r.has_death,
        r.death_dimension@ == "nah"@,
        r.portal_cooldown == 0,
{
    let dimensions = vec![
        "minecraft:overworld".to_owned(),
        "minecraft:the_nether".to_owned(),
        "minecraft:the_end".to_owned(),
    ];
    assert(dimensions@.map_values(|s: String| s@) =~= seq![
        "minecraft:overworld"@,
        "minecraft:the_nether"@,
        "minecraft:the_end"@,
    ]);
    LoginPlay {
        entity_id: 0,
        is_hardcore: false,
        gamemode: 0,
        prev_gamemode: 0,
        dimensions,
        registry_codec,
        dimension_type: "minecraft:overworld".to_owned(),
        dimension_name: "minecraft:overwarld".to_owned(),
        hashed_seed: 0,
        max_players,
        view_distance,
        simulation_distance,
        reduced_debug_info: false,
        enable_respawn_screen: false,
        debug: false,
        flat: false,
        has_death: false,
        death_dimension: "nah".to_owned(),
        portal_cooldown: 0,
    }
}

/// The byte for a flag: 1 for true, 0 for false.
pub open spec fn flag_byte(b: bool) -> u8 {
    if b {
        1
    } else {
        0
    }
}

fn flag_to_byte(b: bool) -> (r: u8)
    ensures
        r == flag_byte(b),
{
    if b {
        1
    } else {
        0
    }
}

/// The strings `ss`, each as a VarInt-prefixed string, one after the other.
pub open spec fn strings_bytes(ss: Seq<Seq<char>>) -> Seq<u8>
    decreases ss.len(),
{
    if ss.len() == 0 {
        Seq::empty()
    } else {
        strings_bytes(ss.drop_last()) + varint_string_bytes(ss.last())
    }
}

/// The fields of the join-game data before the registry codec: the entity
/// id in four bytes, most significant first in two's complement; the
/// hardcore flag and both game modes as one byte each; the number of
/// dimensions as a VarInt and each dimension as a VarInt-prefixed string.
pub open spec fn login_play_head(p: LoginPlay) -> Seq<u8> {
    be_bytes((p.entity_id as u32) as nat, 4) + seq![flag_byte(p.is_hardcore), p.gamemode, p.prev_gamemode]
        + varint_bytes(p.dimensions@.len() as u32) + strings_bytes(
        p.dimensions@.map_values(|s: String| s@),
    )
}

/// The fields of the join-game data after the registry codec: dimension
/// type and name as VarInt-prefixed strings; the hashed seed in eight bytes,
/// most significant first in two's complement; the three limits as VarInts;
/// five flags as one byte each; the portal cooldown as a VarInt. The death
/// dimension is not sent.
pub open spec fn login_play_tail(p: LoginPlay) -> Seq<u8> {
    varint_string_bytes(p.dimension_type@) + varint_string_bytes(p.dimension_name@) + be_bytes(
        (p.hashed_seed as u64) as nat,
        8,
    ) + varint_bytes(p.max_players) + varint_bytes(p.view_distance) + varint_bytes(
        p.simulation_distance,
    ) + seq![
        flag_byte(p.reduced_debug_info),
        flag_byte(p.enable_respawn_screen),
        flag_byte(p.debug),
        flag_byte(p.flat),
        flag_byte(p.has_death),
    ] + varint_bytes(p.portal_cooldown)
}

/// The data of the join-game packet for `p`: the head fields, the registry
/// codec as it is, the tail fields.
pub open spec fn login_play_spec(p: LoginPlay) -> Seq<u8> {
    login_play_head(p) + p.registry_codec@ + login_play_tail(p)
}

/// `s` holds `piece` right after `pre` at its front.
proof fn lemma_piece(s: Seq<u8>, pre: Seq<u8>, piece: Seq<u8>)
    requires
        s.len() >= pre.len() + piece.len(),
        s.subrange(0, (pre + piece).len() as int) == pre + piece,
    ensures
        s.subrange(pre.len() as int, (pre.len() + piece.len()) as int) == piece,
        s.subrange(0, pre.len() as int) == pre,
{
    let whole = pre + piece;
    assert forall|i: int| 0 <= i < whole.len() implies s[i] == whole[i] by {
        assert(s.subrange(0, whole.len() as int)[i] == s[i]);
    }
    assert(s.subrange(pre.len() as int, (pre.len() + piece.len()) as int) =~= piece) by {
        assert forall|i: int| 0 <= i < piece.len() implies s[pre.len() + i] == piece[i] by {
            assert(whole[pre.len() + i] == piece[i]);
        }
    }
    assert(s.subrange(0, pre.len() as int) =~= pre);
}

/// Where each field of the join-game data stands: the entity id in the
/// first four bytes, most significant first; then the hardcore flag, the
/// game mode and the previous game mode, one byte each; then the number of
/// dimensions as a VarInt and the dimensions' strings. From the end: the
/// portal cooldown's VarInt, the five flags (reduced debug info, respawn
/// screen, debug, flat, death location), one byte each, 1 for true and 0
/// for false, the VarInts of the simulation
/// distance, view distance and player limit, the hashed seed in eight
/// bytes, the dimension name's and dimension type's strings, and before them
/// the registry codec as it is.
#[verifier::rlimit(60)]
pub proof fn lemma_login_play_layout(p: LoginPlay)
    ensures
        ({
            let s = login_play_spec(p);
            let d = varint_bytes(p.dimensions@.len() as u32);
            let c = varint_bytes(p.portal_cooldown);
            let e1 = s.len() - c.len();
            let e2 = e1 - 5;
            let sim = varint_bytes(p.simulation_distance);
            let e3 = e2 - sim.len();
            let view = varint_bytes(p.view_distance);
            let e4 = e3 - view.len();
            let max = varint_bytes(p.max_players);
            let e5 = e4 - max.len();
            let e6 = e5 - 8;
            let name = varint_string_bytes(p.dimension_name@);
            let e7 = e6 - name.len();
            let typ = varint_string_bytes(p.dimension_type@);
            let e8 = e7 - typ.len();
            let e9 = e8 - p.registry_codec@.len();
            &&& s.subrange(0, 4) == be_bytes((p.entity_id as u32) as nat, 4)
            &&& s[4] == (if p.is_hardcore { 1u8 } else { 0u8 })
            &&& s[5] == p.gamemode
            &&& s[6] == p.prev_gamemode
            &&& s.subrange(7, (7 + d.len()) as int) == d
            &&& 7 + d.len() <= e9
            &&& s.subrange((7 + d.len()) as int, e9) == strings_bytes(p.dimensions@.map_values(|x: String| x@))
            &&& s.subrange(e9, e8) == p.registry_codec@
            &&& s.subrange(e8, e7) == typ
            &&& s.subrange(e7, e6) == name
            &&& s.subrange(e6, e5) == be_bytes((p.hashed_seed as u64) as nat, 8)
            &&& s.subrange(e5, e4) == max
            &&& s.subrange(e4, e3) == view
            &&& s.subrange(e3, e2) == sim
            &&& s.subrange(e2, e1) == seq![
                (if p.reduced_debug_info { 1u8 } else { 0u8 }),
                (if p.enable_respawn_screen { 1u8 } else { 0u8 }),
                (if p.debug { 1u8 } else { 0u8 }),
                (if p.flat { 1u8 } else { 0u8 }),
                (if p.has_death { 1u8 } else { 0u8 }),
            ]
            &&& s.subrange(e1, s.len() as int) == c
        }),
{
    let s = login_play_spec(p);
    let be4 = be_bytes((p.entity_id as u32) as nat, 4);
    let modes = seq![flag_byte(p.is_hardcore), p.gamemode, p.prev_gamemode];
    let d = varint_bytes(p.dimensions@.len() as u32);
    let strs = strings_bytes(p.dimensions@.map_values(|x: String| x@));
    let codec = p.registry_codec@;
    let typ = varint_string_bytes(p.dimension_type@);
    let name = varint_string_bytes(p.dimension_name@);
    let seed = be_bytes((p.hashed_seed as u64) as nat, 8);
    let max = varint_bytes(p.max_players);
    let view = varint_bytes(p.view_distance);
    let sim = varint_bytes(p.simulation_distance);
    let flags = seq![
        flag_byte(p.reduced_debug_info),
        flag_byte(p.enable_respawn_screen),
        flag_byte(p.debug),
        flag_byte(p.flat),
        flag_byte(p.has_death),
    ];
    let c = varint_bytes(p.portal_cooldown);
    lemma_be_bytes_len((p.entity_id as u32) as nat, 4);
    lemma_be_bytes_len((p.hashed_seed as u64) as nat, 8);
    let h1 = be4 + modes;
    let h2 = h1 + d;
    let head = h2 + strs;
    let p0 = head + codec;
    let p1 = p0 + typ;
    let p2 = p1 + name;
    let p3 = p2 + seed;
    let p4 = p3 + max;
    let p5 = p4 + view;
    let p6 = p5 + sim;
    let p7 = p6 + flags;
    assert(s =~= p7 + c);
    assert(s.subrange(0, s.len() as int) =~= s);
    lemma_piece(s, p7, c);
    lemma_piece(s, p6, flags);
    lemma_piece(s, p5, sim);
    lemma_piece(s, p4, view);
    lemma_piece(s, p3, max);
    lemma_piece(s, p2, seed);
    lemma_piece(s, p1, name);
    lemma_piece(s, p0, typ);
    lemma_piece(s, head, codec);
    lemma_piece(s, h2, strs);
    lemma_piece(s, h1, d);
    lemma_piece(s, be4, modes);
    assert(s[4] == s.subrange(4, 7)[0]);
    assert(s[5] == s.subrange(4, 7)[1]);
    assert(s[6] == s.subrange(4, 7)[2]);
}

fn write_login_play_head(buffer: &mut Vec<u8>, play: &LoginPlay)
    ensures
        final(buffer)@ == old(buffer)@ + login_play_head(*play),
{
    let ghost start = buffer@;
    push_be(buffer, (play.entity_id as u32) as u64, 4);
    buffer.push(flag_to_byte(play.is_hardcore));
    buffer.push(play.gamemode);
    buffer.push(play.prev_gamemode);
    write_varint(buffer, #[verifier::truncate] (play.dimensions.len() as u32));
    let ghost before = buffer@;
    assert(before =~= start + be_bytes((play.entity_id as u32) as nat, 4) + seq![
        flag_byte(play.is_hardcore),
        play.gamemode,
        play.prev_gamemode,
    ] + varint_bytes(play.dimensions@.len() as u32));
    let ghost names = play.dimensions@.map_values(|s: String| s@);
    let mut i: usize = 0;
    assert(names.take(0) =~= Seq::<Seq<char>>::empty());
    assert(buffer@ =~= before + strings_bytes(names.take(0)));
    while i < play.dimensions.len()
        invariant
            i <= play.dimensions.len(),
            names == play.dimensions@.map_values(|s: String| s@),
            buffer@ == before + strings_bytes(names.take(i as int)),
        decreases play.dimensions.len() - i,
    {
        write_varint_string(buffer, play.dimensions[i].clone());
        assert(names.take(i + 1).drop_last() =~= names.take(i as int));
        assert(buffer@ =~= before + strings_bytes(names.take(i + 1)));
        i = i + 1;
    }
    assert(names.take(i as int) =~= names);
    assert(buffer@ =~= start + login_play_head(*play));
}

#[verifier::rlimit(40)]
fn write_login_play_tail(buffer: &mut Vec<u8>, play: &LoginPlay)
    ensures
        final(buffer)@ == old(buffer)@ + login_play_tail(*play),
{
    let ghost start = buffer@;
    write_varint_string(buffer, play.dimension_type.clone());
    let ghost p = varint_string_bytes(play.dimension_type@);
    write_varint_string(buffer, play.dimension_name.clone());
    assert(buffer@ =~= start + (p + varint_string_bytes(play.dimension_name@)));
    let ghost p = p + varint_string_bytes(play.dimension_name@);
    push_be(buffer, play.hashed_seed as u64, 8);
    assert(buffer@ =~= start + (p + be_bytes((play.hashed_seed as u64) as nat, 8)));
    let ghost p = p + be_bytes((play.hashed_seed as u64) as nat, 8);
    write_varint(buffer, play.max_players);
    assert(buffer@ =~= start + (p + varint_bytes(play.max_players)));
    let ghost p = p + varint_bytes(play.max_players);
    write_varint(buffer, play.view_distance);
    assert(buffer@ =~= start + (p + varint_bytes(play.view_distance)));
    let ghost p = p + varint_bytes(play.view_distance);
    write_varint(buffer, play.simulation_distance);
    assert(buffer@ =~= start + (p + varint_bytes(play.simulation_distance)));
    let ghost p = p + varint_bytes(play.simulation_distance);
    let ghost flags = seq![
        flag_byte(play.reduced_debug_info),
        flag_byte(play.enable_respawn_screen),
        flag_byte(play.debug),
        flag_byte(play.flat),
        flag_byte(play.has_death),
    ];
    buffer.push(flag_to_byte(play.reduced_debug_info));
    buffer.push(flag_to_byte(play.enable_respawn_screen));
    buffer.push(flag_to_byte(play.debug));
    buffer.push(flag_to_byte(play.flat));
    buffer.push(flag_to_byte(play.has_death));
    assert(buffer@ =~= start + (p + flags));
    let ghost p = p + flags;
    write_varint(buffer, play.portal_cooldown);
    assert(buffer@ =~= start + (p + varint_bytes(play.portal_cooldown)));
}

/// Serialises the join-game data for `play`.
pub fn login_play_bytes(play: &LoginPlay) -> (r: Vec<u8>)
    ensures
        r@ == login_play_spec(*play),
{
    let mut buffer: Vec<u8> = Vec::new();
    write_login_play_head(&mut buffer, play);
    let ghost head = buffer@;
    buffer.extend_from_slice(play.registry_codec.as_slice());
    assert(buffer@ =~= head + play.registry_codec@);
    write_login_play_tail(&mut buffer, play);
    assert(buffer@ =~= login_play_spec(*play));
    buffer
}

} // verus!
