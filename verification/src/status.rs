//! The answer to a status request: what the server list shows.
use vstd::prelude::*;
use bson::Document;
use crate::document::{
    document_entries, document_insert, lemma_insert_new_key, document_new, document_to_relaxed_json, relaxed_extjson_text,
    BsonField, BsonValue,
};
use crate::player::{dashed, format_guid, hex_text, min_formattable_guid, Player};
use crate::varint::{varint_string_bytes, write_varint_string};

verus! {

/// The packet id of the status response.
pub const STATUS_RESPONSE_PACKET_ID: u32 = 0;

/// One player as the server list shows it.
#[derive(Debug)]
pub struct PlayerSample {
    pub name: String,
    pub id: String,
}

/// What the status response reports: the version, the player counts and a
/// sample of the players online, the description, and whether chat must be
/// signed.
#[derive(Debug)]
pub struct StatusResponse {
    pub version_name: String,
    pub protocol: i32,
    pub max_players: i32,
    pub online: u32,
    pub sample: Vec<PlayerSample>,
    pub description: String,
    pub enforces_secure_chat: bool,
}

/// The fixed parts of every status response: version 1.20 with protocol
/// 763, room for 69 players, description "yo", unsigned chat allowed.
pub open spec fn fixed_fields(r: StatusResponse) -> bool {
    &&& r.version_name@ == "1.20"@
    &&& r.protocol == 763
    &&& r.max_players == 69
    &&& r.description@ == "yo"@
    &&& !r.enforces_secure_chat
}

/// The status response for the players online, in the order given: each
/// shown by name and by GUID in dashed hexadecimal; the count online is
/// their number, cut to 32 bits.
///
/// Every GUID must be at least 16^19, else it has too few digits to be cut
/// into groups.
pub fn status_response(players: &Vec<Player>) -> (r: StatusResponse)
    requires
        forall|i: int| 0 <= i < players.len() ==> #[trigger] players[i].guid >= min_formattable_guid(),
    ensures
        fixed_fields(r),
        r.online == players.len() as u32,
        r.sample.len() == players.len(),
        forall|i: int|
            0 <= i < players.len() ==> {
                &&& (#[trigger] r.sample[i]).name@ == players[i].username@
                &&& r.sample[i].id@ == dashed(hex_text(players[i].guid))
            },
{
    let mut sample: Vec<PlayerSample> = Vec::new();
    let mut i: usize = 0;
    while i < players.len()
        invariant
            i <= players.len(),
            sample.len() == i,
            forall|j: int| 0 <= j < players.len() ==> #[trigger] players[j].guid >= min_formattable_guid(),
            forall|j: int|
                0 <= j < i ==> {
                    &&& (#[trigger] sample[j]).name@ == players[j].username@
                    &&& sample[j].id@ == dashed(hex_text(players[j].guid))
                },
        decreases players.len() - i,
    {
        let player = &players[i];
        let entry = PlayerSample { name: player.username.clone(), id: format_guid(player.guid) };
        sample.push(entry);
        i = i + 1;
    }
    let online: u32 = #[verifier::truncate] (sample.len() as u32);
    StatusResponse {
        version_name: "1.20".to_owned(),
        protocol: 763,
        max_players: 69,
        online,
        sample,
        description: "yo".to_owned(),
        enforces_secure_chat: false,
    }
}

/// The status response of the first server version: one fixed player,
/// ReeZey, always shown online.
pub fn fixed_status_response() -> (r: StatusResponse)
    ensures
        fixed_fields(r),
        r.online == 1,
        r.sample.len() == 1,
        r.sample[0].name@ == "ReeZey"@,
        r.sample[0].id@ == "2a350988-50ac-41df-b274-1b5eb6e633c1"@,
{
    let mut sample: Vec<PlayerSample> = Vec::new();
    sample.push(
        PlayerSample {
            name: "ReeZey".to_owned(),
            id: "2a350988-50ac-41df-b274-1b5eb6e633c1".to_owned(),
        },
    );
    StatusResponse {
        version_name: "1.20".to_owned(),
        protocol: 763,
        max_players: 69,
        online: 1,
        sample,
        description: "yo".to_owned(),
        enforces_secure_chat: false,
    }
}

/// The document for one sampled player: its name, then its id.
pub open spec fn sample_entry(p: PlayerSample) -> BsonValue {
    BsonValue::Document(seq![("name"@, BsonValue::String(p.name@)), ("id"@, BsonValue::String(p.id@))])
}

/// The BSON value of a `u32`: a 32-bit integer where it fits, else 64-bit.
pub open spec fn u32_value(v: u32) -> BsonValue {
    if v <= i32::MAX {
        BsonValue::Int32(v as i32)
    } else {
        BsonValue::Int64(v as i64)
    }
}

/// The entries of the status document, in order: `version` with `name`
/// and `protocol`; `players` with `max`, `online` and the `sample` array;
/// `description` with `text`; `enforcesSecureChat`.
pub open spec fn status_entries(r: StatusResponse) -> Seq<(Seq<char>, BsonValue)> {
    seq![
        (
            "version"@,
            BsonValue::Document(
                seq![("name"@, BsonValue::String(r.version_name@)), ("protocol"@, BsonValue::Int32(r.protocol))],
            ),
        ),
        (
            "players"@,
            BsonValue::Document(
                seq![
                    ("max"@, BsonValue::Int32(r.max_players)),
                    ("online"@, u32_value(r.online)),
                    ("sample"@, BsonValue::Array(r.sample@.map_values(|p: PlayerSample| sample_entry(p)))),
                ],
            ),
        ),
        ("description"@, BsonValue::Document(seq![("text"@, BsonValue::String(r.description@))])),
        ("enforcesSecureChat"@, BsonValue::Boolean(r.enforces_secure_chat)),
    ]
}

/// In the status document, `players` is the second entry and its `sample`
/// the third one inside; the sample holds one document per sampled player,
/// in order, with that player's own name and id.
pub proof fn lemma_status_sample(r: StatusResponse)
    ensures
        status_entries(r).len() == 4,
        status_entries(r)[1].0 == "players"@,
        status_entries(r)[1].1 matches BsonValue::Document(players) && players.len() == 3
            && players[2].0 == "sample"@ && (players[2].1 matches BsonValue::Array(a) && a.len()
            == r.sample@.len() && forall|i: int|
            0 <= i < a.len() ==> #[trigger] a[i] == BsonValue::Document(
                seq![("name"@, BsonValue::String(r.sample@[i].name@)), ("id"@, BsonValue::String(r.sample@[i].id@))],
            )),
{
}

/// The other entries of the status document: `version` first, holding the
/// version name and then the protocol number; in `players`, `max` first and
/// `online` second, the count as a 32-bit integer where it fits and as a
/// 64-bit one beyond; `description` third, holding the text; last the
/// secure-chat flag.
pub proof fn lemma_status_fields(r: StatusResponse)
    ensures
        status_entries(r)[0] == (
            "version"@,
            BsonValue::Document(
                seq![("name"@, BsonValue::String(r.version_name@)), ("protocol"@, BsonValue::Int32(r.protocol))],
            ),
        ),
        status_entries(r)[1].1 matches BsonValue::Document(players) && players[0] == (
            "max"@,
            BsonValue::Int32(r.max_players),
        ) && players[1].0 == "online"@ && (r.online <= i32::MAX ==> players[1].1 == BsonValue::Int32(
            r.online as i32,
        )) && (r.online > i32::MAX ==> players[1].1 == BsonValue::Int64(r.online as i64)),
        status_entries(r)[2] == ("description"@, BsonValue::Document(seq![("text"@, BsonValue::String(r.description@))])),
        status_entries(r)[3] == ("enforcesSecureChat"@, BsonValue::Boolean(r.enforces_secure_chat)),
{
}

fn sample_document(p: &PlayerSample) -> (r: Document)
    ensures
        BsonValue::Document(document_entries(r)) == sample_entry(*p),
{
    proof {
        reveal_strlit("name");
        reveal_strlit("id");
        assert("name"@.len() == 4);
        assert("id"@.len() == 2);
        assert("name"@ != "id"@);
    }
    let mut doc = document_new();
    let ghost e0 = document_entries(doc);
    proof {
        lemma_insert_new_key(e0, "name"@, BsonValue::String(p.name@));
    }
    document_insert(&mut doc, "name", BsonField::Str(p.name.clone()));
    let ghost e1 = document_entries(doc);
    proof {
        lemma_insert_new_key(e1, "id"@, BsonValue::String(p.id@));
    }
    document_insert(&mut doc, "id", BsonField::Str(p.id.clone()));
    assert(document_entries(doc) =~= seq![("name"@, BsonValue::String(p.name@)), ("id"@, BsonValue::String(p.id@))]);
    doc
}

/// The status response as a BSON document.
pub fn status_document(response: &StatusResponse) -> (r: Document)
    ensures
        document_entries(r) == status_entries(*response),
{
    proof {
        reveal_strlit("version");
        reveal_strlit("name");
        reveal_strlit("protocol");
        reveal_strlit("players");
        reveal_strlit("max");
        reveal_strlit("online");
        reveal_strlit("sample");
        reveal_strlit("description");
        reveal_strlit("text");
        reveal_strlit("enforcesSecureChat");
        assert("name"@.len() == 4 && "protocol"@.len() == 8);
        assert("max"@.len() == 3 && "online"@.len() == 6 && "sample"@.len() == 6);
        assert("online"@[0] == 'o' && "sample"@[0] == 's');
        assert("version"@.len() == 7 && "players"@.len() == 7 && "description"@.len() == 11);
        assert("enforcesSecureChat"@.len() == 18);
        assert("version"@[0] == 'v' && "players"@[0] == 'p');
    }
    let mut version_status = document_new();
    let ghost e = document_entries(version_status);
    proof {
        lemma_insert_new_key(e, "name"@, BsonValue::String(response.version_name@));
    }
    document_insert(&mut version_status, "name", BsonField::Str(response.version_name.clone()));
    let ghost e = document_entries(version_status);
    proof {
        lemma_insert_new_key(e, "protocol"@, BsonValue::Int32(response.protocol));
    }
    document_insert(&mut version_status, "protocol", BsonField::Int32(response.protocol));
    let ghost version_entries = document_entries(version_status);
    let mut status = document_new();
    let ghost e = document_entries(status);
    proof {
        lemma_insert_new_key(e, "version"@, BsonValue::Document(version_entries));
    }
    document_insert(&mut status, "version", BsonField::Document(version_status));

    let mut players_array: Vec<Document> = Vec::new();
    let mut i: usize = 0;
    while i < response.sample.len()
        invariant
            i <= response.sample.len(),
            players_array.len() == i,
            forall|j: int|
                0 <= j < i ==> BsonValue::Document(document_entries(#[trigger] players_array@[j]))
                    == sample_entry(response.sample@[j]),
        decreases response.sample.len() - i,
    {
        let doc = sample_document(&response.sample[i]);
        players_array.push(doc);
        i = i + 1;
    }
    let ghost sample_value = BsonValue::Array(
        players_array@.map_values(|d: Document| BsonValue::Document(document_entries(d))),
    );
    assert(players_array@.map_values(|d: Document| BsonValue::Document(document_entries(d)))
        =~= response.sample@.map_values(|p: PlayerSample| sample_entry(p)));

    let mut players_status = document_new();
    let ghost e = document_entries(players_status);
    proof {
        lemma_insert_new_key(e, "max"@, BsonValue::Int32(response.max_players));
    }
    document_insert(&mut players_status, "max", BsonField::Int32(response.max_players));
    let ghost e = document_entries(players_status);
    proof {
        lemma_insert_new_key(e, "online"@, u32_value(response.online));
    }
    document_insert(&mut players_status, "online", BsonField::UInt32(response.online));
    let ghost e = document_entries(players_status);
    proof {
        lemma_insert_new_key(e, "sample"@, sample_value);
    }
    document_insert(&mut players_status, "sample", BsonField::Documents(players_array));
    let ghost players_entries = document_entries(players_status);
    let ghost e = document_entries(status);
    proof {
        lemma_insert_new_key(e, "players"@, BsonValue::Document(players_entries));
    }
    document_insert(&mut status, "players", BsonField::Document(players_status));

    let mut description_status = document_new();
    let ghost e = document_entries(description_status);
    proof {
        lemma_insert_new_key(e, "text"@, BsonValue::String(response.description@));
    }
    document_insert(&mut description_status, "text", BsonField::Str(response.description.clone()));
    let ghost description_entries = document_entries(description_status);
    let ghost e = document_entries(status);
    proof {
        lemma_insert_new_key(e, "description"@, BsonValue::Document(description_entries));
    }
    document_insert(&mut status, "description", BsonField::Document(description_status));

    let ghost e = document_entries(status);
    proof {
        lemma_insert_new_key(e, "enforcesSecureChat"@, BsonValue::Boolean(response.enforces_secure_chat));
    }
    document_insert(&mut status, "enforcesSecureChat", BsonField::Boolean(response.enforces_secure_chat));
    assert(version_entries =~= seq![
        ("name"@, BsonValue::String(response.version_name@)),
        ("protocol"@, BsonValue::Int32(response.protocol)),
    ]);
    assert(players_entries =~= seq![
        ("max"@, BsonValue::Int32(response.max_players)),
        ("online"@, u32_value(response.online)),
        ("sample"@, BsonValue::Array(response.sample@.map_values(|p: PlayerSample| sample_entry(p)))),
    ]);
    assert(description_entries =~= seq![("text"@, BsonValue::String(response.description@))]);
    assert(document_entries(status) =~= status_entries(*response));
    status
}

/// The relaxed extended JSON text of the status response.
pub open spec fn status_json_text(r: StatusResponse) -> Seq<char> {
    relaxed_extjson_text(BsonValue::Document(status_entries(r)))
}

/// The data of the status response packet: the response's JSON text as a
/// VarInt-prefixed string.
pub fn status_packet_data(response: &StatusResponse) -> (r: Vec<u8>)
    ensures
        r@ == varint_string_bytes(status_json_text(*response)),
{
    let json = document_to_relaxed_json(status_document(response));
    let mut output_buffer: Vec<u8> = Vec::new();
    write_varint_string(&mut output_buffer, json);
    output_buffer
}

} // verus!
