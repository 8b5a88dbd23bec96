//! BSON documents, built through bson's `Document` and turned into relaxed
//! extended JSON text.
use vstd::prelude::*;
use bson::{Bson, Document};

verus! {

#[verifier::external_type_specification]
#[verifier::external_body]
pub struct ExDocument(Document);

/// What a BSON value stands for, for the kinds of values that
/// `document_insert` puts into documents.
pub enum BsonValue {
    String(Seq<char>),
    Int32(i32),
    Int64(i64),
    Boolean(bool),
    Document(Seq<(Seq<char>, BsonValue)>),
    Array(Seq<BsonValue>),
}

/// A value to put into a document.
pub enum BsonField {
    Str(String),
    Int32(i32),
    UInt32(u32),
    Boolean(bool),
    Document(Document),
    Documents(Vec<Document>),
}

/// The entries of a document, in order: each key with its value.
pub uninterp spec fn document_entries(d: Document) -> Seq<(Seq<char>, BsonValue)>;

/// The relaxed extended JSON text of a BSON value, as bson's
/// `into_relaxed_extjson` and serde_json's `to_string` write it.
pub uninterp spec fn relaxed_extjson_text(v: BsonValue) -> Seq<char>;

/// The BSON value that bson makes of `f`: a `u32` becomes a 32-bit integer
/// where it fits one, else a 64-bit integer; a list of documents becomes an
/// array.
pub open spec fn field_value(f: BsonField) -> BsonValue {
    match f {
        BsonField::Str(s) => BsonValue::String(s@),
        BsonField::Int32(v) => BsonValue::Int32(v),
        BsonField::UInt32(v) => if v <= i32::MAX {
            BsonValue::Int32(v as i32)
        } else {
            BsonValue::Int64(v as i64)
        },
        BsonField::Boolean(b) => BsonValue::Boolean(b),
        BsonField::Document(d) => BsonValue::Document(document_entries(d)),
        BsonField::Documents(ds) => BsonValue::Array(
            ds@.map_values(|d: Document| BsonValue::Document(document_entries(d))),
        ),
    }
}

/// The entries after inserting `key` with `value`: an entry with that key
/// gets the new value in its place, else the entry goes at the end.
pub open spec fn insert_entry(
    entries: Seq<(Seq<char>, BsonValue)>,
    key: Seq<char>,
    value: BsonValue,
) -> Seq<(Seq<char>, BsonValue)> {
    if exists|i: int| 0 <= i < entries.len() && #[trigger] entries[i].0 == key {
        let i = choose|i: int| 0 <= i < entries.len() && #[trigger] entries[i].0 == key;
        entries.update(i, (key, value))
    } else {
        entries.push((key, value))
    }
}

/// Inserting a key that no entry holds appends it.
pub proof fn lemma_insert_new_key(entries: Seq<(Seq<char>, BsonValue)>, key: Seq<char>, value: BsonValue)
    requires
        forall|i: int| 0 <= i < entries.len() ==> entries[i].0 != key,
    ensures
        insert_entry(entries, key, value) == entries.push((key, value)),
{
}

/// A new, empty document, from bson's `Document::new`.
///
/// Trusted: `Document::new` makes an empty `IndexMap`.
#[verifier::external_body]
pub(crate) fn document_new() -> (r: Document)
    ensures
        document_entries(r) == Seq::<(Seq<char>, BsonValue)>::empty(),
{
    Document::new()
}

/// Puts `value` under `key` into `doc`, with bson's `Document::insert`.
///
/// Trusted: `insert` converts the value with bson's `From` impls (a `u32`
/// goes to `Int32` where it fits, else `Int64`; a `Vec` goes to an `Array`)
/// and puts it into the document's `IndexMap`, which keeps the place of an
/// existing key and appends a new one.
#[verifier::external_body]
pub(crate) fn document_insert(doc: &mut Document, key: &str, value: BsonField)
    ensures
        document_entries(*final(doc)) == insert_entry(document_entries(*old(doc)), key@, field_value(value)),
{
    let value: Bson = match value {
        BsonField::Str(s) => Bson::from(s),
        BsonField::Int32(v) => Bson::from(v),
        BsonField::UInt32(v) => Bson::from(v),
        BsonField::Boolean(b) => Bson::from(b),
        BsonField::Document(d) => Bson::from(d),
        BsonField::Documents(ds) => Bson::from(ds),
    };
    doc.insert(key, value);
}

/// The relaxed extended JSON text of `doc`, from bson's
/// `Bson::into_relaxed_extjson` and serde_json's `to_string`.
///
/// Trusted: the text is a function of the document's entries alone (bson
/// maps each value to a JSON value and keeps the order of the keys). The
/// call panics only on `Decimal128` values, which `document_insert` never
/// puts in. The text itself is not stated.
#[verifier::external_body]
pub(crate) fn document_to_relaxed_json(doc: Document) -> (r: String)
    ensures
        r@ == relaxed_extjson_text(BsonValue::Document(document_entries(doc))),
{
    Bson::Document(doc).into_relaxed_extjson().to_string()
}

} // verus!
