use vstd::prelude::*;

verus! {

/// A field of a character profile update, as the caller supplied it.
#[derive(Debug)]
pub enum FieldValue {
    /// The field was not given.
    Missing,
    /// The field was given as text.
    Text(String),
    /// The field was given as some other structured value, with its compact
    /// serialized form when it could be serialized.
    Other(Option<String>),
}

/// A character profile update: every field optional.
#[derive(Debug)]
pub struct ProfileUpdate {
    pub age: FieldValue,
    pub nationality: FieldValue,
    pub sexuality: FieldValue,
    pub height: FieldValue,
    pub attributes: FieldValue,
    pub image: FieldValue,
}

/// The stored profile columns of a character.
#[derive(Debug)]
pub struct ProfileFields {
    pub age: String,
    pub nationality: String,
    pub sexuality: String,
    pub height: String,
    /// The attribute list, encoded as text.
    pub attributes: String,
    pub image_path: String,
}

/// A loaded character: its row as the catalog holds it.
#[derive(Debug)]
pub struct CharacterRecord {
    pub id: String,
    pub name: String,
    pub folder_id: Option<String>,
    pub age: Option<String>,
    pub nationality: Option<String>,
    pub sexuality: Option<String>,
    pub height: Option<String>,
    pub attributes: Option<String>,
    pub image: Option<String>,
}

/// A plain field's stored text: given text is kept, anything else is empty.
pub open spec fn field_text(f: FieldValue) -> Seq<char> {
    match f {
        FieldValue::Text(s) => s@,
        _ => Seq::empty(),
    }
}

/// The stored attribute list: given text is kept, another value is stored
/// serialized, and a missing or unserializable one is the empty list `[]`.
pub open spec fn attributes_text(f: FieldValue) -> Seq<char> {
    match f {
        FieldValue::Text(s) => s@,
        FieldValue::Other(Some(s)) => s@,
        _ => "[]"@,
    }
}

fn plain_field(f: &FieldValue) -> (r: String)
    ensures
        r@ == field_text(*f),
{
    match f {
        FieldValue::Text(s) => s.clone(),
        _ => String::new(),
    }
}

fn attributes_field(f: &FieldValue) -> (r: String)
    ensures
        r@ == attributes_text(*f),
{
    match f {
        FieldValue::Text(s) => s.clone(),
        FieldValue::Other(Some(s)) => s.clone(),
        _ => String::from_str("[]"),
    }
}

/// The profile columns of a newly created character: all empty, with an empty
/// attribute list.
pub fn initial_profile() -> (r: ProfileFields)
    ensures
        r.age@.len() == 0,
        r.nationality@.len() == 0,
        r.sexuality@.len() == 0,
        r.height@.len() == 0,
        r.attributes@ == "[]"@,
        r.image_path@.len() == 0,
{
    ProfileFields {
        age: String::new(),
        nationality: String::new(),
        sexuality: String::new(),
        height: String::new(),
        attributes: String::from_str("[]"),
        image_path: String::new(),
    }
}

/// The profile columns that saving `update` stores: each field replaces the
/// stored one, so a field left out of the update is stored empty.
pub fn profile_fields(update: &ProfileUpdate) -> (r: ProfileFields)
    ensures
        r.age@ == field_text(update.age),
        r.nationality@ == field_text(update.nationality),
        r.sexuality@ == field_text(update.sexuality),
        r.height@ == field_text(update.height),
        r.attributes@ == attributes_text(update.attributes),
        r.image_path@ == field_text(update.image),
{
    ProfileFields {
        age: plain_field(&update.age),
        nationality: plain_field(&update.nationality),
        sexuality: plain_field(&update.sexuality),
        height: plain_field(&update.height),
        attributes: attributes_field(&update.attributes),
        image_path: plain_field(&update.image),
    }
}

/// The record that loading a character returns, from its identity and its
/// stored profile columns.
pub fn character_record(
    id: &str,
    name: &str,
    folder_id: Option<String>,
    fields: ProfileFields,
) -> (r: CharacterRecord)
    ensures
        r.id@ == id@,
        r.name@ == name@,
        r.folder_id == folder_id,
        r.age == Some(fields.age),
        r.nationality == Some(fields.nationality),
        r.sexuality == Some(fields.sexuality),
        r.height == Some(fields.height),
        r.attributes == Some(fields.attributes),
        r.image == Some(fields.image_path),
{
    CharacterRecord {
        id: String::from_str(id),
        name: String::from_str(name),
        folder_id,
        age: Some(fields.age),
        nationality: Some(fields.nationality),
        sexuality: Some(fields.sexuality),
        height: Some(fields.height),
        attributes: Some(fields.attributes),
        image: Some(fields.image_path),
    }
}

} // verus!
