//! From raw save text to a [`Save`]: de-obfuscation, TOML parsing, decoding.
use vstd::prelude::*;
use crate::cipher::{decodable, decrypted, try_decrypt};
use crate::save::{decode_save, save_of, DecodeError, Inventory, Node, Save};

verus! {

#[verifier::external_type_specification]
#[verifier::external_body]
pub struct ExTomlValue(toml::Value);

/// The document tree that the TOML parser gives for `text`, or `None` where
/// `text` is not a valid TOML document.
pub uninterp spec fn toml_document(text: Seq<char>) -> Option<Node>;

/// Relies on `toml::from_str` into a `toml::Table`: the outcome depends on the
/// text alone, and a document that parses is a table.
#[verifier::external_body]
fn parse_toml(text: &str) -> (r: Result<Node, String>)
    ensures
        r is Ok <==> toml_document(text@) is Some,
        r matches Ok(n) ==> toml_document(text@) == Some(n) && n is Table,
{
    match toml::from_str::<toml::Table>(text) {
        Ok(t) => Ok(node_of_value(toml::Value::Table(t))),
        Err(e) => Err(e.to_string()),
    }
}

/// Copies a parsed `toml::Value` into a [`Node`], variant for variant; the
/// conversion step of `parse_toml`.
#[verifier::external_body]
fn node_of_value(v: toml::Value) -> Node {
    match v {
        toml::Value::String(s) => Node::Str(s),
        toml::Value::Table(t) => Node::Table(t.into_iter().map(|(k, v)| (k, node_of_value(v))).collect()),
        toml::Value::Array(a) => Node::Array(a.into_iter().map(node_of_value).collect()),
        _ => Node::Other,
    }
}

/// Why raw save text does not load.
#[derive(Debug, Clone, PartialEq, Eq)]
pub enum LoadError {
    /// A token holds a character that does not de-obfuscate to a valid character.
    InvalidCharacter,
    /// The repaired text is not a valid TOML document; the parser's message.
    Parse(String),
    /// The document does not decode to a save.
    Decode(DecodeError),
}

/// Parses repaired save text as TOML and decodes the save.
pub fn load_text(text: &str) -> (r: Result<Save, LoadError>)
    ensures
        r matches Err(e) ==> !(e is InvalidCharacter),
        toml_document(text@) is None <==> r is Err && r->Err_0 is Parse,
        match toml_document(text@) {
            None => true,
            Some(doc) => {
                &&& r is Ok <==> save_of(doc) is Ok
                &&& r matches Ok(s) ==> save_of(doc) == Ok::<Seq<Inventory>, DecodeError>(s.inventory@)
                &&& r matches Err(LoadError::Decode(e)) ==> save_of(doc) == Err::<Seq<Inventory>, DecodeError>(e)
            },
        },
{
    let doc = match parse_toml(text) {
        Ok(d) => d,
        Err(m) => {
            return Err(LoadError::Parse(m));
        },
    };
    match decode_save(&doc) {
        Ok(s) => Ok(s),
        Err(e) => Err(LoadError::Decode(e)),
    }
}

/// De-obfuscates raw save text, parses it as TOML and decodes the save.
pub fn load_save(raw: &str) -> (r: Result<Save, LoadError>)
    ensures
        !decodable(raw@) <==> r == Err::<Save, LoadError>(LoadError::InvalidCharacter),
        decodable(raw@) ==> (toml_document(decrypted(raw@)) is None <==> r is Err && r->Err_0 is Parse),
        decodable(raw@) ==> match toml_document(decrypted(raw@)) {
            None => true,
            Some(doc) => {
                &&& r is Ok <==> save_of(doc) is Ok
                &&& r matches Ok(s) ==> save_of(doc) == Ok::<Seq<Inventory>, DecodeError>(s.inventory@)
                &&& r matches Err(LoadError::Decode(e)) ==> save_of(doc) == Err::<Seq<Inventory>, DecodeError>(e)
            },
        },
{
    match try_decrypt(raw) {
        Some(t) => load_text(t.as_str()),
        None => Err(LoadError::InvalidCharacter),
    }
}

} // verus!
