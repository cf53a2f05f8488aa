//! The save model and its decoding from a parsed document tree.
//!
//! Every scalar of the document is stored as text: unsigned integers as
//! decimal text, booleans as `0` or `1`, optional integers as decimal text
//! with `-1` for "absent". The inventory is a table keyed by decimal indices,
//! rebuilt as a dense sequence with [`Inventory::Missing`] in the gaps.
use vstd::prelude::*;
use vstd::string::StringExecFns;
use crate::scalar::{
    i64_value, lemma_unsigned_bounds, low32, low_u32, numeral_value, parse_i64, parse_u32,
    parse_unsigned, read_bit, unsigned_value,
};

verus! {

/// A node of a parsed structured-text document.
#[derive(Debug)]
pub enum Node {
    /// A string.
    Str(String),
    /// A table: its keys and values, in the parser's key order.
    Table(Vec<(String, Node)>),
    /// An array.
    Array(Vec<Node>),
    /// Any other value (integer, float, boolean, date-time).
    Other,
}

/// A decoded save: its inventory, indexed by slot.
#[derive(Debug, Clone)]
pub struct Save {
    pub inventory: Vec<Inventory>,
}

/// One inventory slot.
#[derive(Debug, Clone, PartialEq, Eq)]
pub enum Inventory {
    MaterialInventory(MaterialInventory),
    ArtifactInventory(ArtifactInventory),
    SpellgemInventory(SpellgemInventory),
    NetherstoneInventory(NetherstoneInventory),
    DustInventory(DustInventory),
    ConsumableInventory(ConsumableInventory),
    /// A slot that the document does not fill.
    Missing,
}

#[derive(Debug, Clone, PartialEq, Eq)]
pub struct MaterialInventory {
    pub material_quantity: u32,
    pub material_id: u32,
    pub looked: bool,
}

#[derive(Debug, Clone, PartialEq, Eq)]
pub struct ArtifactInventory {
    pub nether_ptr: Option<u32>,
    pub artifact_awakened: String,
    pub artifact_spell: String,
    pub artifact_trait: String,
    pub artifact_stat_slot1: Option<ArtifactStatSlot>,
    pub artifact_stat_slot2: Option<ArtifactStatSlot>,
    pub artifact_stat_slot3: Option<ArtifactStatSlot>,
    pub artifact_stat_slot4: Option<ArtifactStatSlot>,
    pub artifact_trick_slot1: Option<ArtifactTrickSlot>,
    pub artifact_trick_slot2: Option<ArtifactTrickSlot>,
    pub artifact_tier: u32,
    pub artifact_guid: u32,
    pub artifact_locked: bool,
    pub artifact_nickname: String,
    pub artifact_type: ArtifactType,
    pub looked: bool,
}

pub type ArtifactType = u32;

pub type ArtifactStatSlot = u32;

pub type ArtifactTrickSlot = u32;

#[derive(Debug, Clone, PartialEq, Eq)]
pub struct SpellgemInventory {}

#[derive(Debug, Clone, PartialEq, Eq)]
pub struct NetherstoneInventory {}

#[derive(Debug, Clone, PartialEq, Eq)]
pub struct DustInventory {}

#[derive(Debug, Clone, PartialEq, Eq)]
pub struct ConsumableInventory {}

/// Why a document does not decode. Each error names the field concerned.
#[derive(Debug, Clone, PartialEq, Eq)]
pub enum DecodeError {
    /// The field is absent.
    MissingField(&'static str),
    /// The field holds a node of the wrong kind, or text that does not parse.
    InvalidType(&'static str),
    /// The boolean field holds a numeral other than `0` and `1`; its text.
    InvalidValue(&'static str, String),
    /// The record's discriminator names no known kind of record.
    UnknownTag(String),
    /// The inventory key is not a decimal index that a sequence can hold.
    MalformedKey(String),
}

/// The value of the first entry of `entries` from position `i` on whose key is `name`.
pub open spec fn lookup_from(entries: Seq<(String, Node)>, name: Seq<char>, i: int) -> Option<Node>
    decreases entries.len() - i,
{
    if i < 0 || i >= entries.len() {
        None
    } else if entries[i].0@ == name {
        Some(entries[i].1)
    } else {
        lookup_from(entries, name, i + 1)
    }
}

/// The value of field `name` of a table.
pub open spec fn lookup(entries: Seq<(String, Node)>, name: Seq<char>) -> Option<Node> {
    lookup_from(entries, name, 0)
}

/// Text field `name`.
pub open spec fn text_field(t: Seq<(String, Node)>, name: &'static str) -> Result<String, DecodeError> {
    match lookup(t, name@) {
        None => Err(DecodeError::MissingField(name)),
        Some(Node::Str(s)) => Ok(s),
        Some(_) => Err(DecodeError::InvalidType(name)),
    }
}

/// The unsigned integer that text `s` encodes.
pub open spec fn u32_of(s: Seq<char>, name: &'static str) -> Result<u32, DecodeError> {
    match unsigned_value(s, u32::MAX as int) {
        Some(v) => Ok(v as u32),
        None => Err(DecodeError::InvalidType(name)),
    }
}

/// The boolean that text `s` encodes: `0` or `1`, read as a `u64` (no minus
/// sign). Any other numeral is an invalid value; text that is no numeral is of
/// the wrong type.
pub open spec fn bool_of(s: String, name: &'static str) -> Result<bool, DecodeError> {
    if unsigned_value(s@, u64::MAX as int) == Some(0int) {
        Ok(false)
    } else if unsigned_value(s@, u64::MAX as int) == Some(1int) {
        Ok(true)
    } else if numeral_value(s@) is Some {
        Err(DecodeError::InvalidValue(name, s))
    } else {
        Err(DecodeError::InvalidType(name))
    }
}

/// The optional unsigned integer that text `s` encodes: `-1` is absent, any
/// other `i64` is present, cut to its low 32 bits.
pub open spec fn option_u32_of(s: Seq<char>, name: &'static str) -> Result<Option<u32>, DecodeError> {
    match i64_value(s) {
        Some(v) => if v == -1 {
            Ok(None)
        } else {
            Ok(Some(low32(v) as u32))
        },
        None => Err(DecodeError::InvalidType(name)),
    }
}

/// The optional-integer encoding: text reading `-1` decodes to "absent"; text
/// reading any other `i64` decodes to "present", holding that value modulo
/// 2^32 (so exactly the value where it fits a `u32`, and `-2` gives 4294967294).
pub proof fn lemma_option_sentinel(s: Seq<char>, name: &'static str, v: int)
    requires
        i64_value(s) == Some(v),
    ensures
        v == -1 ==> option_u32_of(s, name) == Ok::<Option<u32>, DecodeError>(None),
        v != -1 ==> option_u32_of(s, name) is Ok && option_u32_of(s, name)->Ok_0 is Some
            && (option_u32_of(s, name)->Ok_0->Some_0) as int == v % 0x1_0000_0000,
        v != -1 && 0 <= v <= u32::MAX ==> option_u32_of(s, name) == Ok::<Option<u32>, DecodeError>(
            Some(v as u32),
        ) && (v as u32) as int == v,
{
    assert(0 <= low32(v) < 0x1_0000_0000);
    if 0 <= v <= u32::MAX {
        assert(low32(v) == v);
    }
}

pub open spec fn u32_field(t: Seq<(String, Node)>, name: &'static str) -> Result<u32, DecodeError> {
    match text_field(t, name) {
        Ok(s) => u32_of(s@, name),
        Err(e) => Err(e),
    }
}

pub open spec fn bool_field(t: Seq<(String, Node)>, name: &'static str) -> Result<bool, DecodeError> {
    match text_field(t, name) {
        Ok(s) => bool_of(s, name),
        Err(e) => Err(e),
    }
}

pub open spec fn option_u32_field(t: Seq<(String, Node)>, name: &'static str) -> Result<
    Option<u32>,
    DecodeError,
> {
    match text_field(t, name) {
        Ok(s) => option_u32_of(s@, name),
        Err(e) => Err(e),
    }
}

/// Position of the first entry whose key is `name`.
fn find_field(entries: &Vec<(String, Node)>, name: &str) -> (r: Option<usize>)
    ensures
        r is None ==> lookup(entries@, name@) is None,
        r matches Some(k) ==> k < entries.len() && lookup(entries@, name@) == Some(entries@[k as int].1),
{
    let key = <String as StringExecFns>::from_str(name);
    let mut i: usize = 0;
    while i < entries.len()
        invariant
            0 <= i <= entries.len(),
            key@ == name@,
            lookup(entries@, name@) == lookup_from(entries@, name@, i as int),
        decreases entries.len() - i,
    {
        if entries[i].0 == key {
            return Some(i);
        }
        i = i + 1;
    }
    None
}

/// Decodes text field `name` of table `t`.
pub fn decode_text(t: &Vec<(String, Node)>, name: &'static str) -> (r: Result<String, DecodeError>)
    ensures
        r == text_field(t@, name),
{
    match find_field(t, name) {
        None => Err(DecodeError::MissingField(name)),
        Some(k) => match &t[k].1 {
            Node::Str(s) => Ok(s.clone()),
            _ => Err(DecodeError::InvalidType(name)),
        },
    }
}

/// Decodes unsigned integer field `name` of table `t`, stored as decimal text.
pub fn decode_u32(t: &Vec<(String, Node)>, name: &'static str) -> (r: Result<u32, DecodeError>)
    ensures
        r == u32_field(t@, name),
{
    let s = decode_text(t, name)?;
    match parse_u32(s.as_str()) {
        Some(v) => Ok(v),
        None => Err(DecodeError::InvalidType(name)),
    }
}

/// Decodes boolean field `name` of table `t`, stored as `0` or `1`.
pub fn decode_bool(t: &Vec<(String, Node)>, name: &'static str) -> (r: Result<bool, DecodeError>)
    ensures
        r == bool_field(t@, name),
{
    let s = decode_text(t, name)?;
    match read_bit(s.as_str()) {
        Some(Some(b)) => Ok(b),
        Some(None) => Err(DecodeError::InvalidValue(name, s)),
        None => Err(DecodeError::InvalidType(name)),
    }
}

/// Decodes optional unsigned integer field `name` of table `t`, stored as
/// decimal text with `-1` for "absent".
pub fn decode_option_u32(t: &Vec<(String, Node)>, name: &'static str) -> (r: Result<
    Option<u32>,
    DecodeError,
>)
    ensures
        r == option_u32_field(t@, name),
{
    let s = decode_text(t, name)?;
    match parse_i64(s.as_str()) {
        Some(v) => if v == -1 {
            Ok(None)
        } else {
            Ok(Some(low_u32(v)))
        },
        None => Err(DecodeError::InvalidType(name)),
    }
}

/// The material record that table `t` holds.
pub open spec fn material_of(t: Seq<(String, Node)>) -> Result<MaterialInventory, DecodeError> {
    if u32_field(t, "MaterialQuantity") is Err {
        Err(u32_field(t, "MaterialQuantity")->Err_0)
    } else if u32_field(t, "MaterialID") is Err {
        Err(u32_field(t, "MaterialID")->Err_0)
    } else if bool_field(t, "Looked") is Err {
        Err(bool_field(t, "Looked")->Err_0)
    } else {
        Ok(MaterialInventory {
            material_quantity: u32_field(t, "MaterialQuantity")->Ok_0,
            material_id: u32_field(t, "MaterialID")->Ok_0,
            looked: bool_field(t, "Looked")->Ok_0,
        })
    }
}

/// The artifact record that table `t` holds. Fields are decoded in
/// declaration order; the first that fails gives the error.
#[verifier::opaque]
pub open spec fn artifact_of(t: Seq<(String, Node)>) -> Result<ArtifactInventory, DecodeError> {
    if option_u32_field(t, "NetherPtr") is Err {
        Err(option_u32_field(t, "NetherPtr")->Err_0)
    } else if text_field(t, "ArtifactAwakened") is Err {
        Err(text_field(t, "ArtifactAwakened")->Err_0)
    } else if text_field(t, "ArtifactSpell") is Err {
        Err(text_field(t, "ArtifactSpell")->Err_0)
    } else if text_field(t, "ArtifactTrait") is Err {
        Err(text_field(t, "ArtifactTrait")->Err_0)
    } else if option_u32_field(t, "ArtifactStatSlot1") is Err {
        Err(option_u32_field(t, "ArtifactStatSlot1")->Err_0)
    } else if option_u32_field(t, "ArtifactStatSlot2") is Err {
        Err(option_u32_field(t, "ArtifactStatSlot2")->Err_0)
    } else if option_u32_field(t, "ArtifactStatSlot3") is Err {
        Err(option_u32_field(t, "ArtifactStatSlot3")->Err_0)
    } else if option_u32_field(t, "ArtifactStatSlot4") is Err {
        Err(option_u32_field(t, "ArtifactStatSlot4")->Err_0)
    } else if option_u32_field(t, "ArtifactTrickSlot1") is Err {
        Err(option_u32_field(t, "ArtifactTrickSlot1")->Err_0)
    } else if option_u32_field(t, "ArtifactTrickSlot2") is Err {
        Err(option_u32_field(t, "ArtifactTrickSlot2")->Err_0)
    } else if u32_field(t, "ArtifactTier") is Err {
        Err(u32_field(t, "ArtifactTier")->Err_0)
    } else if u32_field(t, "ArtifactGUID") is Err {
        Err(u32_field(t, "ArtifactGUID")->Err_0)
    } else if bool_field(t, "ArtifactLocked") is Err {
        Err(bool_field(t, "ArtifactLocked")->Err_0)
    } else if text_field(t, "ArtifactNickname") is Err {
        Err(text_field(t, "ArtifactNickname")->Err_0)
    } else if u32_field(t, "ArtifactType") is Err {
        Err(u32_field(t, "ArtifactType")->Err_0)
    } else if bool_field(t, "Looked") is Err {
        Err(bool_field(t, "Looked")->Err_0)
    } else {
        Ok(ArtifactInventory {
            nether_ptr: option_u32_field(t, "NetherPtr")->Ok_0,
            artifact_awakened: text_field(t, "ArtifactAwakened")->Ok_0,
            artifact_spell: text_field(t, "ArtifactSpell")->Ok_0,
            artifact_trait: text_field(t, "ArtifactTrait")->Ok_0,
            artifact_stat_slot1: option_u32_field(t, "ArtifactStatSlot1")->Ok_0,
            artifact_stat_slot2: option_u32_field(t, "ArtifactStatSlot2")->Ok_0,
            artifact_stat_slot3: option_u32_field(t, "ArtifactStatSlot3")->Ok_0,
            artifact_stat_slot4: option_u32_field(t, "ArtifactStatSlot4")->Ok_0,
            artifact_trick_slot1: option_u32_field(t, "ArtifactTrickSlot1")->Ok_0,
            artifact_trick_slot2: option_u32_field(t, "ArtifactTrickSlot2")->Ok_0,
            artifact_tier: u32_field(t, "ArtifactTier")->Ok_0,
            artifact_guid: u32_field(t, "ArtifactGUID")->Ok_0,
            artifact_locked: bool_field(t, "ArtifactLocked")->Ok_0,
            artifact_nickname: text_field(t, "ArtifactNickname")->Ok_0,
            artifact_type: u32_field(t, "ArtifactType")->Ok_0,
            looked: bool_field(t, "Looked")->Ok_0,
        })
    }
}

/// Decodes a material record from its table.
pub fn decode_material(t: &Vec<(String, Node)>) -> (r: Result<MaterialInventory, DecodeError>)
    ensures
        r == material_of(t@),
{
    let material_quantity = decode_u32(t, "MaterialQuantity")?;
    let material_id = decode_u32(t, "MaterialID")?;
    let looked = decode_bool(t, "Looked")?;
    Ok(MaterialInventory { material_quantity, material_id, looked })
}

/// Decodes an artifact record from its table.
pub fn decode_artifact(t: &Vec<(String, Node)>) -> (r: Result<ArtifactInventory, DecodeError>)
    ensures
        r == artifact_of(t@),
{
    reveal(artifact_of);
    let nether_ptr = decode_option_u32(t, "NetherPtr")?;
    let artifact_awakened = decode_text(t, "ArtifactAwakened")?;
    let artifact_spell = decode_text(t, "ArtifactSpell")?;
    let artifact_trait = decode_text(t, "ArtifactTrait")?;
    let artifact_stat_slot1 = decode_option_u32(t, "ArtifactStatSlot1")?;
    let artifact_stat_slot2 = decode_option_u32(t, "ArtifactStatSlot2")?;
    let artifact_stat_slot3 = decode_option_u32(t, "ArtifactStatSlot3")?;
    let artifact_stat_slot4 = decode_option_u32(t, "ArtifactStatSlot4")?;
    let artifact_trick_slot1 = decode_option_u32(t, "ArtifactTrickSlot1")?;
    let artifact_trick_slot2 = decode_option_u32(t, "ArtifactTrickSlot2")?;
    let artifact_tier = decode_u32(t, "ArtifactTier")?;
    let artifact_guid = decode_u32(t, "ArtifactGUID")?;
    let artifact_locked = decode_bool(t, "ArtifactLocked")?;
    let artifact_nickname = decode_text(t, "ArtifactNickname")?;
    let artifact_type = decode_u32(t, "ArtifactType")?;
    let looked = decode_bool(t, "Looked")?;
    Ok(ArtifactInventory {
        nether_ptr,
        artifact_awakened,
        artifact_spell,
        artifact_trait,
        artifact_stat_slot1,
        artifact_stat_slot2,
        artifact_stat_slot3,
        artifact_stat_slot4,
        artifact_trick_slot1,
        artifact_trick_slot2,
        artifact_tier,
        artifact_guid,
        artifact_locked,
        artifact_nickname,
        artifact_type,
        looked,
    })
}

/// The record that `node` holds, chosen by its `Type` discriminator.
#[verifier::opaque]
pub open spec fn record_of(node: Node) -> Result<Inventory, DecodeError> {
    match node {
        Node::Table(t) => match text_field(t@, "Type") {
            Err(e) => Err(e),
            Ok(tag) => if tag@ == "obj_material"@ {
                match material_of(t@) {
                    Ok(m) => Ok(Inventory::MaterialInventory(m)),
                    Err(e) => Err(e),
                }
            } else if tag@ == "obj_artifact"@ {
                match artifact_of(t@) {
                    Ok(a) => Ok(Inventory::ArtifactInventory(a)),
                    Err(e) => Err(e),
                }
            } else if tag@ == "obj_spellgem"@ {
                Ok(Inventory::SpellgemInventory(SpellgemInventory {  }))
            } else if tag@ == "obj_netherstone"@ {
                Ok(Inventory::NetherstoneInventory(NetherstoneInventory {  }))
            } else if tag@ == "obj_dust"@ {
                Ok(Inventory::DustInventory(DustInventory {  }))
            } else if tag@ == "obj_consumable"@ {
                Ok(Inventory::ConsumableInventory(ConsumableInventory {  }))
            } else {
                Err(DecodeError::UnknownTag(tag))
            },
        },
        _ => Err(DecodeError::InvalidType("Type")),
    }
}

fn text_is(s: &String, lit: &str) -> (r: bool)
    ensures
        r == (s@ == lit@),
{
    *s == <String as StringExecFns>::from_str(lit)
}

/// Decodes one inventory record, dispatching on its `Type` discriminator.
pub fn decode_record(node: &Node) -> (r: Result<Inventory, DecodeError>)
    ensures
        r == record_of(*node),
{
    reveal(record_of);
    match node {
        Node::Table(t) => {
            let tag = decode_text(t, "Type")?;
            if text_is(&tag, "obj_material") {
                Ok(Inventory::MaterialInventory(decode_material(t)?))
            } else if text_is(&tag, "obj_artifact") {
                Ok(Inventory::ArtifactInventory(decode_artifact(t)?))
            } else if text_is(&tag, "obj_spellgem") {
                Ok(Inventory::SpellgemInventory(SpellgemInventory {  }))
            } else if text_is(&tag, "obj_netherstone") {
                Ok(Inventory::NetherstoneInventory(NetherstoneInventory {  }))
            } else if text_is(&tag, "obj_dust") {
                Ok(Inventory::DustInventory(DustInventory {  }))
            } else if text_is(&tag, "obj_consumable") {
                Ok(Inventory::ConsumableInventory(ConsumableInventory {  }))
            } else {
                Err(DecodeError::UnknownTag(tag))
            }
        },
        _ => Err(DecodeError::InvalidType("Type")),
    }
}

/// The slot that an inventory key names: a decimal index below `usize::MAX`,
/// so that a sequence can reach it.
pub open spec fn slot_of(key: Seq<char>) -> Option<int> {
    unsigned_value(key, usize::MAX as int - 1)
}

/// `v` grown with [`Inventory::Missing`] up to `i + 1` slots where it is
/// shorter, with `x` put at slot `i`.
pub open spec fn place(v: Seq<Inventory>, i: int, x: Inventory) -> Seq<Inventory> {
    if i < v.len() {
        v.update(i, x)
    } else {
        (v + Seq::new((i + 1 - v.len()) as nat, |_k: int| Inventory::Missing)).update(i, x)
    }
}

/// The sequence rebuilt from the first `n` entries of the inventory table.
pub open spec fn slots_of(entries: Seq<(String, Node)>, n: int) -> Result<Seq<Inventory>, DecodeError>
    decreases n,
{
    if n <= 0 {
        Ok(Seq::empty())
    } else {
        match slots_of(entries, n - 1) {
            Err(e) => Err(e),
            Ok(v) => match slot_of(entries[n - 1].0@) {
                None => Err(DecodeError::MalformedKey(entries[n - 1].0)),
                Some(i) => match record_of(entries[n - 1].1) {
                    Err(e) => Err(e),
                    Ok(x) => Ok(place(v, i, x)),
                },
            },
        }
    }
}

/// Once an entry fails, the rebuilt sequence fails with that error whatever follows.
proof fn lemma_slots_error_persists(entries: Seq<(String, Node)>, n: int, m: int)
    requires
        n <= m,
        slots_of(entries, n) is Err,
    ensures
        slots_of(entries, m) == slots_of(entries, n),
    decreases m - n,
{
    if n < m {
        lemma_slots_error_persists(entries, n, m - 1);
    }
}

proof fn lemma_place(w: Seq<Inventory>, i: int, x: Inventory)
    requires
        0 <= i,
    ensures
        place(w, i, x).len() == if i < w.len() {
            w.len() as int
        } else {
            i + 1
        },
        forall|j: int|
            0 <= j < place(w, i, x).len() ==> #[trigger] place(w, i, x)[j] == if j == i {
                x
            } else if j < w.len() {
                w[j]
            } else {
                Inventory::Missing
            },
{
}

/// The slot named by the key of entry `k`.
pub open spec fn entry_slot(entries: Seq<(String, Node)>, k: int) -> int {
    slot_of(entries[k].0@)->Some_0
}

/// The rebuilt inventory is dense: its length is one more than the largest
/// slot that a key names (zero with no keys), every slot that no key names
/// holds [`Inventory::Missing`], and each named slot holds the record of the
/// last entry that names it.
#[verifier::rlimit(40)]
pub proof fn lemma_slots_dense(entries: Seq<(String, Node)>, n: int)
    requires
        0 <= n <= entries.len(),
        slots_of(entries, n) is Ok,
    ensures
        ({
            let v = slots_of(entries, n)->Ok_0;
            &&& forall|k: int| 0 <= k < n ==> slot_of(#[trigger] entries[k].0@) is Some
                && 0 <= entry_slot(entries, k) < v.len()
            &&& v.len() == 0 || exists|k: int| 0 <= k < n && entry_slot(entries, k) == v.len() - 1
            &&& forall|j: int|
                0 <= j < v.len() && (forall|k: int| 0 <= k < n ==> entry_slot(entries, k) != j)
                    ==> #[trigger] v[j] == Inventory::Missing
            &&& forall|k: int|
                0 <= k < n && (forall|l: int| k < l < n ==> entry_slot(entries, l) != entry_slot(entries, k))
                    ==> v[entry_slot(entries, k)] == #[trigger] record_of(entries[k].1)->Ok_0
        }),
    decreases n,
{
    if n > 0 {
        let prev = slots_of(entries, n - 1);
        assert(prev is Ok);
        lemma_slots_dense(entries, n - 1);
        let w = prev->Ok_0;
        let i = entry_slot(entries, n - 1);
        lemma_unsigned_bounds(entries[n - 1].0@, usize::MAX as int - 1);
        assert(i >= 0);
        let x = record_of(entries[n - 1].1)->Ok_0;
        let v = slots_of(entries, n)->Ok_0;
        assert(slot_of(entries[n - 1].0@) is Some);
        assert(record_of(entries[n - 1].1) is Ok);
        assert(v == place(w, i, x));
        lemma_place(w, i, x);
        assert forall|k: int| 0 <= k < n implies slot_of(#[trigger] entries[k].0@) is Some
            && 0 <= entry_slot(entries, k) < v.len() by {
            if k < n - 1 {
                assert(slot_of(entries[k].0@) is Some);
            }
        }
        if v.len() > 0 && i != v.len() - 1 {
            assert(v.len() == w.len());
            let k = choose|k: int| 0 <= k < n - 1 && entry_slot(entries, k) == w.len() - 1;
            assert(0 <= k < n && entry_slot(entries, k) == v.len() - 1);
        }
        assert forall|j: int|
            0 <= j < v.len() && (forall|k: int| 0 <= k < n ==> entry_slot(entries, k) != j)
                implies #[trigger] v[j] == Inventory::Missing by {
            assert(entry_slot(entries, n - 1) != j);
            if j < w.len() {
                assert(forall|k: int| 0 <= k < n - 1 ==> entry_slot(entries, k) != j);
                assert(w[j] == Inventory::Missing);
            }
        }
        assert forall|k: int|
            0 <= k < n && (forall|l: int| k < l < n ==> entry_slot(entries, l) != entry_slot(entries, k))
                implies v[entry_slot(entries, k)] == #[trigger] record_of(entries[k].1)->Ok_0 by {
            if k < n - 1 {
                assert(entry_slot(entries, n - 1) != entry_slot(entries, k));
                assert(forall|l: int| k < l < n - 1 ==> entry_slot(entries, l) != entry_slot(entries, k));
            }
        }
    }
}

/// The inventory sequence that `node` holds.
pub open spec fn inventory_of(node: Node) -> Result<Seq<Inventory>, DecodeError> {
    match node {
        Node::Table(t) => slots_of(t@, t@.len() as int),
        _ => Err(DecodeError::InvalidType("Inventory")),
    }
}

/// The inventory of the save that document `doc` holds.
pub open spec fn save_of(doc: Node) -> Result<Seq<Inventory>, DecodeError> {
    match doc {
        Node::Table(t) => match lookup(t@, "Inventory"@) {
            None => Err(DecodeError::MissingField("Inventory")),
            Some(inv) => inventory_of(inv),
        },
        _ => Err(DecodeError::InvalidType("Inventory")),
    }
}

/// Rebuilds the dense inventory sequence from a table keyed by decimal slot
/// indices: each record lands at its slot, and slots that no key names hold
/// [`Inventory::Missing`].
pub fn decode_inventory(node: &Node) -> (r: Result<Vec<Inventory>, DecodeError>)
    ensures
        r is Ok <==> inventory_of(*node) is Ok,
        r matches Ok(v) ==> inventory_of(*node) == Ok::<Seq<Inventory>, DecodeError>(v@),
        r matches Err(e) ==> inventory_of(*node) == Err::<Seq<Inventory>, DecodeError>(e),
{
    let entries = match node {
        Node::Table(t) => t,
        _ => {
            return Err(DecodeError::InvalidType("Inventory"));
        },
    };
    let mut v: Vec<Inventory> = Vec::new();
    let mut n: usize = 0;
    while n < entries.len()
        invariant
            0 <= n <= entries.len(),
            *node == Node::Table(*entries),
            slots_of(entries@, n as int) == Ok::<Seq<Inventory>, DecodeError>(v@),
        decreases entries.len() - n,
    {
        let ghost v_start = v@;
        let key = &entries[n].0;
        let slot = match parse_unsigned(key.as_str(), (usize::MAX - 1) as u64) {
            Some(k) => k as usize,
            None => {
                let e = DecodeError::MalformedKey(key.clone());
                proof {
                    lemma_slots_error_persists(entries@, n + 1, entries.len() as int);
                }
                return Err(e);
            },
        };
        let x = match decode_record(&entries[n].1) {
            Ok(x) => x,
            Err(e) => {
                proof {
                    lemma_slots_error_persists(entries@, n + 1, entries.len() as int);
                }
                return Err(e);
            },
        };
        let ghost v0 = v@;
        while v.len() <= slot
            invariant
                v0.len() <= v.len(),
                v.len() > v0.len() ==> v.len() <= slot + 1,
                slot < usize::MAX,
                v@ == v0 + Seq::new((v.len() - v0.len()) as nat, |_k: int| Inventory::Missing),
            decreases slot + 1 - v.len(),
        {
            v.push(Inventory::Missing);
            assert(v@ == v0 + Seq::new((v.len() - v0.len()) as nat, |_k: int| Inventory::Missing));
        }
        proof {
            if slot < v0.len() {
                assert(v@ == v0);
            } else {
                assert(v.len() == slot + 1);
            }
        }
        v.set(slot, x);
        assert(v@ == place(v_start, slot as int, x));
        n = n + 1;
    }
    assert(entries@.len() == n);
    Ok(v)
}

/// Decodes a save from its document tree.
pub fn decode_save(doc: &Node) -> (r: Result<Save, DecodeError>)
    ensures
        r is Ok <==> save_of(*doc) is Ok,
        r matches Ok(s) ==> save_of(*doc) == Ok::<Seq<Inventory>, DecodeError>(s.inventory@),
        r matches Err(e) ==> save_of(*doc) == Err::<Seq<Inventory>, DecodeError>(e),
{
    match doc {
        Node::Table(t) => match find_field(t, "Inventory") {
            None => Err(DecodeError::MissingField("Inventory")),
            Some(k) => match decode_inventory(&t[k].1) {
                Ok(inventory) => Ok(Save { inventory }),
                Err(e) => Err(e),
            },
        },
        _ => Err(DecodeError::InvalidType("Inventory")),
    }
}

} // verus!
