use save_decrypt::save::{
    decode_bool, decode_inventory, decode_option_u32, decode_record, decode_save, decode_text,
    decode_u32,
};
use save_decrypt::{
    ArtifactInventory, DecodeError, Inventory, MaterialInventory, Node, SpellgemInventory,
};

fn text(s: &str) -> Node {
    Node::Str(s.to_string())
}

fn entries(items: Vec<(&str, Node)>) -> Vec<(String, Node)> {
    items.into_iter().map(|(k, v)| (k.to_string(), v)).collect()
}

fn table(items: Vec<(&str, Node)>) -> Node {
    Node::Table(entries(items))
}

fn material(quantity: &str, id: &str, looked: &str) -> Node {
    table(vec![
        ("Type", text("obj_material")),
        ("MaterialQuantity", text(quantity)),
        ("MaterialID", text(id)),
        ("Looked", text(looked)),
    ])
}

fn artifact_fields() -> Vec<(&'static str, Node)> {
    vec![
        ("Type", text("obj_artifact")),
        ("NetherPtr", text("-1")),
        ("ArtifactAwakened", text("no")),
        ("ArtifactSpell", text("fire")),
        ("ArtifactTrait", text("bold")),
        ("ArtifactStatSlot1", text("3")),
        ("ArtifactStatSlot2", text("-1")),
        ("ArtifactStatSlot3", text("0")),
        ("ArtifactStatSlot4", text("-2")),
        ("ArtifactTrickSlot1", text("-1")),
        ("ArtifactTrickSlot2", text("9")),
        ("ArtifactTier", text("2")),
        ("ArtifactGUID", text("77")),
        ("ArtifactLocked", text("0")),
        ("ArtifactNickname", text("Blade")),
        ("ArtifactType", text("5")),
        ("Looked", text("1")),
    ]
}

#[test]
fn option_minus_one_is_absent() {
    let t = entries(vec![("F", text("-1"))]);
    assert_eq!(decode_option_u32(&t, "F"), Ok(None));
}

#[test]
fn option_other_values_are_present() {
    assert_eq!(decode_option_u32(&entries(vec![("F", text("0"))]), "F"), Ok(Some(0)));
    assert_eq!(decode_option_u32(&entries(vec![("F", text("17"))]), "F"), Ok(Some(17)));
    assert_eq!(decode_option_u32(&entries(vec![("F", text("-2"))]), "F"), Ok(Some(4294967294)));
    assert_eq!(
        decode_option_u32(&entries(vec![("F", text("4294967296"))]), "F"),
        Ok(Some(0))
    );
}

#[test]
fn option_errors() {
    assert_eq!(
        decode_option_u32(&entries(vec![("F", text("x"))]), "F"),
        Err(DecodeError::InvalidType("F"))
    );
    assert_eq!(
        decode_option_u32(&entries(vec![("G", text("1"))]), "F"),
        Err(DecodeError::MissingField("F"))
    );
}

#[test]
fn bool_values() {
    assert_eq!(decode_bool(&entries(vec![("B", text("0"))]), "B"), Ok(false));
    assert_eq!(decode_bool(&entries(vec![("B", text("1"))]), "B"), Ok(true));
    assert_eq!(
        decode_bool(&entries(vec![("B", text("2"))]), "B"),
        Err(DecodeError::InvalidValue("B", "2".to_string()))
    );
    assert_eq!(
        decode_bool(&entries(vec![("B", text("yes"))]), "B"),
        Err(DecodeError::InvalidType("B"))
    );
}

#[test]
fn bool_other_numerals_are_invalid_values() {
    for n in ["-1", "10", "+2", "-0001", "-0", "-00", "99999999999999999999999999"] {
        assert_eq!(
            decode_bool(&entries(vec![("B", text(n))]), "B"),
            Err(DecodeError::InvalidValue("B", n.to_string()))
        );
    }
    assert_eq!(decode_bool(&entries(vec![("B", text("+0"))]), "B"), Ok(false));
    assert_eq!(decode_bool(&entries(vec![("B", text("+1"))]), "B"), Ok(true));
    assert_eq!(decode_bool(&entries(vec![("B", text("001"))]), "B"), Ok(true));
    for t in ["", "-", "+", "1.0", " 1"] {
        assert_eq!(
            decode_bool(&entries(vec![("B", text(t))]), "B"),
            Err(DecodeError::InvalidType("B"))
        );
    }
}

#[test]
fn option_large_values_keep_low_bits() {
    assert_eq!(
        decode_option_u32(&entries(vec![("F", text("-9223372036854775808"))]), "F"),
        Ok(Some(0))
    );
    assert_eq!(
        decode_option_u32(&entries(vec![("F", text("4294967297"))]), "F"),
        Ok(Some(1))
    );
    assert_eq!(
        decode_option_u32(&entries(vec![("F", text("9223372036854775808"))]), "F"),
        Err(DecodeError::InvalidType("F"))
    );
}

#[test]
fn u32_field_values() {
    assert_eq!(decode_u32(&entries(vec![("N", text("123"))]), "N"), Ok(123));
    assert_eq!(
        decode_u32(&entries(vec![("N", text("-3"))]), "N"),
        Err(DecodeError::InvalidType("N"))
    );
    assert_eq!(
        decode_u32(&entries(vec![("N", Node::Other)]), "N"),
        Err(DecodeError::InvalidType("N"))
    );
}

#[test]
fn text_field_takes_first_match() {
    let t = entries(vec![("A", text("x")), ("A", text("y"))]);
    assert_eq!(decode_text(&t, "A"), Ok("x".to_string()));
    assert_eq!(
        decode_text(&entries(vec![("A", table(vec![]))]), "A"),
        Err(DecodeError::InvalidType("A"))
    );
}

#[test]
fn sparse_keys_fill_gaps_with_missing() {
    let inv = table(vec![("0", material("1", "2", "0")), ("3", material("4", "5", "1"))]);
    let v = decode_inventory(&inv).unwrap();
    assert_eq!(v.len(), 4);
    assert_eq!(
        v[0],
        Inventory::MaterialInventory(MaterialInventory {
            material_quantity: 1,
            material_id: 2,
            looked: false
        })
    );
    assert_eq!(v[1], Inventory::Missing);
    assert_eq!(v[2], Inventory::Missing);
    assert_eq!(
        v[3],
        Inventory::MaterialInventory(MaterialInventory {
            material_quantity: 4,
            material_id: 5,
            looked: true
        })
    );
}

#[test]
fn sparse_keys_out_of_order() {
    let inv = table(vec![("2", material("1", "1", "1")), ("0", material("9", "9", "0"))]);
    let v = decode_inventory(&inv).unwrap();
    assert_eq!(v.len(), 3);
    assert!(matches!(v[0], Inventory::MaterialInventory(ref m) if m.material_quantity == 9));
    assert_eq!(v[1], Inventory::Missing);
    assert!(matches!(v[2], Inventory::MaterialInventory(ref m) if m.material_quantity == 1));
}

#[test]
fn sparse_key_at_current_length() {
    let inv = table(vec![("0", material("1", "1", "1")), ("1", material("2", "2", "1"))]);
    let v = decode_inventory(&inv).unwrap();
    assert_eq!(v.len(), 2);
    assert!(matches!(v[1], Inventory::MaterialInventory(ref m) if m.material_quantity == 2));
}

#[test]
fn empty_inventory() {
    assert_eq!(decode_inventory(&table(vec![])), Ok(vec![]));
}

#[test]
fn malformed_key() {
    let inv = table(vec![("x", material("1", "1", "1"))]);
    assert_eq!(decode_inventory(&inv), Err(DecodeError::MalformedKey("x".to_string())));
    let inv = table(vec![("-1", material("1", "1", "1"))]);
    assert_eq!(decode_inventory(&inv), Err(DecodeError::MalformedKey("-1".to_string())));
}

#[test]
fn inventory_not_a_table() {
    assert_eq!(decode_inventory(&text("a")), Err(DecodeError::InvalidType("Inventory")));
}

#[test]
fn material_tag_decodes() {
    assert_eq!(
        decode_record(&material("12", "3", "1")),
        Ok(Inventory::MaterialInventory(MaterialInventory {
            material_quantity: 12,
            material_id: 3,
            looked: true
        }))
    );
}

#[test]
fn unknown_tag_fails() {
    let r = table(vec![("Type", text("obj_unknown"))]);
    assert_eq!(decode_record(&r), Err(DecodeError::UnknownTag("obj_unknown".to_string())));
}

#[test]
fn record_without_tag_fails() {
    let r = table(vec![("MaterialID", text("1"))]);
    assert_eq!(decode_record(&r), Err(DecodeError::MissingField("Type")));
    assert_eq!(decode_record(&text("x")), Err(DecodeError::InvalidType("Type")));
}

#[test]
fn empty_kinds_decode() {
    let r = table(vec![("Type", text("obj_spellgem")), ("Other", text("z"))]);
    assert_eq!(decode_record(&r), Ok(Inventory::SpellgemInventory(SpellgemInventory {})));
    for tag in ["obj_netherstone", "obj_dust", "obj_consumable"] {
        let r = table(vec![("Type", text(tag))]);
        assert!(decode_record(&r).is_ok());
    }
}

#[test]
fn artifact_decodes() {
    let r = decode_record(&table(artifact_fields())).unwrap();
    assert_eq!(
        r,
        Inventory::ArtifactInventory(ArtifactInventory {
            nether_ptr: None,
            artifact_awakened: "no".to_string(),
            artifact_spell: "fire".to_string(),
            artifact_trait: "bold".to_string(),
            artifact_stat_slot1: Some(3),
            artifact_stat_slot2: None,
            artifact_stat_slot3: Some(0),
            artifact_stat_slot4: Some(4294967294),
            artifact_trick_slot1: None,
            artifact_trick_slot2: Some(9),
            artifact_tier: 2,
            artifact_guid: 77,
            artifact_locked: false,
            artifact_nickname: "Blade".to_string(),
            artifact_type: 5,
            looked: true,
        })
    );
}

#[test]
fn artifact_bad_field() {
    let mut f = artifact_fields();
    f[13] = ("ArtifactLocked", text("3"));
    assert_eq!(
        decode_record(&table(f)),
        Err(DecodeError::InvalidValue("ArtifactLocked", "3".to_string()))
    );
    let mut f = artifact_fields();
    f.remove(15);
    assert_eq!(decode_record(&table(f)), Err(DecodeError::MissingField("ArtifactType")));
}

#[test]
fn material_error_in_record() {
    assert_eq!(
        decode_record(&material("1", "1", "2")),
        Err(DecodeError::InvalidValue("Looked", "2".to_string()))
    );
    assert_eq!(
        decode_record(&material("q", "1", "1")),
        Err(DecodeError::InvalidType("MaterialQuantity"))
    );
}

#[test]
fn save_needs_inventory() {
    let doc = table(vec![("Other", text("1"))]);
    assert!(matches!(decode_save(&doc), Err(DecodeError::MissingField("Inventory"))));
    let doc = table(vec![("Inventory", table(vec![("1", material("5", "6", "0"))]))]);
    let s = decode_save(&doc).unwrap();
    assert_eq!(s.inventory.len(), 2);
    assert_eq!(s.inventory[0], Inventory::Missing);
}
