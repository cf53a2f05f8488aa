use save_decrypt::{decrypt, try_decrypt};

const KEY: &[u8] = b"QWERTY";

fn is_delimiter(c: char) -> bool {
    matches!(c, '[' | ']' | '=' | '"' | '\n' | '\r')
}

/// Shifts every token character up by the key byte for its position in the token.
fn obfuscate(plain: &str) -> String {
    let mut out = String::new();
    let mut pos: usize = 0;
    for c in plain.chars() {
        if is_delimiter(c) {
            out.push(c);
            pos = 0;
        } else {
            out.push(char::from_u32(c as u32 + KEY[pos % KEY.len()] as u32).unwrap());
            pos += 1;
        }
    }
    out
}

#[test]
fn delimiters_pass_through() {
    let input = "[]=\"\n\r[[]]==\"\"\r\n";
    assert_eq!(decrypt(input), input);
    assert_eq!(decrypt(""), "");
}

#[test]
fn token_round_trip() {
    let raw = obfuscate("name=\"value\"\n");
    assert_eq!(decrypt(&raw), "name=\"value\"\n");
}

#[test]
fn token_longer_than_key_cycles() {
    let raw = obfuscate("abcdefghijklmn=\n");
    assert_eq!(decrypt(&raw), "abcdefghijklmn=\n");
}

#[test]
fn known_cipher_values() {
    // Position 0 is shifted by 'Q' (81), position 1 by 'W' (87).
    let raw = format!("{}{}=", char::from_u32(81 + 65).unwrap(), char::from_u32(87 + 66).unwrap());
    assert_eq!(decrypt(&raw), "AB=");
}

#[test]
fn header_digit_gets_dot() {
    let raw = obfuscate("[Inventory5]\n");
    assert_eq!(decrypt(&raw), "[Inventory.5]\n");
}

#[test]
fn header_dot_once_per_section() {
    let raw = obfuscate("[v110]\n");
    assert_eq!(decrypt(&raw), "[v.110]\n");
}

#[test]
fn digits_outside_header_get_no_dot() {
    let raw = obfuscate("a=\"15\"\n");
    assert_eq!(decrypt(&raw), "a=\"15\"\n");
}

#[test]
fn header_context_cleared_by_token_without_digit() {
    let raw = obfuscate("[abc]5=\n");
    assert_eq!(decrypt(&raw), "[abc]5=\n");
}

#[test]
fn header_context_survives_empty_token() {
    let raw = obfuscate("[[7]\n");
    assert_eq!(decrypt(&raw), "[[.7]\n");
}

#[test]
fn recovered_quote_is_escaped() {
    // '"' (34) plus 'Q' (81) is 's'; 'x' (120) minus 'W' (87) is '!'.
    assert_eq!(decrypt("=sx\n"), "=\\\"!\n");
}

#[test]
fn nulls_are_dropped_without_shifting_key() {
    let clean = obfuscate("key=\"abcdef\"\n");
    let mut with_nulls = String::new();
    for c in clean.chars() {
        with_nulls.push('\0');
        with_nulls.push(c);
    }
    with_nulls.push('\0');
    assert_eq!(decrypt(&with_nulls), "key=\"abcdef\"\n");
    assert_eq!(decrypt(&with_nulls), decrypt(&clean));
}

#[test]
fn trailing_token_without_delimiter_is_dropped() {
    let raw = obfuscate("a=b");
    assert_eq!(decrypt(&raw), "a=");
}

#[test]
fn invalid_character_is_refused() {
    // 'A' (65) minus key byte 'Q' (81) is negative.
    assert_eq!(try_decrypt("A\n"), None);
    assert_eq!(try_decrypt("x=\"A\""), None);
}

#[test]
fn unflushed_invalid_token_is_harmless() {
    assert_eq!(try_decrypt("=A"), Some("=".to_string()));
}

#[test]
fn nulls_do_not_change_failure() {
    assert_eq!(try_decrypt("\0A\0\n"), try_decrypt("A\n"));
    assert_eq!(try_decrypt("\0\0"), Some(String::new()));
}

#[test]
fn crafted_document_text() {
    let raw = obfuscate(
        "[Inventory5]\nType=\"obj_material\"\nMaterialQuantity=\"3\"\nMaterialID=\"12\"\nLooked=\"1\"\n",
    );
    assert_eq!(
        decrypt(&raw),
        "[Inventory.5]\nType=\"obj_material\"\nMaterialQuantity=\"3\"\nMaterialID=\"12\"\nLooked=\"1\"\n"
    );
}
