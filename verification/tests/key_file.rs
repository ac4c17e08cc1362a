use brxon::build_filter::SignedFilter;
use brxon::key_file::{key_listing, key_rows, keys_json, keys_path};
use brxon::signing::public_key_of;
use brxon::text::replace;

#[test]
fn occurrences_are_replaced_from_the_left() {
    for (s, from, to) in [("aaaa", "aa", "b"), ("aaa", "aa", "b"), ("", "x", "y"), ("äxäx", "äx", "")] {
        assert_eq!(replace(s, from, to), s.replace(from, to));
    }
}

#[test]
fn the_note_lies_beside_the_filter() {
    assert_eq!(keys_path("initial_filter.bin"), "initial_filter_keys.json");
    assert_eq!(keys_path("a.bin/b.bin"), "a_keys.json/b_keys.json");
    assert_eq!(keys_path("out"), "out");
}

#[test]
fn keys_are_written_as_source() {
    let mut key = [0u8; 32];
    for i in 0..32 {
        key[i] = (i * 9) as u8;
    }
    let rows = key_rows(&key);
    assert_eq!(
        rows,
        "    0x00, 0x09, 0x12, 0x1B, 0x24, 0x2D, 0x36, 0x3F,\n    \
         0x48, 0x51, 0x5A, 0x63, 0x6C, 0x75, 0x7E, 0x87,\n    \
         0x90, 0x99, 0xA2, 0xAB, 0xB4, 0xBD, 0xC6, 0xCF,\n    \
         0xD8, 0xE1, 0xEA, 0xF3, 0xFC, 0x05, 0x0E, 0x17"
    );
    assert_eq!(key_listing(&key), rows.replace("    ", "  "));
}

#[test]
fn the_note_holds_keys_and_figures() {
    let secret = [3u8; 32];
    let public = public_key_of(&secret);
    let signed = SignedFilter {
        file: Vec::new(),
        sha256_hex: "aa".to_string(),
        signature_hex: "bb".to_string(),
    };
    let expected = format!(
        r#"{{
  "note":           "احتفظ بالمفتاح الخاص في مكان آمن — لا تشاركه",
  "version":        {},
  "public_key_hex": "{}",
  "private_key_hex":"{}",
  "sha256":         "{}",
  "signature":      "{}",
  "m_bytes":        {},
  "k":              {},
  "domains_added":  {},
  "fill_ratio_pct": {:.2},
  "rust_key_array": "[\n{}\n]"
}}"#,
        1, hex::encode(public), "03".repeat(32), "aa", "bb", 4_792_530, 13, 70, 0.125,
        key_rows(&public)
    );
    assert_eq!(keys_json(1, &secret, &signed, 70, &format!("{:.2}", 0.125)), expected);
}
