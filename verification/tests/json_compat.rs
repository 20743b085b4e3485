use baijimu_digital_employee_connector::json_compat::{strip_utf8_bom, strip_utf8_bom_str};
use serde_json::Value;

fn ok_true() -> Value {
    let mut members = serde_json::Map::new();
    members.insert("ok".to_string(), Value::Bool(true));
    Value::Object(members)
}

#[test]
fn parses_json_with_or_without_a_single_utf8_bom() {
    let plain: Value = serde_json::from_slice(strip_utf8_bom(br#"{"ok":true}"#)).unwrap();
    let with_bom: Value =
        serde_json::from_slice(strip_utf8_bom(b"\xef\xbb\xbf{\"ok\":true}")).unwrap();
    let string_with_bom: Value =
        serde_json::from_str(strip_utf8_bom_str("\u{feff}{\"ok\":true}")).unwrap();

    assert_eq!(plain, ok_true());
    assert_eq!(with_bom, plain);
    assert_eq!(string_with_bom, plain);
}

#[test]
fn keeps_invalid_json_invalid_after_bom_normalization() {
    assert!(serde_json::from_slice::<Value>(strip_utf8_bom(b"\xef\xbb\xbf{invalid")).is_err());
    assert!(serde_json::from_str::<Value>(strip_utf8_bom_str("\u{feff}{invalid")).is_err());
}

#[test]
fn only_one_byte_order_mark_is_removed() {
    assert_eq!(
        strip_utf8_bom(b"\xef\xbb\xbf\xef\xbb\xbfx"),
        b"\xef\xbb\xbfx".as_slice()
    );
    assert_eq!(strip_utf8_bom_str("\u{feff}\u{feff}x"), "\u{feff}x");
    assert_eq!(strip_utf8_bom(b"\xef\xbb"), b"\xef\xbb".as_slice());
    assert_eq!(strip_utf8_bom(b""), b"".as_slice());
    assert_eq!(strip_utf8_bom_str(""), "");
    assert_eq!(strip_utf8_bom_str("x\u{feff}"), "x\u{feff}");
}
