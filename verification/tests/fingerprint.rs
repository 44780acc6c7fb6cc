use enum_ts::fingerprint::{message_bytes, push_hex};
use enum_ts::{fingerprint, parse, Parsed, TSEnum};

fn light() -> Parsed {
    Parsed {
        enums: vec![TSEnum {
            name: "Light".to_string(),
            generics: None,
            variants: vec![
                ("On".to_string(), "null".to_string()),
                ("Off".to_string(), "0".to_string()),
            ],
            export: false,
        }],
        indent: "  ".to_string(),
    }
}

fn hex_of(n: u64) -> String {
    let mut out = String::new();
    push_hex(&mut out, n);
    out
}

#[test]
fn message_holds_every_field_and_both_versions() {
    let expected: Vec<u8> = vec![
        1, 76, 105, 103, 104, 116, 255, 0, 0, 1, 79, 110, 255, 110, 117, 108, 108, 255, 1, 79,
        102, 102, 255, 48, 255, 0, 0, 32, 32, 255, 2, 0, 0, 0, 0, 0, 0, 0, 6, 0, 0, 0, 0, 0, 0, 0,
    ];
    assert_eq!(message_bytes(&light()), expected);
}

#[test]
fn message_of_an_empty_file() {
    let parsed = Parsed {
        enums: Vec::new(),
        indent: String::new(),
    };
    assert_eq!(
        message_bytes(&parsed),
        vec![0, 255, 2, 0, 0, 0, 0, 0, 0, 0, 6, 0, 0, 0, 0, 0, 0, 0]
    );
}

#[test]
fn message_marks_generics_and_export() {
    let parsed = Parsed {
        enums: vec![TSEnum {
            name: "R".to_string(),
            generics: Some("é".to_string()),
            variants: Vec::new(),
            export: true,
        }],
        indent: "\t".to_string(),
    };
    assert_eq!(
        message_bytes(&parsed),
        vec![
            1, 82, 255, 1, 0xC3, 0xA9, 255, 1, 0, 0, 9, 255, 2, 0, 0, 0, 0, 0, 0, 0, 6, 0, 0, 0,
            0, 0, 0, 0
        ]
    );
}

#[test]
fn fingerprint_is_reproduced_for_the_same_input() {
    assert_eq!(fingerprint(&light()), fingerprint(&light()));
    let text = "\ntype T = Enum<{\n    A: X;\n}>;\n";
    assert_eq!(
        fingerprint(&parse(text).unwrap()),
        fingerprint(&parse(text).unwrap())
    );
}

#[test]
fn fingerprint_changes_with_a_tag() {
    let mut changed = light();
    changed.enums[0].variants[0].0 = "Om".to_string();
    assert_ne!(message_bytes(&changed), message_bytes(&light()));
    assert_ne!(fingerprint(&changed), fingerprint(&light()));
}

#[test]
fn fingerprint_changes_with_a_contents_expression() {
    let mut changed = light();
    changed.enums[0].variants[1].1 = "1".to_string();
    assert_ne!(message_bytes(&changed), message_bytes(&light()));
    assert_ne!(fingerprint(&changed), fingerprint(&light()));
}

#[test]
fn fingerprint_changes_with_the_generic_list() {
    let mut changed = light();
    changed.enums[0].generics = Some("T".to_string());
    assert_ne!(fingerprint(&changed), fingerprint(&light()));
    let mut empty = light();
    empty.enums[0].generics = Some(String::new());
    assert_ne!(fingerprint(&empty), fingerprint(&light()));
    assert_ne!(fingerprint(&empty), fingerprint(&changed));
}

#[test]
fn fingerprint_tells_where_one_text_ends() {
    let mut left = light();
    left.enums[0].variants[0] = ("ab".to_string(), "c".to_string());
    let mut right = light();
    right.enums[0].variants[0] = ("a".to_string(), "bc".to_string());
    assert_ne!(message_bytes(&left), message_bytes(&right));
    assert_ne!(fingerprint(&left), fingerprint(&right));
}

#[test]
fn fingerprint_changes_with_name_export_and_indent() {
    let mut renamed = light();
    renamed.enums[0].name = "Lamp".to_string();
    assert_ne!(fingerprint(&renamed), fingerprint(&light()));
    let mut exported = light();
    exported.enums[0].export = true;
    assert_ne!(fingerprint(&exported), fingerprint(&light()));
    let mut indented = light();
    indented.indent = "    ".to_string();
    assert_ne!(fingerprint(&indented), fingerprint(&light()));
}

#[test]
fn hex_is_lower_case_without_leading_zeros() {
    assert_eq!(hex_of(0), "0");
    assert_eq!(hex_of(9), "9");
    assert_eq!(hex_of(10), "a");
    assert_eq!(hex_of(15), "f");
    assert_eq!(hex_of(16), "10");
    assert_eq!(hex_of(255), "ff");
    assert_eq!(hex_of(0xdead_beef), "deadbeef");
    assert_eq!(hex_of(u64::MAX), "ffffffffffffffff");
    assert_eq!(hex_of(0x0123_4567_89ab_cdef), "123456789abcdef");
}

#[test]
fn hex_appends_to_what_is_there() {
    let mut out = "<".to_string();
    push_hex(&mut out, 0x1f);
    assert_eq!(out, "<1f");
}
