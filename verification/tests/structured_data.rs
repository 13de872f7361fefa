use offset_codegen::json::{json_outcome, sorted_members, sorted_sections};
use offset_codegen::{EmitError, Module, Offset, OffsetMap};

fn offset(name: &str, value: usize) -> Offset {
    Offset::new(name.to_string(), value).unwrap()
}

fn number(value: &serde_json::Value, module: &str, name: &str) -> u64 {
    value.get(module).unwrap().get(name).unwrap().as_u64().unwrap()
}

#[test]
fn structured_data_for_one_offset() {
    let mut map = OffsetMap::new();
    map.insert("client.dll".to_string(), vec![offset("dwViewMatrix", 0x1A2B3C)]);
    let text = map.to_json(4).unwrap();
    assert_eq!(text, "{\n  \"client.dll\": {\n    \"dwViewMatrix\": 1715004\n  }\n}");
    let parsed: serde_json::Value = serde_json::from_str(&text).unwrap();
    let expected: serde_json::Value =
        serde_json::from_str("{\"client.dll\": {\"dwViewMatrix\": 1715004}}").unwrap();
    assert_eq!(parsed, expected);
}

#[test]
fn an_empty_map_is_an_empty_object() {
    assert_eq!(OffsetMap::new().to_json(4).unwrap(), "{}");
}

#[test]
fn a_module_without_offsets_is_an_empty_object() {
    let mut map = OffsetMap::new();
    map.insert("tier0.dll".to_string(), vec![]);
    assert_eq!(map.to_json(4).unwrap(), "{\n  \"tier0.dll\": {}\n}");
}

#[test]
fn the_indent_width_plays_no_part() {
    let mut map = OffsetMap::new();
    map.insert("client.dll".to_string(), vec![offset("a", 1)]);
    let text = map.to_json(0).unwrap();
    assert_eq!(map.to_json(8).unwrap(), text);
    assert_eq!(map.to_json(usize::MAX).unwrap(), text);
}

#[test]
fn members_stand_in_key_order() {
    let mut map = OffsetMap::new();
    map.insert("engine2.dll".to_string(), vec![offset("zeta", 3), offset("Alpha", 2), offset("beta", 1)]);
    map.insert("Zed.dll".to_string(), vec![offset("b", 1), offset("a", 2), offset("ab", 3)]);
    map.insert("client.dll".to_string(), vec![]);
    assert_eq!(
        map.to_json(4).unwrap(),
        "{\n  \"Zed.dll\": {\n    \"a\": 2,\n    \"ab\": 3,\n    \"b\": 1\n  },\n  \"client.dll\": {},\n  \"engine2.dll\": {\n    \"Alpha\": 2,\n    \"beta\": 1,\n    \"zeta\": 3\n  }\n}"
    );
}

#[test]
fn of_two_offsets_with_one_name_the_later_stays() {
    let mut map = OffsetMap::new();
    map.insert("client.dll".to_string(), vec![offset("a", 1), offset("b", 2), offset("a", 3)]);
    assert_eq!(map.to_json(4).unwrap(), "{\n  \"client.dll\": {\n    \"a\": 3,\n    \"b\": 2\n  }\n}");
}

#[test]
fn numbers_read_back_as_the_values() {
    let values: Vec<usize> = vec![0, 1, 9, 10, 1715004, u32::MAX as usize, usize::MAX];
    let mut offsets = Vec::new();
    for (i, v) in values.iter().enumerate() {
        offsets.push(offset(&format!("v{i}"), *v));
    }
    let mut map = OffsetMap::new();
    map.insert("client.dll".to_string(), offsets);
    let text = map.to_json(4).unwrap();
    let parsed: serde_json::Value = serde_json::from_str(&text).unwrap();
    for (i, v) in values.iter().enumerate() {
        assert_eq!(number(&parsed, "client.dll", &format!("v{i}")), *v as u64);
        assert!(text.contains(&format!("\"v{i}\": {v}")));
    }
}

#[test]
fn names_are_escaped_by_the_encoder() {
    let mut map = OffsetMap::new();
    map.insert("a\"b\\c\n.dll".to_string(), vec![offset("x", 1)]);
    let text = map.to_json(4).unwrap();
    let parsed: serde_json::Value = serde_json::from_str(&text).unwrap();
    assert_eq!(number(&parsed, "a\"b\\c\n.dll", "x"), 1);
}

#[test]
fn keys_compare_by_character_not_by_length() {
    let offsets = vec![
        offset("b", 1),
        offset("aa", 2),
        offset("a", 3),
        offset("B", 4),
        offset("_", 5),
        offset("a0", 6),
        offset("Z", 7),
    ];
    let members = sorted_members(&offsets);
    let keys: Vec<&str> = members.iter().map(|m| m.key).collect();
    assert_eq!(keys, vec!["B", "Z", "_", "a", "a0", "aa", "b"]);
    let values: Vec<usize> = members.iter().map(|m| m.value).collect();
    assert_eq!(values, vec![4, 7, 5, 3, 6, 2, 1]);
}

#[test]
fn key_order_agrees_with_the_standard_string_order() {
    let names = ["", "a", "A", "ab", "b", "\u{e9}", "z", "\u{4e2d}", "\u{10348}", "a\u{e9}", "~", " "];
    let modules: Vec<Module> =
        names.iter().map(|n| Module { name: n.to_string(), offsets: vec![] }).collect();
    let sections = sorted_sections(&modules);
    let keys: Vec<&str> = sections.iter().map(|s| s.key).collect();
    let mut expected: Vec<&str> = names.to_vec();
    expected.sort();
    assert_eq!(keys, expected);
}

#[test]
fn sections_of_one_name_keep_the_later_module() {
    let modules = vec![
        Module { name: "m".to_string(), offsets: vec![offset("a", 1)] },
        Module { name: "k".to_string(), offsets: vec![] },
        Module { name: "m".to_string(), offsets: vec![offset("b", 2), offset("a", 9)] },
    ];
    let sections = sorted_sections(&modules);
    assert_eq!(sections.len(), 2);
    assert_eq!(sections[0].key, "k");
    assert!(sections[0].members.is_empty());
    assert_eq!(sections[1].key, "m");
    let members: Vec<(&str, usize)> = sections[1].members.iter().map(|m| (m.key, m.value)).collect();
    assert_eq!(members, vec![("a", 9), ("b", 2)]);
}

#[test]
fn the_encoders_text_is_handed_on() {
    assert_eq!(json_outcome(Ok("{}".to_string())), Ok("{}".to_string()));
}

#[test]
fn an_encoder_failure_is_a_serialization_error() {
    let failure = serde_json::from_str::<serde_json::Value>("{").unwrap_err();
    assert_eq!(json_outcome(Err(failure)), Err(EmitError::Serialization));
}
