use offset_codegen::{Offset, OffsetMap};

fn offset(name: &str, value: usize) -> Offset {
    Offset::new(name.to_string(), value).unwrap()
}

#[test]
fn a_new_map_is_empty() {
    let map = OffsetMap::new();
    assert!(map.is_empty());
    assert_eq!(map.len(), 0);
    assert!(map.modules().is_empty());
    assert!(map.get("client.dll").is_none());
}

#[test]
fn offsets_need_a_name_that_fits_an_identifier() {
    assert!(Offset::new("dwViewMatrix".to_string(), 1).is_some());
    assert!(Offset::new("_x9".to_string(), 1).is_some());
    assert!(Offset::new("9".to_string(), 1).is_some());
    assert!(Offset::new(String::new(), 1).is_none());
    assert!(Offset::new("a b".to_string(), 1).is_none());
    assert!(Offset::new("a;".to_string(), 1).is_none());
    assert!(Offset::new("caf\u{e9}".to_string(), 1).is_none());
    assert!(Offset::new("x\n".to_string(), 1).is_none());
}

#[test]
fn an_offset_keeps_name_and_value() {
    let o = offset("dwViewMatrix", 0x1A2B3C);
    assert_eq!(o.name, "dwViewMatrix");
    assert_eq!(o.value, 0x1A2B3C);
}

#[test]
fn modules_keep_insertion_order() {
    let mut map = OffsetMap::new();
    assert!(!map.insert("engine2.dll".to_string(), vec![offset("b", 2)]));
    assert!(!map.insert("client.dll".to_string(), vec![offset("a", 1)]));
    assert!(!map.insert("tier0.dll".to_string(), vec![]));
    assert_eq!(map.len(), 3);
    assert!(!map.is_empty());
    let names: Vec<&str> = map.modules().iter().map(|m| m.name.as_str()).collect();
    assert_eq!(names, vec!["engine2.dll", "client.dll", "tier0.dll"]);
}

#[test]
fn offsets_keep_insertion_order() {
    let mut map = OffsetMap::new();
    map.insert("client.dll".to_string(), vec![offset("z", 1), offset("a", 2), offset("m", 3)]);
    let offsets = map.get("client.dll").unwrap();
    let names: Vec<&str> = offsets.iter().map(|o| o.name.as_str()).collect();
    assert_eq!(names, vec!["z", "a", "m"]);
    let values: Vec<usize> = offsets.iter().map(|o| o.value).collect();
    assert_eq!(values, vec![1, 2, 3]);
}

#[test]
fn inserting_a_known_module_replaces_its_offsets_in_place() {
    let mut map = OffsetMap::new();
    map.insert("a.dll".to_string(), vec![offset("one", 1)]);
    map.insert("b.dll".to_string(), vec![offset("two", 2)]);
    map.insert("c.dll".to_string(), vec![offset("three", 3)]);
    assert!(map.insert("b.dll".to_string(), vec![offset("four", 4), offset("five", 5)]));
    assert_eq!(map.len(), 3);
    let names: Vec<&str> = map.modules().iter().map(|m| m.name.as_str()).collect();
    assert_eq!(names, vec!["a.dll", "b.dll", "c.dll"]);
    let offsets = map.get("b.dll").unwrap();
    assert_eq!(offsets.len(), 2);
    assert_eq!(offsets[0].name, "four");
    assert_eq!(offsets[1].value, 5);
    assert_eq!(map.get("a.dll").unwrap()[0].name, "one");
    assert_eq!(map.get("c.dll").unwrap()[0].name, "three");
}

#[test]
fn get_tells_modules_apart_by_their_whole_name() {
    let mut map = OffsetMap::new();
    map.insert("client.dll".to_string(), vec![offset("a", 1)]);
    assert!(map.get("client.dll").is_some());
    assert!(map.get("client").is_none());
    assert!(map.get("client.dll ").is_none());
    assert!(map.get("Client.dll").is_none());
    assert!(map.get("").is_none());
}

#[test]
fn a_registry_node_with_null_pointers_is_not_followed() {
    let node = offset_codegen::InterfaceReg { create_fn: 0x1000, name: 0, next: 0 };
    assert_eq!(node.name_address(), None);
    assert_eq!(node.next_address(), None);
}

#[test]
fn a_registry_node_hands_out_its_addresses() {
    let node = offset_codegen::InterfaceReg { create_fn: 0x1000, name: 0x2000, next: 0x3000 };
    assert_eq!(node.name_address(), Some(0x2000));
    assert_eq!(node.next_address(), Some(0x3000));
    assert_eq!(offset_codegen::interface::INTERFACE_REG_SIZE, 24);
}
