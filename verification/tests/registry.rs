use event_registry::EventRegistry;

fn catalog(spellings: &[&str]) -> Vec<String> {
    spellings.iter().map(|s| s.to_string()).collect()
}

#[test]
fn round_trip_by_id_and_name() {
    let reg = EventRegistry::build(catalog(&["A", "B", "C"])).unwrap();
    assert_eq!(reg.len(), 3);
    for i in 0..3 {
        let sym = reg.lookup_by_id(i).unwrap();
        assert_eq!(reg.as_id(sym), i);
        let name = reg.canonical_name(sym).clone();
        assert_eq!(reg.lookup_by_name(&name), Some(sym));
    }
    assert_eq!(reg.canonical_name(reg.lookup_by_id(0).unwrap()).as_str(), "a");
    assert_eq!(reg.canonical_name(reg.lookup_by_id(1).unwrap()).as_str(), "b");
    assert_eq!(reg.canonical_name(reg.lookup_by_id(2).unwrap()).as_str(), "c");
}

#[test]
fn ids_are_contiguous_from_zero() {
    let reg = EventRegistry::build(catalog(&["One", "SomeEvent", "UnassignedMsgType", "Last"]))
        .unwrap();
    let n = reg.len() as i32;
    let mut ids: Vec<i32> = Vec::new();
    for i in 0..n {
        let sym = reg.lookup_by_id(i).unwrap();
        ids.push(reg.as_id(sym));
    }
    ids.sort();
    assert_eq!(ids, vec![0, 1, 2, 3]);
}

#[test]
fn unknown_id_and_name_are_not_found() {
    let reg = EventRegistry::build(catalog(&["One", "SomeEvent"])).unwrap();
    assert_eq!(reg.lookup_by_id(2), None);
    assert_eq!(reg.lookup_by_id(-1), None);
    assert_eq!(reg.lookup_by_name("not_a_real_event"), None);
    // Lookup is exact and case-sensitive: the spelling is not the name.
    assert_eq!(reg.lookup_by_name("SomeEvent"), None);
}

#[test]
fn cstring_is_name_with_exactly_one_trailing_nul() {
    let reg = EventRegistry::build(catalog(&["One", "SomeEvent", "UnassignedMsgType"])).unwrap();
    for i in 0..3 {
        let sym = reg.lookup_by_id(i).unwrap();
        let name = reg.canonical_name(sym).clone();
        let cstring = reg.canonical_string(sym).clone();
        assert_eq!(cstring, format!("{}\0", name));
        assert_eq!(cstring.chars().filter(|c| *c == '\0').count(), 1);
        assert_eq!(cstring.chars().last(), Some('\0'));
        assert!(!name.contains('\0'));
    }
}

#[test]
fn end_to_end_catalog_scenario() {
    let reg = EventRegistry::build(catalog(&["One", "SomeEvent", "UnassignedMsgType"])).unwrap();
    let one = reg.lookup_by_name("one").unwrap();
    let some_event = reg.lookup_by_name("some_event").unwrap();
    let unassigned = reg.lookup_by_name("unassigned_msg_type").unwrap();
    assert_eq!(reg.as_id(one), 0);
    assert_eq!(reg.as_id(some_event), 1);
    assert_eq!(reg.as_id(unassigned), 2);
    assert_eq!(reg.describe_event_by_name("some_event"), Some(1));
    assert_eq!(
        reg.describe_event_by_id(2).map(|s| s.clone()),
        Some("unassigned_msg_type\0".to_string())
    );
    assert_eq!(reg.describe_event_by_name("bogus"), None);
    assert_eq!(reg.describe_event_by_id(3), None);
}

#[test]
fn empty_catalog_is_refused() {
    assert!(EventRegistry::build(Vec::new()).is_none());
}

#[test]
fn empty_spelling_is_refused() {
    assert!(EventRegistry::build(catalog(&["One", ""])).is_none());
}

#[test]
fn duplicate_canonical_names_are_refused() {
    // Distinct spellings that collide after transformation: both become "a_b".
    assert!(EventRegistry::build(catalog(&["AB", "A_b"])).is_none());
    // Identical spellings collide trivially.
    assert!(EventRegistry::build(catalog(&["One", "One"])).is_none());
}

#[test]
fn embedded_nul_in_name_is_refused() {
    assert!(EventRegistry::build(catalog(&["A\u{0}B"])).is_none());
}
