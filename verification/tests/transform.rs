use event_registry::transform_name;

#[test]
fn test_transform_name() {
    assert_eq!(transform_name("One"), "one".to_string());
    assert_eq!(transform_name("SomeEvent"), "some_event".to_string());
    assert_eq!(
        transform_name("UnassignedMsgType"),
        "unassigned_msg_type".to_string()
    );
}

#[test]
fn transform_is_deterministic() {
    let a = transform_name("UnassignedMsgType");
    let b = transform_name("UnassignedMsgType");
    assert_eq!(a, b);
    let c = transform_name("ABCFoo");
    let d = transform_name("ABCFoo");
    assert_eq!(c, d);
}

#[test]
fn transform_first_character_rule() {
    assert_eq!(transform_name("One"), "one");
    assert_eq!(transform_name("A"), "a");
    assert_eq!(transform_name("x"), "x");
}

#[test]
fn transform_word_boundary_rule() {
    assert_eq!(transform_name("SomeEvent"), "some_event");
}

#[test]
fn transform_multi_boundary_rule() {
    assert_eq!(transform_name("UnassignedMsgType"), "unassigned_msg_type");
}

#[test]
fn transform_does_not_coalesce_uppercase_runs() {
    assert_eq!(transform_name("ABCFoo"), "a_b_c_foo");
    assert_eq!(transform_name("AB"), "a_b");
}

#[test]
fn transform_passes_other_characters_through() {
    assert_eq!(transform_name("already_snake"), "already_snake");
    assert_eq!(transform_name("Abc1Def"), "abc1_def");
    assert_eq!(transform_name("A_b"), "a_b");
}

#[test]
fn transform_handles_unicode_letters() {
    assert_eq!(transform_name("ÜberEvent"), "über_event");
    // 'İ' lowercases to two characters: 'i' and a combining dot above.
    assert_eq!(transform_name("İstanbul"), "i\u{307}stanbul");
}
