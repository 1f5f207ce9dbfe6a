use tfplanshow::{changed_top_level_keys, JsonValue};

fn st(x: &str) -> JsonValue {
    JsonValue::Str(x.to_string())
}

fn num(x: &str) -> JsonValue {
    JsonValue::Number(x.to_string())
}

/// An object; the members must be given in key order, as a JSON map keeps them.
fn obj(members: Vec<(&str, JsonValue)>) -> JsonValue {
    JsonValue::Object(members.into_iter().map(|(k, v)| (k.to_string(), v)).collect())
}

#[test]
fn changed_top_level_keys_finds_only_the_differing_keys() {
    let before = obj(vec![
        ("ami", st("ami-1")),
        ("instance_type", st("t3.micro")),
        ("tags", obj(vec![("Name", st("web"))])),
    ]);
    let after = obj(vec![
        ("ami", st("ami-1")),
        ("instance_type", st("t3.large")),
        ("tags", obj(vec![("Name", st("web"))])),
    ]);
    assert_eq!(
        changed_top_level_keys(&before, &after),
        vec!["instance_type".to_string()]
    );
}

#[test]
fn changed_top_level_keys_catches_added_and_removed_keys_too() {
    let before = obj(vec![("a", num("1")), ("b", num("2"))]);
    let after = obj(vec![("a", num("1")), ("c", num("3"))]);
    let mut changed = changed_top_level_keys(&before, &after);
    changed.sort();
    assert_eq!(changed, vec!["b".to_string(), "c".to_string()]);
}

#[test]
fn changed_top_level_keys_is_empty_for_identical_objects() {
    let before = obj(vec![("a", num("1"))]);
    let after = obj(vec![("a", num("1"))]);
    assert!(changed_top_level_keys(&before, &after).is_empty());
}

#[test]
fn changed_keys_notice_nested_changes_and_are_sorted() {
    let before = obj(vec![
        ("list", JsonValue::Array(vec![num("1"), num("2")])),
        ("tags", obj(vec![("Name", st("web")), ("Team", st("a"))])),
        ("zone", st("z1")),
    ]);
    let after = obj(vec![
        ("list", JsonValue::Array(vec![num("1"), num("2"), num("3")])),
        ("tags", obj(vec![("Name", st("web")), ("Team", st("b"))])),
        ("zone", st("z1")),
    ]);
    assert_eq!(
        changed_top_level_keys(&before, &after),
        vec!["list".to_string(), "tags".to_string()]
    );
    assert_eq!(
        changed_top_level_keys(&after, &before),
        vec!["list".to_string(), "tags".to_string()]
    );
}

#[test]
fn changed_keys_treat_missing_as_null_and_kinds_as_different() {
    let before = obj(vec![("a", JsonValue::Null), ("b", num("1")), ("c", JsonValue::Bool(true))]);
    let after = obj(vec![("b", st("1")), ("c", JsonValue::Bool(true)), ("d", JsonValue::Null)]);
    assert_eq!(changed_top_level_keys(&before, &after), vec!["b".to_string()]);
    assert_eq!(changed_top_level_keys(&before, &before), Vec::<String>::new());
}

#[test]
fn changed_keys_of_non_objects() {
    let after = obj(vec![("x", num("1")), ("y", num("2"))]);
    assert_eq!(
        changed_top_level_keys(&JsonValue::Null, &after),
        vec!["x".to_string(), "y".to_string()]
    );
    assert!(changed_top_level_keys(&num("1"), &num("2")).is_empty());
    assert!(changed_top_level_keys(&JsonValue::Array(vec![]), &JsonValue::Null).is_empty());
}
