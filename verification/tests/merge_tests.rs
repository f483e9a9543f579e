use mamalluca::value::check_wf;
use mamalluca::value::clone_value;
use mamalluca::value::merge_value;
use mamalluca::value::JsonValue;

fn num(text: &str) -> JsonValue {
    JsonValue::Num(text.to_string())
}

fn txt(text: &str) -> JsonValue {
    JsonValue::Str(text.to_string())
}

fn obj(pairs: Vec<(&str, JsonValue)>) -> JsonValue {
    JsonValue::Obj(pairs.into_iter().map(|(k, v)| (k.to_string(), v)).collect())
}

#[test]
fn merge_sets_and_overwrites_fields() {
    let target = obj(vec![("temperature", num("60.0")), ("power", num("0.5"))]);
    let patch = obj(vec![("temperature", num("61.2")), ("target", num("65.0"))]);
    let merged = merge_value(target, &patch);
    assert_eq!(
        merged,
        obj(vec![("temperature", num("61.2")), ("power", num("0.5")), ("target", num("65.0"))])
    );
}

#[test]
fn merge_null_deletes_field() {
    let target = obj(vec![("a", num("1")), ("b", num("2"))]);
    let patch = obj(vec![("a", JsonValue::Null)]);
    let merged = merge_value(target, &patch);
    assert_eq!(merged, obj(vec![("b", num("2"))]));
    // Deleting an absent field is harmless.
    let merged = merge_value(merged, &patch);
    assert_eq!(merged, obj(vec![("b", num("2"))]));
}

#[test]
fn merge_recurses_into_nested_objects() {
    let target = obj(vec![(
        "info",
        obj(vec![("current_layer", num("3")), ("total_layer", num("10"))]),
    )]);
    let patch = obj(vec![("info", obj(vec![("current_layer", num("4"))]))]);
    let merged = merge_value(target, &patch);
    assert_eq!(
        merged,
        obj(vec![("info", obj(vec![("current_layer", num("4")), ("total_layer", num("10"))]))])
    );
}

#[test]
fn merge_replaces_arrays_wholesale() {
    let target = obj(vec![("axes", JsonValue::Arr(vec![txt("x"), txt("y"), txt("z")]))]);
    let patch = obj(vec![("axes", JsonValue::Arr(vec![txt("z")]))]);
    let merged = merge_value(target, &patch);
    assert_eq!(merged, obj(vec![("axes", JsonValue::Arr(vec![txt("z")]))]));
}

#[test]
fn merge_non_object_patch_replaces_wholesale() {
    let target = obj(vec![("a", num("1"))]);
    let merged = merge_value(target, &num("7"));
    assert_eq!(merged, num("7"));
    let merged = merge_value(merged, &JsonValue::Null);
    assert_eq!(merged, JsonValue::Null);
}

#[test]
fn merge_into_non_object_starts_fresh() {
    let patch = obj(vec![("a", num("1")), ("b", JsonValue::Null)]);
    let merged = merge_value(num("3"), &patch);
    assert_eq!(merged, obj(vec![("a", num("1"))]));
}

#[test]
fn merge_idempotent() {
    // Merging the same patch twice yields the same value as merging it once.
    let target = obj(vec![
        ("temperature", num("60.0")),
        ("info", obj(vec![("layer", num("3")), ("gone", txt("x"))])),
        ("axes", JsonValue::Arr(vec![txt("x")])),
    ]);
    let patch = obj(vec![
        ("temperature", num("61.0")),
        ("info", obj(vec![("layer", num("4")), ("gone", JsonValue::Null)])),
        ("fresh", txt("new")),
    ]);
    let once = merge_value(target, &patch);
    let twice = merge_value(clone_value(&once), &patch);
    assert_eq!(twice, once);
}

#[test]
fn merge_last_writer_wins_per_field() {
    // Conflicting patches: whichever is applied last sets the field, and
    // either order is well-defined.
    let p1 = obj(vec![("x", num("1")), ("y", num("10"))]);
    let p2 = obj(vec![("x", num("2")), ("z", num("30"))]);
    let empty = obj(vec![]);

    let first_then_second = merge_value(merge_value(clone_value(&empty), &p1), &p2);
    assert_eq!(
        first_then_second,
        obj(vec![("x", num("2")), ("y", num("10")), ("z", num("30"))])
    );

    let second_then_first = merge_value(merge_value(empty, &p2), &p1);
    assert_eq!(
        second_then_first,
        obj(vec![("x", num("1")), ("z", num("30")), ("y", num("10"))])
    );

    assert_ne!(first_then_second, second_then_first);
}

#[test]
fn clone_value_is_deep() {
    let v = obj(vec![
        ("a", JsonValue::Arr(vec![num("1"), obj(vec![("b", JsonValue::Bool(true))])])),
        ("s", txt("text")),
    ]);
    assert_eq!(clone_value(&v), v);
}

#[test]
fn check_wf_accepts_unique_keys_and_rejects_duplicates() {
    let good = obj(vec![("a", num("1")), ("b", obj(vec![("c", num("2"))]))]);
    assert!(check_wf(&good));
    let dup = obj(vec![("a", num("1")), ("a", num("2"))]);
    assert!(!check_wf(&dup));
    let nested_dup = obj(vec![("outer", obj(vec![("k", num("1")), ("k", num("2"))]))]);
    assert!(!check_wf(&nested_dup));
    let dup_in_array = JsonValue::Arr(vec![obj(vec![("k", num("1")), ("k", num("2"))])]);
    assert!(!check_wf(&dup_in_array));
}
