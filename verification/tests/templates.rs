use flake_parts_builder::parts::FlakePartMetadata;
use flake_parts_builder::parts::InputEntry;
use flake_parts_builder::templates::FlakeContext;
use flake_parts_builder::templates::FlakeInputsContext;
use serde_json::Value as JsonValue;

fn entry(key: &str, value: &str) -> InputEntry {
    InputEntry::new(key.to_string(), JsonValue::String(value.to_string()))
}

fn metadata_with(
    description: &str,
    inputs: Vec<InputEntry>,
    keys: Vec<String>,
    subs: Vec<String>,
) -> FlakePartMetadata {
    FlakePartMetadata {
        description: description.to_string(),
        inputs,
        dependencies: vec![],
        conflicts: vec![],
        extra_trusted_public_keys: keys,
        extra_substituters: subs,
    }
}

fn keys_of(context: &FlakeInputsContext) -> Vec<String> {
    context.inputs.iter().map(|e| e.key.clone()).collect()
}

fn value_of<'a>(context: &'a FlakeInputsContext, key: &str) -> Option<&'a JsonValue> {
    context.inputs.iter().find(|e| e.key == key).map(|e| &e.value)
}

#[test]
fn test_flake_inputs_context_new() {
    let inputs = vec![entry("input1", "value1"), entry("input2", "value2")];
    let context = FlakeInputsContext::new(inputs);
    assert_eq!(keys_of(&context), vec!["input1".to_string(), "input2".to_string()]);
    assert_eq!(
        value_of(&context, "input1"),
        Some(&JsonValue::String("value1".to_string()))
    );
    assert_eq!(
        value_of(&context, "input2"),
        Some(&JsonValue::String("value2".to_string()))
    );
}

#[test]
fn test_flake_inputs_context_from_merged_metadata() {
    let metadata1 = metadata_with("Metadata 1", vec![entry("input1", "value1")], vec![], vec![]);
    let metadata2 = metadata_with("Metadata 2", vec![entry("input2", "value2")], vec![], vec![]);
    let metadata = vec![metadata1, metadata2];

    let context = FlakeInputsContext::from_merged_metadata(&metadata);
    assert_eq!(keys_of(&context), vec!["input1".to_string(), "input2".to_string()]);
    assert_eq!(
        value_of(&context, "input1"),
        Some(&JsonValue::String("value1".to_string()))
    );
    assert_eq!(
        value_of(&context, "input2"),
        Some(&JsonValue::String("value2".to_string()))
    );
}

#[test]
fn test_flake_context_new() {
    let inputs_context = FlakeInputsContext::new(vec![]);
    let trusted_keys = vec!["key1".to_string(), "key2".to_string()];
    let substituters = vec!["sub1".to_string(), "sub2".to_string()];
    let context = FlakeContext::new(inputs_context, trusted_keys.clone(), substituters.clone());

    assert_eq!(context.extra_trusted_public_keys, trusted_keys);
    assert_eq!(context.extra_substituters, substituters);
}

#[test]
fn test_flake_context_from_merged_metadata() {
    let metadata1 = metadata_with(
        "Metadata 1",
        vec![entry("input1", "value1")],
        vec!["key1".to_string()],
        vec!["sub1".to_string()],
    );
    let metadata2 = metadata_with(
        "Metadata 2",
        vec![entry("input2", "value2")],
        vec!["key2".to_string()],
        vec!["sub2".to_string()],
    );
    let metadata = vec![metadata1, metadata2];

    let context = FlakeContext::from_merged_metadata(&metadata);
    assert_eq!(
        keys_of(&context.flake_inputs_context),
        vec!["input1".to_string(), "input2".to_string()]
    );
    assert_eq!(
        value_of(&context.flake_inputs_context, "input1"),
        Some(&JsonValue::String("value1".to_string()))
    );
    assert_eq!(
        value_of(&context.flake_inputs_context, "input2"),
        Some(&JsonValue::String("value2".to_string()))
    );
    assert_eq!(
        context.extra_trusted_public_keys,
        vec!["key1".to_string(), "key2".to_string()]
    );
    assert_eq!(
        context.extra_substituters,
        vec!["sub1".to_string(), "sub2".to_string()]
    );
}

#[test]
fn test_merge_same_list_twice_is_identical() {
    let make = || {
        vec![
            metadata_with(
                "m1",
                vec![entry("shared", "first"), entry("only1", "a")],
                vec!["key1".to_string()],
                vec!["sub1".to_string()],
            ),
            metadata_with(
                "m2",
                vec![entry("shared", "second")],
                vec!["key1".to_string()],
                vec![],
            ),
        ]
    };
    let c1 = FlakeContext::from_merged_metadata(&make());
    let c2 = FlakeContext::from_merged_metadata(&make());
    assert_eq!(keys_of(&c1.flake_inputs_context), keys_of(&c2.flake_inputs_context));
    for key in keys_of(&c1.flake_inputs_context) {
        assert_eq!(
            value_of(&c1.flake_inputs_context, &key),
            value_of(&c2.flake_inputs_context, &key)
        );
    }
    assert_eq!(c1.extra_trusted_public_keys, c2.extra_trusted_public_keys);
    assert_eq!(c1.extra_substituters, c2.extra_substituters);
    // Duplicates are preserved, not deduplicated.
    assert_eq!(c1.extra_trusted_public_keys, vec!["key1".to_string(), "key1".to_string()]);
}

#[test]
fn test_merge_order_decides_winner() {
    let m1 = metadata_with("m1", vec![entry("shared", "first")], vec![], vec![]);
    let m2 = metadata_with("m2", vec![entry("shared", "second")], vec![], vec![]);

    let forward = FlakeInputsContext::from_merged_metadata(&vec![m1, m2]);
    assert_eq!(
        value_of(&forward, "shared"),
        Some(&JsonValue::String("second".to_string()))
    );

    let m1 = metadata_with("m1", vec![entry("shared", "first")], vec![], vec![]);
    let m2 = metadata_with("m2", vec![entry("shared", "second")], vec![], vec![]);
    let backward = FlakeInputsContext::from_merged_metadata(&vec![m2, m1]);
    assert_eq!(
        value_of(&backward, "shared"),
        Some(&JsonValue::String("first".to_string()))
    );
}

#[test]
fn test_merge_overwrites_in_place() {
    let m1 = metadata_with(
        "m1",
        vec![entry("a", "1"), entry("b", "2")],
        vec![],
        vec![],
    );
    let m2 = metadata_with("m2", vec![entry("a", "3"), entry("c", "4")], vec![], vec![]);
    let merged = FlakeInputsContext::from_merged_metadata(&vec![m1, m2]);
    // The overwritten key keeps its original position; the new key is
    // appended.
    assert_eq!(
        keys_of(&merged),
        vec!["a".to_string(), "b".to_string(), "c".to_string()]
    );
    assert_eq!(value_of(&merged, "a"), Some(&JsonValue::String("3".to_string())));
}

#[test]
fn test_merge_empty_list_yields_empty_context() {
    let context = FlakeContext::from_merged_metadata(&vec![]);
    assert!(context.flake_inputs_context.inputs.is_empty());
    assert!(context.extra_trusted_public_keys.is_empty());
    assert!(context.extra_substituters.is_empty());
}
