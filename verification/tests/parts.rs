use flake_parts_builder::parts::normalize_flake_string;

#[test]
fn test_normalize_flake_string_with_hash_in_target() {
    let result = normalize_flake_string("github:user/repo#output", "unused", None);
    assert_eq!(result, "github:user/repo#output");
}

#[test]
fn test_normalize_flake_string_with_hash_in_flake() {
    let result = normalize_flake_string("output", "github:user/repo#derivation", None);
    assert_eq!(result, "github:user/repo#derivation/output");
}

#[test]
fn test_normalize_flake_string_with_derivation() {
    let result = normalize_flake_string("target", "github:user/repo", Some("derivation"));
    assert_eq!(result, "github:user/repo#derivation/target");
}

#[test]
fn test_normalize_flake_string_without_derivation() {
    let result = normalize_flake_string("target", "github:user/repo", None);
    assert_eq!(result, "github:user/repo#default/target");
}

#[test]
fn test_normalize_flake_string_with_empty_target() {
    let result = normalize_flake_string("", "github:user/repo", Some("derivation"));
    assert_eq!(result, "github:user/repo#derivation/");
}

#[test]
fn test_normalize_flake_string_with_empty_target_and_no_derivation() {
    let result = normalize_flake_string("", "github:user/repo", None);
    assert_eq!(result, "github:user/repo#default/");
}

#[test]
fn test_normalize_flake_string_with_complex_target() {
    let result = normalize_flake_string("path/to/target", "github:user/repo", Some("derivation"));
    assert_eq!(result, "github:user/repo#derivation/path/to/target");
}

#[test]
fn test_normalize_flake_string_with_hash_in_flake_and_derivation() {
    let result = normalize_flake_string("output", "github:user/repo#derivation", Some("unused"));
    assert_eq!(result, "github:user/repo#derivation/output");
}

#[test]
fn test_normalize_flake_string_with_local_path() {
    let result = normalize_flake_string("target", "./local/path", Some("derivation"));
    assert_eq!(result, "./local/path#derivation/target");
}

#[test]
fn test_normalize_flake_string_with_hash_in_flake_and_target() {
    let result = normalize_flake_string("output#extra", "github:user/repo#branch", None);
    assert_eq!(result, "output#extra");
}

#[test]
fn test_normalize_flake_string_idempotent() {
    let once = normalize_flake_string("target", "github:user/repo", Some("derivation"));
    let twice = normalize_flake_string(&once, "github:user/repo", Some("derivation"));
    assert_eq!(twice, once);

    let once = normalize_flake_string("target", "github:user/repo", None);
    let twice = normalize_flake_string(&once, "github:user/repo", None);
    assert_eq!(twice, once);

    let once = normalize_flake_string("x", "base#scope", None);
    let twice = normalize_flake_string(&once, "base#scope", None);
    assert_eq!(twice, once);
}
