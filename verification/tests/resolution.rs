use flake_parts_builder::cmd::SharedArgs;
use flake_parts_builder::cmd::init::InitCommand;
use flake_parts_builder::cmd::init::InitStrategy;
use flake_parts_builder::cmd::init::PartsTuplesParsingError;
use flake_parts_builder::cmd::init::parse_required_parts_tuples;
use flake_parts_builder::parts::FlakePart;
use flake_parts_builder::parts::FlakePartMetadata;
use flake_parts_builder::parts::FlakePartTuple;
use flake_parts_builder::parts::FlakePartsStore;

const STORE_URI: &str = "github:test/store";

fn part(name: &str, dependencies: Vec<&str>, conflicts: Vec<&str>) -> FlakePart {
    FlakePart {
        name: name.to_string(),
        nix_store_path: format!("/nix/store/{}", name),
        metadata: FlakePartMetadata {
            description: String::new(),
            inputs: vec![],
            dependencies: dependencies.into_iter().map(str::to_string).collect(),
            conflicts: conflicts.into_iter().map(str::to_string).collect(),
            extra_trusted_public_keys: vec![],
            extra_substituters: vec![],
        },
    }
}

fn store(parts: Vec<FlakePart>) -> FlakePartsStore {
    FlakePartsStore {
        flake_uri: STORE_URI.to_string(),
        nix_store_path: "/nix/store/test-store".to_string(),
        parts,
    }
}

fn command(parts: Vec<&str>, ignore_conflicts: bool) -> InitCommand {
    InitCommand {
        shared_args: SharedArgs {
            parts_stores: vec![],
            disable_base_parts: true,
            write_meta: false,
            verbose: false,
        },
        path: "project".to_string(),
        parts: parts.into_iter().map(str::to_string).collect(),
        strategy: InitStrategy::Skip,
        ignore_conflicts,
        ignore_unresolved_deps: false,
        force: false,
    }
}

fn names_of(tuples: &[FlakePartTuple]) -> Vec<String> {
    tuples.iter().map(|t| t.part.name.clone()).collect()
}

#[test]
fn scenario_simple_dependency() {
    let stores = vec![store(vec![part("a", vec![], vec![]), part("b", vec!["a"], vec![])])];
    let cmd = command(vec!["b"], false);
    let result = parse_required_parts_tuples(&cmd, &stores).expect("resolution should succeed");
    assert_eq!(names_of(&result), vec!["a".to_string(), "b".to_string()]);
}

#[test]
fn scenario_conflict() {
    let stores = vec![store(vec![
        part("a", vec![], vec![]),
        part("b", vec!["a"], vec![]),
        part("c", vec![], vec!["b"]),
    ])];
    let cmd = command(vec!["b", "c"], false);
    let result = parse_required_parts_tuples(&cmd, &stores);
    match result {
        Err(PartsTuplesParsingError::ConflictingPartsError(uris)) => {
            // Conflict declarations run one way: `c` names `b`, so `b`
            // is the flagged tuple.
            assert_eq!(uris, vec![format!("{}#default/b", STORE_URI)]);
        }
        other => panic!("expected a conflict error, got {:?}", other),
    }
}

#[test]
fn scenario_conflict_ignored() {
    let stores = vec![store(vec![
        part("a", vec![], vec![]),
        part("b", vec!["a"], vec![]),
        part("c", vec![], vec!["b"]),
    ])];
    let cmd = command(vec!["b", "c"], true);
    let result = parse_required_parts_tuples(&cmd, &stores).expect("conflicts are suppressed");
    assert_eq!(
        names_of(&result),
        vec!["a".to_string(), "b".to_string(), "c".to_string()]
    );
}

#[test]
fn scenario_missing_part() {
    let stores = vec![store(vec![part("a", vec![], vec![])])];
    let cmd = command(vec!["nonexistent"], false);
    let result = parse_required_parts_tuples(&cmd, &stores);
    match result {
        Err(PartsTuplesParsingError::MissingPartsError(missing)) => {
            assert_eq!(missing, vec!["nonexistent".to_string()]);
        }
        other => panic!("expected a missing-part error, got {:?}", other),
    }
}

#[test]
fn scenario_unresolved_dependency() {
    // A dependency on a reference present in no loaded store aborts the
    // whole resolution, before missing-part validation.
    let stores = vec![store(vec![part("x", vec!["ghost"], vec![])])];
    let cmd = command(vec!["x"], false);
    let result = parse_required_parts_tuples(&cmd, &stores);
    match result {
        Err(PartsTuplesParsingError::UnresolvedDependenciesError(unresolved)) => {
            assert_eq!(unresolved, vec![format!("{}#default/ghost", STORE_URI)]);
        }
        other => panic!("expected an unresolved-dependency error, got {:?}", other),
    }
}

#[test]
fn resolution_by_full_uri() {
    let stores = vec![store(vec![part("a", vec![], vec![])])];
    let cmd = command(vec!["github:test/store#default/a"], false);
    let result = parse_required_parts_tuples(&cmd, &stores).expect("resolution should succeed");
    assert_eq!(names_of(&result), vec!["a".to_string()]);
}

#[test]
fn resolution_handles_dependency_cycles() {
    let stores = vec![store(vec![
        part("a", vec!["b"], vec![]),
        part("b", vec!["a"], vec![]),
    ])];
    let cmd = command(vec!["a"], false);
    let result = parse_required_parts_tuples(&cmd, &stores).expect("cycles are safe");
    assert_eq!(names_of(&result), vec!["a".to_string(), "b".to_string()]);
}

#[test]
fn final_set_has_no_duplicate_uris() {
    let stores = vec![store(vec![
        part("a", vec![], vec![]),
        part("b", vec!["a"], vec![]),
        part("c", vec!["a", "b"], vec![]),
    ])];
    let cmd = command(vec!["b", "c"], false);
    let result = parse_required_parts_tuples(&cmd, &stores).expect("resolution should succeed");
    let mut uris: Vec<String> = result.iter().map(|t| t.to_flake_uri(None)).collect();
    let len_before = uris.len();
    uris.sort();
    uris.dedup();
    assert_eq!(uris.len(), len_before);
}

#[test]
fn closure_completeness_in_final_set() {
    // Every normalized dependency of an accepted tuple is itself
    // carried by the final set (nothing was unresolved here).
    let stores = vec![store(vec![
        part("a", vec![], vec![]),
        part("b", vec!["a"], vec![]),
        part("c", vec!["b"], vec![]),
    ])];
    let cmd = command(vec!["c"], false);
    let result = parse_required_parts_tuples(&cmd, &stores).expect("resolution should succeed");
    let uris: Vec<String> = result.iter().map(|t| t.to_flake_uri(None)).collect();
    for tuple in &result {
        for dep in &tuple.part.metadata.dependencies {
            let normalized = flake_parts_builder::parts::normalize_flake_string(
                dep,
                &tuple.store_uri,
                None,
            );
            assert!(uris.contains(&normalized), "dependency {} not accepted", normalized);
        }
    }
}

#[test]
fn resolve_dependencies_directly() {
    let s = store(vec![
        part("a", vec![], vec![]),
        part("b", vec!["a", "ghost"], vec![]),
    ]);
    let pool: Vec<FlakePartTuple> = s
        .parts
        .iter()
        .map(|p| FlakePartTuple::new(&s, p.clone()))
        .collect();
    let (resolved, unresolved) = FlakePartTuple::resolve_dependencies_of(&pool, vec![1]);
    assert_eq!(
        resolved,
        vec![
            format!("{}#default/a", STORE_URI),
            format!("{}#default/ghost", STORE_URI)
        ]
    );
    assert_eq!(unresolved, vec![format!("{}#default/ghost", STORE_URI)]);
}

#[test]
fn find_missing_parts_reports_unmatched_requests() {
    let s = store(vec![part("a", vec![], vec![])]);
    let pool: Vec<FlakePartTuple> = s
        .parts
        .iter()
        .map(|p| FlakePartTuple::new(&s, p.clone()))
        .collect();
    let required = vec!["a".to_string(), "zzz".to_string()];
    let missing = FlakePartTuple::find_missing_parts_in(&pool, &required);
    assert_eq!(missing, vec!["zzz".to_string()]);
}

#[test]
fn find_conflicting_parts_flags_forbidden_tuples() {
    let s = store(vec![
        part("a", vec![], vec!["b"]),
        part("b", vec![], vec![]),
    ]);
    let pool: Vec<FlakePartTuple> = s
        .parts
        .iter()
        .map(|p| FlakePartTuple::new(&s, p.clone()))
        .collect();
    let flagged = FlakePartTuple::find_conflicting_parts_in(&pool);
    assert_eq!(names_of(&flagged), vec!["b".to_string()]);
}

#[test]
fn same_name_in_two_stores_disambiguated_by_uri() {
    let store_a = FlakePartsStore {
        flake_uri: "github:origin/alpha".to_string(),
        nix_store_path: "/nix/store/alpha".to_string(),
        parts: vec![part("shared", vec![], vec![])],
    };
    let store_b = FlakePartsStore {
        flake_uri: "github:origin/beta".to_string(),
        nix_store_path: "/nix/store/beta".to_string(),
        parts: vec![part("shared", vec![], vec![])],
    };
    let stores = vec![store_a, store_b];
    let cmd = command(vec!["github:origin/beta#default/shared"], false);
    let result = parse_required_parts_tuples(&cmd, &stores).expect("resolution should succeed");
    assert_eq!(result.len(), 1);
    assert_eq!(result[0].store_uri, "github:origin/beta");
    assert_eq!(result[0].part.name, "shared");
}

#[test]
fn bare_name_matches_every_store_that_carries_it() {
    let store_a = FlakePartsStore {
        flake_uri: "github:origin/alpha".to_string(),
        nix_store_path: "/nix/store/alpha".to_string(),
        parts: vec![part("shared", vec![], vec![])],
    };
    let store_b = FlakePartsStore {
        flake_uri: "github:origin/beta".to_string(),
        nix_store_path: "/nix/store/beta".to_string(),
        parts: vec![part("shared", vec![], vec![])],
    };
    let stores = vec![store_a, store_b];
    let cmd = command(vec!["shared"], false);
    let result = parse_required_parts_tuples(&cmd, &stores).expect("resolution should succeed");
    // A bare name is a deliberate fallback: it accepts the part from
    // every store that carries it.
    assert_eq!(result.len(), 2);
    assert_eq!(result[0].store_uri, "github:origin/alpha");
    assert_eq!(result[1].store_uri, "github:origin/beta");
}
