use flake_parts_builder::cmd::add::effective_parts_stores_for_add;
use flake_parts_builder::cmd::init::effective_parts_stores_for_init;
use flake_parts_builder::cmd::init::parts_with_bootstrap;
use flake_parts_builder::nix::eval_file_args;
use flake_parts_builder::nix::nix_base_args;
use flake_parts_builder::nix::store_path_args;
use flake_parts_builder::nix::NixExecutor;

const SELF_BASE: &str = "github:tsandrini/flake-parts-builder#flake-parts";
const SELF_BOOTSTRAP: &str = "github:tsandrini/flake-parts-builder#flake-parts-bootstrap";

#[test]
fn init_store_list_appends_base_and_bootstrap() {
    let user = vec!["github:me/mine#flake-parts".to_string()];
    let stores = effective_parts_stores_for_init(&user, false);
    assert_eq!(
        stores,
        vec![
            "github:me/mine#flake-parts".to_string(),
            SELF_BASE.to_string(),
            SELF_BOOTSTRAP.to_string(),
        ]
    );
}

#[test]
fn init_store_list_with_base_disabled_still_bootstraps() {
    let stores = effective_parts_stores_for_init(&vec![], true);
    assert_eq!(stores, vec![SELF_BOOTSTRAP.to_string()]);
}

#[test]
fn add_store_list_never_bootstraps() {
    let stores = effective_parts_stores_for_add(&vec![], false);
    assert_eq!(stores, vec![SELF_BASE.to_string()]);
    let stores = effective_parts_stores_for_add(&vec![], true);
    assert!(stores.is_empty());
}

#[test]
fn init_parts_include_bootstrap_part() {
    let parts = parts_with_bootstrap(&vec!["shells".to_string()]);
    assert_eq!(
        parts,
        vec![
            "shells".to_string(),
            format!("{}/_bootstrap", SELF_BOOTSTRAP),
        ]
    );
}

#[test]
fn nix_executor_keeps_binary_path() {
    let executor = NixExecutor::new("/usr/bin/nix".to_string());
    assert_eq!(executor.nix_binary, "/usr/bin/nix");
}

#[test]
fn base_args_enable_flakes() {
    assert_eq!(
        nix_base_args(),
        vec![
            "--extra-experimental-features".to_string(),
            "nix-command".to_string(),
            "--extra-experimental-features".to_string(),
            "flakes".to_string(),
        ]
    );
}

#[test]
fn eval_args_name_the_file() {
    let args = eval_file_args("/tmp/meta.nix", true);
    let mut expected = nix_base_args();
    expected.extend([
        "eval".to_string(),
        "--file".to_string(),
        "/tmp/meta.nix".to_string(),
        "--json".to_string(),
    ]);
    assert_eq!(args, expected);

    let args = eval_file_args("/tmp/meta.nix", false);
    let mut expected = nix_base_args();
    expected.extend(["eval".to_string(), "--file".to_string(), "/tmp/meta.nix".to_string()]);
    assert_eq!(args, expected);
}

#[test]
fn store_path_args_name_the_flake() {
    let args = store_path_args("github:test/store");
    let mut expected = nix_base_args();
    expected.extend([
        "build".to_string(),
        "--no-link".to_string(),
        "--print-out-paths".to_string(),
        "github:test/store".to_string(),
    ]);
    assert_eq!(args, expected);
}
