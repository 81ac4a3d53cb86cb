//! Data for the external evaluation tool: the executor handle, its
//! error kinds, and the argument lists the executor runs with.
use vstd::prelude::*;

verus! {

/// Failures shared by every implementation of the evaluation
/// interface.
#[derive(Debug, Clone)]
pub enum NixCmdInterfaceError {
    /// The given path could not be turned into a command argument.
    InvalidPath(String),
    /// The tool's output was not valid UTF-8.
    UTF8ConversionError(String),
    /// Running the tool failed.
    NixCommandError(String),
}

/// Failures of the executor that runs the real tool.
#[derive(Debug)]
pub enum NixExecutorError {
    /// A shared interface failure.
    NixCmdInterfaceError(NixCmdInterfaceError),
    /// No tool binary was found.
    NixBinaryNotFound,
    /// The tool exited with a nonzero status; carries its diagnostic
    /// output.
    NonzeroStatusError(String),
}

/// Handle on the evaluation tool: the path of the binary to run.  The
/// surrounding program runs the binary; the argument lists it passes
/// are built here.
pub struct NixExecutor {
    pub nix_binary: String,
}

impl NixExecutor {
    pub fn new(nix_binary: String) -> (r: Self)
        ensures
            r.nix_binary == nix_binary,
    {
        NixExecutor { nix_binary }
    }
}

/// The arguments every tool invocation starts with: the experimental
/// features the commands rely on.
pub fn nix_base_args() -> (r: Vec<String>)
    ensures
        r.deep_view() == seq![
            "--extra-experimental-features"@,
            "nix-command"@,
            "--extra-experimental-features"@,
            "flakes"@,
        ],
{
    let mut out: Vec<String> = Vec::new();
    out.push(String::from_str("--extra-experimental-features"));
    out.push(String::from_str("nix-command"));
    out.push(String::from_str("--extra-experimental-features"));
    out.push(String::from_str("flakes"));
    proof {
        assert(out.deep_view() =~= seq![
            "--extra-experimental-features"@,
            "nix-command"@,
            "--extra-experimental-features"@,
            "flakes"@,
        ]);
    }
    out
}

/// The arguments that evaluate the expression file at `path`,
/// requesting JSON output when `to_json` holds.
pub fn eval_file_args(path: &str, to_json: bool) -> (r: Vec<String>)
    ensures
        r.deep_view() == if to_json {
            nix_base_args_spec() + seq!["eval"@, "--file"@, path@, "--json"@]
        } else {
            nix_base_args_spec() + seq!["eval"@, "--file"@, path@]
        },
{
    let mut out = nix_base_args();
    out.push(String::from_str("eval"));
    out.push(String::from_str("--file"));
    out.push(String::from_str(path));
    if to_json {
        out.push(String::from_str("--json"));
        proof {
            assert(out.deep_view() =~= nix_base_args_spec() + seq![
                "eval"@,
                "--file"@,
                path@,
                "--json"@,
            ]);
        }
    } else {
        proof {
            assert(out.deep_view() =~= nix_base_args_spec() + seq!["eval"@, "--file"@, path@]);
        }
    }
    out
}

/// The fixed leading arguments, as a specification value.
pub open spec fn nix_base_args_spec() -> Seq<Seq<char>> {
    seq![
        "--extra-experimental-features"@,
        "nix-command"@,
        "--extra-experimental-features"@,
        "flakes"@,
    ]
}

/// The arguments that realize the store path of `flake_uri` and print
/// it.
pub fn store_path_args(flake_uri: &str) -> (r: Vec<String>)
    ensures
        r.deep_view() == nix_base_args_spec() + seq![
            "build"@,
            "--no-link"@,
            "--print-out-paths"@,
            flake_uri@,
        ],
{
    let mut out = nix_base_args();
    out.push(String::from_str("build"));
    out.push(String::from_str("--no-link"));
    out.push(String::from_str("--print-out-paths"));
    out.push(String::from_str(flake_uri));
    proof {
        assert(out.deep_view() =~= nix_base_args_spec() + seq![
            "build"@,
            "--no-link"@,
            "--print-out-paths"@,
            flake_uri@,
        ]);
    }
    out
}

} // verus!
