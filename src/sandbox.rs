//! How a shell command is run in the sandbox: in a throw-away container with a
//! fifth of a CPU, a fixed working directory, and a time limit enforced by
//! `timeout` (a terminate signal at 300 s, a kill 5 s after it).

use vstd::prelude::*;

verus! {

/// The program that starts the sandbox.
pub const SANDBOX_PROGRAM: &'static str = "docker";

/// The arguments of the sandbox program that run `cmd` with `bash -c`.
pub open spec fn sandbox_args_view(cmd: Seq<char>) -> Seq<Seq<char>> {
    seq![
        "run"@,
        "--rm"@,
        "--cpus"@,
        "0.2"@,
        "--workdir"@,
        "/root"@,
        "--restart"@,
        "no"@,
        "--stop-timeout"@,
        "1"@,
        "risc-exec"@,
        "timeout"@,
        "--signal=SIGTERM"@,
        "--kill-after=5"@,
        "300"@,
        "bash"@,
        "-c"@,
        cmd,
    ]
}

/// The arguments of the sandbox program that run `cmd` with `bash -c`.
pub fn sandbox_args(cmd: &str) -> (r: Vec<String>)
    ensures
        r@.len() == sandbox_args_view(cmd@).len(),
        forall|i: int| 0 <= i < r@.len() ==> #[trigger] r@[i]@ == sandbox_args_view(cmd@)[i],
{
    let mut r: Vec<String> = Vec::new();
    r.push(String::from_str("run"));
    r.push(String::from_str("--rm"));
    r.push(String::from_str("--cpus"));
    r.push(String::from_str("0.2"));
    r.push(String::from_str("--workdir"));
    r.push(String::from_str("/root"));
    r.push(String::from_str("--restart"));
    r.push(String::from_str("no"));
    r.push(String::from_str("--stop-timeout"));
    r.push(String::from_str("1"));
    r.push(String::from_str("risc-exec"));
    r.push(String::from_str("timeout"));
    r.push(String::from_str("--signal=SIGTERM"));
    r.push(String::from_str("--kill-after=5"));
    r.push(String::from_str("300"));
    r.push(String::from_str("bash"));
    r.push(String::from_str("-c"));
    r.push(String::from_str(cmd));
    r
}

} // verus!
