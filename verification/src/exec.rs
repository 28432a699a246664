//! Running a command under `systemd-run`: the argument list and the result.
//!
//! Each command runs as a transient user unit, so it survives nothing it
//! should not and shows up in the journal under a name the run can find.
//! The caller spawns the process; this module says what to spawn and what
//! the result means.

use vstd::prelude::*;

use crate::text::{concat, push_str};

verus! {

/// What a command left behind.
pub struct Output {
    /// The exit code; `-1` when a signal ended it.
    pub code: i32,
    pub stdout: String,
    pub stderr: String,
    /// The transient unit it ran under.
    pub unit: String,
}

impl Output {
    /// Success is exit code zero.
    pub fn ok(&self) -> (r: bool)
        ensures
            r == (self.code == 0),
    {
        self.code == 0
    }
}

/// The program every command runs under.
pub const RUNNER: &'static str = "systemd-run";

pub open spec fn opt_arg(prefix: Seq<char>, v: Option<Seq<char>>) -> Seq<Seq<char>> {
    match v {
        Some(x) => seq![prefix + x],
        None => seq![],
    }
}

/// The arguments to the runner: a user unit that pipes its streams, waits,
/// is collected afterwards and says nothing of its own; then the working
/// directory and the caller's `PATH` and `HOME` where given; then `--` and
/// the command.
pub open spec fn runner_args(
    unit: Seq<char>,
    cmd: Seq<Seq<char>>,
    cwd: Option<Seq<char>>,
    path: Option<Seq<char>>,
    home: Option<Seq<char>>,
) -> Seq<Seq<char>> {
    seq!["--user"@, "--pipe"@, "--wait"@, "--collect"@, "--quiet"@, "--unit="@ + unit]
        + opt_arg("--working-directory="@, cwd) + opt_arg("--setenv=PATH="@, path) + opt_arg(
        "--setenv=HOME="@,
        home,
    ) + seq!["--"@] + cmd
}

pub open spec fn strings_view(v: Seq<String>) -> Seq<Seq<char>> {
    Seq::new(v.len(), |i: int| v[i]@)
}

pub open spec fn opt_view(o: Option<&str>) -> Option<Seq<char>> {
    match o {
        Some(s) => Some(s@),
        None => None,
    }
}

/// The arguments to the runner.
pub fn runner_args_for(
    unit: &str,
    cmd: &Vec<String>,
    cwd: Option<&str>,
    path: Option<&str>,
    home: Option<&str>,
) -> (r: Vec<String>)
    ensures
        strings_view(r@) == runner_args(
            unit@,
            strings_view(cmd@),
            opt_view(cwd),
            opt_view(path),
            opt_view(home),
        ),
{
    let mut out: Vec<String> = Vec::new();
    out.push("--user".to_owned());
    out.push("--pipe".to_owned());
    out.push("--wait".to_owned());
    out.push("--collect".to_owned());
    out.push("--quiet".to_owned());
    out.push(concat("--unit=", unit));
    let ghost base = strings_view(out@);
    if let Some(d) = cwd {
        out.push(concat("--working-directory=", d));
    }
    let ghost a1 = strings_view(out@);
    assert(a1 =~= base + opt_arg("--working-directory="@, opt_view(cwd)));
    if let Some(p) = path {
        out.push(concat("--setenv=PATH=", p));
    }
    let ghost a2 = strings_view(out@);
    assert(a2 =~= a1 + opt_arg("--setenv=PATH="@, opt_view(path)));
    if let Some(h) = home {
        out.push(concat("--setenv=HOME=", h));
    }
    let ghost a3 = strings_view(out@);
    assert(a3 =~= a2 + opt_arg("--setenv=HOME="@, opt_view(home)));
    out.push("--".to_owned());
    let ghost a4 = strings_view(out@);
    assert(a4 =~= a3 + seq!["--"@]);
    let mut i: usize = 0;
    while i < cmd.len()
        invariant
            i <= cmd@.len(),
            strings_view(out@) == a4 + strings_view(cmd@).subrange(0, i as int),
        decreases cmd.len() - i,
    {
        let c = cmd[i].clone();
        let ghost before = strings_view(out@);
        out.push(c);
        assert(strings_view(out@) =~= before.push(cmd@[i as int]@));
        assert(strings_view(cmd@).subrange(0, i + 1) =~= strings_view(cmd@).subrange(0, i as int).push(
            cmd@[i as int]@,
        ));
        assert(strings_view(out@) =~= a4 + strings_view(cmd@).subrange(0, i + 1));
        i += 1;
    }
    assert(strings_view(cmd@).subrange(0, cmd@.len() as int) =~= strings_view(cmd@));
    out
}

} // verus!
