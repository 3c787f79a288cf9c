//! What a run of `build.sh` is reported as.
use vstd::prelude::*;
use crate::error::BuildFailure;

verus! {

/// A build's outcome and everything it printed.
#[derive(Debug, Clone)]
pub struct BuildResult {
    pub success: bool,
    pub output: String,
}

pub open spec fn digit_char(d: nat) -> char {
    if d == 0 {
        '0'
    } else if d == 1 {
        '1'
    } else if d == 2 {
        '2'
    } else if d == 3 {
        '3'
    } else if d == 4 {
        '4'
    } else if d == 5 {
        '5'
    } else if d == 6 {
        '6'
    } else if d == 7 {
        '7'
    } else if d == 8 {
        '8'
    } else {
        '9'
    }
}

/// The decimal digits of a natural number.
pub open spec fn decimal(n: nat) -> Seq<char>
    decreases n,
{
    if n < 10 {
        seq![digit_char(n)]
    } else {
        decimal(n / 10).push(digit_char(n % 10))
    }
}

/// An integer written in decimal, with a `-` when negative.
pub open spec fn int_text(i: int) -> Seq<char> {
    if i < 0 {
        seq!['-'] + decimal((-i) as nat)
    } else {
        decimal(i as nat)
    }
}

fn digit_exec(d: u64) -> (c: char)
    requires
        d < 10,
    ensures
        c == digit_char(d as nat),
{
    if d == 0 {
        '0'
    } else if d == 1 {
        '1'
    } else if d == 2 {
        '2'
    } else if d == 3 {
        '3'
    } else if d == 4 {
        '4'
    } else if d == 5 {
        '5'
    } else if d == 6 {
        '6'
    } else if d == 7 {
        '7'
    } else if d == 8 {
        '8'
    } else {
        '9'
    }
}

fn decimal_exec(n: u64) -> (r: String)
    ensures
        r@ == decimal(n as nat),
    decreases n,
{
    if n < 10 {
        let mut r = String::new();
        r.push(digit_exec(n));
        r
    } else {
        let mut r = decimal_exec(n / 10);
        r.push(digit_exec(n % 10));
        r
    }
}

/// An integer written in decimal.
pub fn int_to_string(i: i32) -> (r: String)
    ensures
        r@ == int_text(i as int),
{
    if i < 0 {
        let m: i64 = -(i as i64);
        let d = decimal_exec(m as u64);
        let mut r = String::new();
        r.push('-');
        r.append(d.as_str());
        assert(r@ =~= seq!['-'] + decimal((-i) as nat));
        r
    } else {
        decimal_exec(i as u64)
    }
}

/// The output of a build as it is reported: its exit code (or that a
/// signal ended it), then what it wrote to stdout and to stderr.
pub open spec fn build_report(exit_code: Option<i32>, stdout: Seq<char>, stderr: Seq<char>) -> Seq<char> {
    "EXIT CODE: "@ + match exit_code {
        Some(c) => int_text(c as int),
        None => "Signal terminated"@,
    } + "\n\nSTDOUT:\n"@ + stdout + "\n\nSTDERR:\n"@ + stderr
}

/// A finished `build.sh`: its report, as the build's output when it
/// passed (exit code 0) and as a `BuildFailure` otherwise.
pub fn build_outcome(exit_code: Option<i32>, stdout: &str, stderr: &str) -> (r: Result<String, BuildFailure>)
    ensures
        exit_code == Some(0i32) ==> (r matches Ok(s) && s@ == build_report(exit_code, stdout@, stderr@)),
        exit_code != Some(0i32) ==> (r matches Err(f) && f.output@ == build_report(exit_code, stdout@, stderr@)),
{
    let mut out = "EXIT CODE: ".to_owned();
    match exit_code {
        Some(c) => {
            let t = int_to_string(c);
            out.append(t.as_str());
        },
        None => {
            out.append("Signal terminated");
        },
    }
    out.append("\n\nSTDOUT:\n");
    out.append(stdout);
    out.append("\n\nSTDERR:\n");
    out.append(stderr);
    match exit_code {
        Some(c) => if c == 0 {
            Ok(out)
        } else {
            Err(BuildFailure { output: out })
        },
        None => Err(BuildFailure { output: out }),
    }
}

/// The combined output of a build script run (`STDOUT:` and `STDERR:`
/// sections) and whether it succeeded.
pub fn build_result(success: bool, stdout: &str, stderr: &str) -> (r: BuildResult)
    ensures
        r.success == success,
        r.output@ == "STDOUT:\n"@ + stdout@ + "\n\nSTDERR:\n"@ + stderr@,
{
    let mut out = "STDOUT:\n".to_owned();
    out.append(stdout);
    out.append("\n\nSTDERR:\n");
    out.append(stderr);
    BuildResult { success, output: out }
}

} // verus!
