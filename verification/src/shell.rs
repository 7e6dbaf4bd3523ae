//! Shell output handling: the 10 000-byte truncation of captured streams and
//! the composition of the tool-result text for an executed command.

use vstd::prelude::*;

use crate::text::dec_int;

verus! {

/// What running a shell command yields.
#[derive(Debug)]
pub struct ShellResult {
    pub stdout: String,
    pub stderr: String,
    pub exit_code: i32,
}

/// The byte limit applied to each captured stream.
pub const MAX_STREAM_BYTES: usize = 10000;

/// The marker appended to a truncated stream.
pub open spec fn truncation_marker() -> Seq<u8> {
    seq![46u8, 46u8, 46u8, 91u8, 116u8, 114u8, 117u8, 110u8, 99u8, 97u8, 116u8, 101u8, 100u8,
        93u8]
}

/// A stream truncated to the limit: short streams pass through; anything
/// longer is cut at 10 000 bytes and marked `...[truncated]`, for a total of
/// exactly 10 014 bytes.
pub open spec fn spec_truncated(bytes: Seq<u8>) -> Seq<u8> {
    if bytes.len() <= 10000 {
        bytes
    } else {
        bytes.subrange(0, 10000) + truncation_marker()
    }
}

/// Truncate a captured stream to the limit.
pub fn truncate_stream(bytes: Vec<u8>) -> (r: Vec<u8>)
    ensures
        r@ == spec_truncated(bytes@),
        bytes@.len() > MAX_STREAM_BYTES ==> r@.len() == 10014,
{
    if bytes.len() <= MAX_STREAM_BYTES {
        return bytes;
    }
    let ghost borig = bytes@;
    let mut out = bytes;
    out.truncate(MAX_STREAM_BYTES);
    out.push(46u8);
    out.push(46u8);
    out.push(46u8);
    out.push(91u8);
    out.push(116u8);
    out.push(114u8);
    out.push(117u8);
    out.push(110u8);
    out.push(99u8);
    out.push(97u8);
    out.push(116u8);
    out.push(101u8);
    out.push(100u8);
    out.push(93u8);
    proof {
        assert(out@ =~= spec_truncated(borig));
    }
    out
}

/// The tool-result text for a completed command: stdout, then stderr behind
/// a `STDERR: ` marker (on a new line when both are present); when both are
/// empty, a note with the exit code.
pub open spec fn spec_shell_text(stdout: Seq<char>, stderr: Seq<char>, code: int) -> Seq<
    char,
> {
    if stdout.len() == 0 && stderr.len() == 0 {
        "Command completed with exit code "@ + dec_int(code)
    } else if stderr.len() == 0 {
        stdout
    } else if stdout.len() == 0 {
        "STDERR: "@ + stderr
    } else {
        stdout + "\n"@ + "STDERR: "@ + stderr
    }
}

/// Compose the tool-result text for a shell result.
pub fn compose_shell_output(result: &ShellResult) -> (r: String)
    ensures
        r@ == spec_shell_text(result.stdout@, result.stderr@, result.exit_code as int),
{
    let out_empty = result.stdout.unicode_len() == 0;
    let err_empty = result.stderr.unicode_len() == 0;
    if out_empty && err_empty {
        let mut out = String::from_str("Command completed with exit code ");
        out.append(crate::text::i32_str(result.exit_code).as_str());
        out
    } else if err_empty {
        result.stdout.clone()
    } else if out_empty {
        let mut out = String::from_str("STDERR: ");
        out.append(result.stderr.as_str());
        out
    } else {
        let mut out = result.stdout.clone();
        out.append("\n");
        out.append("STDERR: ");
        out.append(result.stderr.as_str());
        out
    }
}

} // verus!
