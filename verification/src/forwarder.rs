//! A command forwarder: requests to run a shell command arrive as JSON on a
//! socket, and the command's output goes back as JSON.
use vstd::prelude::*;
use vstd::utf8::{valid_utf8, decode_utf8};
use crate::text::{utf8_lossy, lossy_string};

verus! {

/// Size of the chunks in which a request is read.
pub const BUF_LEN: usize = 4096;

/// A command to run, with what to write to its standard input.
#[derive(Debug)]
pub struct Request {
    pub bash: String,
    pub input: Option<String>,
    pub owner: String,
}

/// What a command gave: its standard output and error, decoded as UTF-8
/// with invalid sequences replaced, and its exit code if it exited.
#[derive(Debug)]
pub struct Response {
    pub output: String,
    pub error: String,
    pub code: Option<i32>,
}

impl Default for Response {
    fn default() -> (r: Self)
        ensures
            r.output@ == Seq::<char>::empty(),
            r.error@ == Seq::<char>::empty(),
            r.code is None,
    {
        Response { output: String::new(), error: String::new(), code: None }
    }
}

impl Response {
    /// The response to a command that ran: its output streams, decoded, and
    /// its exit code.
    pub fn from_output(stdout: &[u8], stderr: &[u8], code: Option<i32>) -> (r: Response)
        ensures
            r.output@ == utf8_lossy(stdout@),
            valid_utf8(stdout@) ==> r.output@ == decode_utf8(stdout@),
            r.error@ == utf8_lossy(stderr@),
            valid_utf8(stderr@) ==> r.error@ == decode_utf8(stderr@),
            r.code == code,
    {
        Response { output: lossy_string(stdout), error: lossy_string(stderr), code }
    }

    /// The response to a command that could not be run: no output, the
    /// message of what went wrong, no exit code.
    pub fn from_failure(message: String) -> (r: Response)
        ensures
            r.output@ == Seq::<char>::empty(),
            r.error == message,
            r.code is None,
    {
        let mut r = Response::default();
        r.error = message;
        r
    }
}

/// Whether to read another chunk of a request after a read that brought
/// `n` bytes: a read that filled whole chunks may have left more behind,
/// and a read of nothing ends the request.
pub fn keep_reading(n: usize) -> (more: bool)
    ensures
        more == (n % BUF_LEN == 0 && n != 0),
{
    n % BUF_LEN == 0 && n != 0
}

/// The name pattern of the rolled log files in `dir`: `dir` directly
/// followed by `forwarder.{}.gz`, where the roller puts the file's number.
pub fn log_archive_pattern(dir: &str) -> (p: String)
    ensures
        p@ == dir@ + "forwarder.{}.gz"@,
{
    let mut p = String::from_str(dir);
    p.append("forwarder.{}.gz");
    p
}

/// The path of the live log file in `dir`.
pub fn log_file_path(dir: &str) -> (p: String)
    ensures
        p@ == dir@ + "/forwarder.log"@,
{
    let mut p = String::from_str(dir);
    p.append("/forwarder.log");
    p
}

/// The size, in bytes, at which the log rolls over: `size` mebibytes.
pub fn roll_size_bytes(size: u64) -> (bytes: u64)
    requires
        size * 1024 * 1024 <= u64::MAX,
    ensures
        bytes == size * 1024 * 1024,
{
    size * 1024 * 1024
}

} // verus!
