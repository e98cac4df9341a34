//! The decision logic of the request handler that answers once a connection
//! is decrypted: a path-existence check. The surrounding transport performs
//! the filesystem probe and hands its outcome here as plain values.

use vstd::prelude::*;
use vstd::string::StringExecFns;

verus! {

/// What the filesystem probe found for a requested path.
#[derive(PartialEq, Eq, Structural, Clone, Copy, Debug)]
pub enum PathOutcome {
    /// The path exists, as a directory or as a file.
    Exists { is_dir: bool },
    /// The path does not exist.
    Missing,
    /// The probe itself failed.
    AccessError,
}

/// The status code served for a probe outcome: found, not found, forbidden.
pub fn response_status(outcome: PathOutcome) -> (r: u16)
    ensures
        r == (match outcome {
            PathOutcome::Exists { .. } => 200u16,
            PathOutcome::Missing => 404u16,
            PathOutcome::AccessError => 403u16,
        }),
{
    match outcome {
        PathOutcome::Exists { .. } => 200,
        PathOutcome::Missing => 404,
        PathOutcome::AccessError => 403,
    }
}

/// The label the response body uses for an existing path.
pub fn type_label(is_dir: bool) -> (r: &'static str)
    ensures
        is_dir ==> r@ == "directory"@,
        !is_dir ==> r@ == "file"@,
{
    if is_dir {
        "directory"
    } else {
        "file"
    }
}

/// The filesystem path probed for a request path: the request path taken
/// relative to the serving directory.
pub fn request_path(p: &str) -> (r: String)
    ensures
        r@ == "./"@ + p@,
{
    let mut r = String::from_str("./");
    r.append(p);
    r
}

} // verus!
