//! Small decisions of the proxy's utilities: console labels and the request-body archive.
use vstd::prelude::*;

use crate::text::{chars_of, ends_with_chars, ends_with_seq};

verus! {

/// The console label of a flag: `Enabled` or `Disabled`.
pub fn enabled_label(flag: bool) -> (s: &'static str)
    ensures
        s@ == if flag {
            "Enabled"@
        } else {
            "Disabled"@
        },
{
    if flag {
        "Enabled"
    } else {
        "Disabled"
    }
}

/// `_req.json`
pub open spec fn request_dump_suffix() -> Seq<char> {
    seq!['_', 'r', 'e', 'q', '.', 'j', 's', 'o', 'n']
}

/// Whether a dump file is a request body, which is also archived: its name ends with
/// `_req.json`.
pub fn should_archive_request_body(file_name: &str) -> (b: bool)
    ensures
        b == ends_with_seq(file_name@, request_dump_suffix()),
{
    let suffix = vec!['_', 'r', 'e', 'q', '.', 'j', 's', 'o', 'n'];
    assert(suffix@ == request_dump_suffix());
    ends_with_chars(&chars_of(file_name), &suffix)
}

/// How many of the oldest archived request bodies are removed so that at most `limit`
/// remain.
pub fn archive_removal_count(files: usize, limit: usize) -> (n: usize)
    ensures
        n == if files <= limit { 0 } else { files - limit },
        files - n <= limit,
{
    if files <= limit {
        0
    } else {
        files - limit
    }
}

} // verus!
