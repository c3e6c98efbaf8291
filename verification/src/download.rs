//! Output-file naming for the persistence collaborator: the desired base
//! name gets the renderer's extension appended unless it already ends
//! with it. Writing the file is the caller's job.

use vstd::prelude::*;
use crate::text::str_eq;

verus! {

/// `s` ends with `suffix`.
pub open spec fn ends_with_spec(s: Seq<char>, suffix: Seq<char>) -> bool {
    s.len() >= suffix.len() && s.subrange(s.len() - suffix.len(), s.len() as int) == suffix
}

/// `name` with `ext` appended unless already present at the end.
pub open spec fn with_extension(name: Seq<char>, ext: Seq<char>) -> Seq<char> {
    if ends_with_spec(name, ext) {
        name
    } else {
        name + ext
    }
}

/// Whether `s` ends with `suffix`, per `ends_with_spec`.
fn ends_with(s: &str, suffix: &str) -> (r: bool)
    ensures
        r == ends_with_spec(s@, suffix@),
{
    let n = s.unicode_len();
    let m = suffix.unicode_len();
    if n < m {
        return false;
    }
    str_eq(s.substring_char(n - m, n), suffix)
}

fn name_with_extension(filename: &str, ext: &str) -> (r: String)
    ensures
        r@ == with_extension(filename@, ext@),
{
    if ends_with(filename, ext) {
        filename.to_owned()
    } else {
        let mut s = filename.to_owned();
        s.append(ext);
        s
    }
}

/// The file name a JSONL rendering is saved under: `.jsonl` appended if
/// absent.
pub fn jsonl_file_name(filename: &str) -> (r: String)
    ensures
        r@ == with_extension(filename@, ".jsonl"@),
{
    name_with_extension(filename, ".jsonl")
}

/// The file name a text rendering is saved under: `.txt` appended if
/// absent.
pub fn txt_file_name(filename: &str) -> (r: String)
    ensures
        r@ == with_extension(filename@, ".txt"@),
{
    name_with_extension(filename, ".txt")
}

} // verus!
