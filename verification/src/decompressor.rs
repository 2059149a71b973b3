//! Choice of decompression by file name.
//!
//! Opening and decoding the file is I/O and stays with the caller; which
//! decoder a path calls for is decided here.

use vstd::prelude::*;
use crate::text;
use crate::path_key::{named, segments};

verus! {

/// The file name of `path`: its last component, when that is a name (not
/// `..`, the root or a leading `.`).
pub open spec fn file_name(path: Seq<char>) -> Option<Seq<char>> {
    let ns = named(segments(path));
    if ns.len() > 0 && ns.last() != seq!['.', '.'] {
        Some(ns.last())
    } else {
        None
    }
}

/// The position of the last `.` in `name`, if any.
pub open spec fn last_dot(name: Seq<char>) -> Option<int>
    decreases name.len(),
{
    if name.len() == 0 {
        None
    } else if name.last() == '.' {
        Some(name.len() - 1)
    } else {
        last_dot(name.drop_last())
    }
}

/// What `std::path::Path::extension` gives for a path: the part of the file
/// name after its last `.`; nothing when there is no file name, no `.` in
/// it, or only a leading one.
pub open spec fn path_extension(path: Seq<char>) -> Option<Seq<char>> {
    match file_name(path) {
        Some(n) => match last_dot(n) {
            Some(i) => if i > 0 {
                Some(n.subrange(i + 1, n.len() as int))
            } else {
                None
            },
            None => None,
        },
        None => None,
    }
}

/// Trusted: `Path::new(path).extension()`, as a string, is what the
/// documentation of `Path::extension` and `Path::file_name` describes,
/// written out as `path_extension` (components split at slashes, empty and
/// inner `.` pieces dropped). The extension of a `&str` path is valid UTF-8,
/// so `to_str` never fails here.
#[verifier::external_body]
fn extension_of(path: &str) -> (r: Option<String>)
    ensures
        match r {
            Some(e) => path_extension(path@) == Some(e@),
            None => path_extension(path@) is None,
        },
{
    std::path::Path::new(path).extension().and_then(|e| e.to_str()).map(|e| e.to_string())
}

/// How a file's content is compressed.
#[derive(Debug, Clone, Copy, PartialEq, Eq, Structural)]
pub enum Compression {
    Plain,
    Gzip,
    Bzip2,
}

/// The compression an extension stands for.
pub open spec fn compression_for(ext: Option<Seq<char>>) -> Compression {
    match ext {
        Some(e) => if e == "gz"@ {
            Compression::Gzip
        } else if e == "bz2"@ {
            Compression::Bzip2
        } else {
            Compression::Plain
        },
        None => Compression::Plain,
    }
}

/// The compression a path's extension calls for: `.gz`, `.bz2`, or none.
pub fn compression_of(path: &str) -> (c: Compression)
    ensures
        c == compression_for(path_extension(path@)),
{
    match extension_of(path) {
        Some(e) => if text::str_eq(e.as_str(), "gz") {
            Compression::Gzip
        } else if text::str_eq(e.as_str(), "bz2") {
            Compression::Bzip2
        } else {
            Compression::Plain
        },
        None => Compression::Plain,
    }
}

/// Whether the path names a gzip or bzip2 file.
pub fn is_compressed(path: &str) -> (b: bool)
    ensures
        b == (compression_for(path_extension(path@)) != Compression::Plain),
{
    let c = compression_of(path);
    match c {
        Compression::Plain => false,
        _ => true,
    }
}

} // verus!
