//! The zip container of a package, read with the `zip` crate from the
//! package's bytes.
use vstd::prelude::*;
use std::io::Read;

verus! {

/// The entry names of the zip archive `archive`, in the archive's order;
/// `None` where `zip::ZipArchive::new` refuses the bytes.
pub uninterp spec fn zip_entry_names(archive: Seq<u8>) -> Option<Seq<Seq<char>>>;

/// The entry `name` of the archive, decompressed and read as UTF-8 text;
/// `None` where the archive cannot be opened, the entry is missing, cannot be
/// decompressed, or is not UTF-8.
pub uninterp spec fn zip_entry_text(archive: Seq<u8>, name: Seq<char>) -> Option<Seq<char>>;

/// The entry `name` of the archive, decompressed; `None` where the archive
/// cannot be opened, the entry is missing or cannot be decompressed.
pub uninterp spec fn zip_entry_bytes(archive: Seq<u8>, name: Seq<char>) -> Option<Seq<u8>>;

/// `zip::ZipArchive::new` over the bytes, then `file_names`. Claimed: the
/// names are `zip_entry_names(data@)`, a function of the bytes alone.
#[verifier::external_body]
pub(crate) fn archive_names(data: &[u8]) -> (r: Option<Vec<String>>)
    ensures
        match zip_entry_names(data@) {
            Some(ns) => r matches Some(v) && v@.map_values(|s: String| s@) == ns,
            None => r is None,
        },
{
    let archive = zip::ZipArchive::new(std::io::Cursor::new(data)).ok()?;
    Some(archive.file_names().map(String::from).collect())
}

/// `zip::ZipArchive::new` over the bytes, `by_name`, then `read_to_string`.
/// Claimed: the text is `zip_entry_text(data@, name@)`, a function of its arguments alone.
#[verifier::external_body]
pub(crate) fn archive_text(data: &[u8], name: &str) -> (r: Option<String>)
    ensures
        match zip_entry_text(data@, name@) {
            Some(t) => r matches Some(s) && s@ == t,
            None => r is None,
        },
{
    let mut archive = zip::ZipArchive::new(std::io::Cursor::new(data)).ok()?;
    let mut entry = archive.by_name(name).ok()?;
    let mut text = String::new();
    entry.read_to_string(&mut text).ok()?;
    Some(text)
}

/// `zip::ZipArchive::new` over the bytes, `by_name`, then `read_to_end`.
/// Claimed: the bytes are `zip_entry_bytes(data@, name@)`, a function of its arguments alone.
#[verifier::external_body]
pub(crate) fn archive_bytes(data: &[u8], name: &str) -> (r: Option<Vec<u8>>)
    ensures
        match zip_entry_bytes(data@, name@) {
            Some(b) => r matches Some(v) && v@ == b,
            None => r is None,
        },
{
    let mut archive = zip::ZipArchive::new(std::io::Cursor::new(data)).ok()?;
    let mut entry = archive.by_name(name).ok()?;
    let mut bytes = Vec::new();
    entry.read_to_end(&mut bytes).ok()?;
    Some(bytes)
}

} // verus!
