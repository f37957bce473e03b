//! The zip archive of a presentation, as the `zip` crate reads it.
//!
//! An archive is opened over the bytes of a file. What is read from it depends on those
//! bytes alone; the verifier knows the results by name.

use vstd::prelude::*;
use std::io::{Cursor, Read};
use zip::ZipArchive;

verus! {

/// `zip::ZipArchive`, a zip archive that was opened.
#[verifier::external_type_specification]
#[verifier::external_body]
#[verifier::reject_recursive_types(R)]
pub struct ExZipArchive<R>(ZipArchive<R>);

/// The bytes over which an archive was opened.
pub uninterp spec fn archive_image(archive: ZipArchive<Cursor<Vec<u8>>>) -> Seq<u8>;

/// Whether the bytes can be opened as a zip archive.
pub uninterp spec fn image_is_archive(image: Seq<u8>) -> bool;

/// What comes of reading the entry of the given name in the archive that the bytes hold,
/// as text.
pub uninterp spec fn image_entry(image: Seq<u8>, name: Seq<char>) -> EntryRead;

/// What comes of reading an entry as text.
pub enum EntryRead {
    /// The text of the entry.
    Text(Seq<char>),
    /// There is no such entry, or it cannot be opened without a password.
    Missing,
    /// The entry was found and could not be read to its end as text.
    Unreadable,
}

/// Why an entry could not be read, with the archive's own report.
#[derive(Debug)]
pub enum EntryFailure {
    /// The entry could not be found or opened.
    Find(String),
    /// The entry could not be read to its end as text.
    Read(String),
}

/// `ZipArchive::new` over a copy of the bytes. Whether it succeeds depends on the bytes
/// alone; where it fails, the error's own text comes back.
#[verifier::external_body]
pub(crate) fn open_archive(data: &[u8]) -> (r: Result<ZipArchive<Cursor<Vec<u8>>>, String>)
    ensures
        r is Ok == image_is_archive(data@),
        r matches Ok(archive) ==> archive_image(archive) == data@,
{
    ZipArchive::new(Cursor::new(data.to_vec())).map_err(|e| e.to_string())
}

/// `ZipArchive::by_name_decrypt` with an empty password and, on the entry it gives,
/// `Read::read_to_string`. An entry that is not encrypted is read as it is; one that is
/// counts as missing unless the empty password opens it. Reading leaves the bytes of the
/// archive as they are.
#[verifier::external_body]
pub(crate) fn read_entry(archive: &mut ZipArchive<Cursor<Vec<u8>>>, name: &str) -> (r: Result<
    String,
    EntryFailure,
>)
    ensures
        archive_image(*final(archive)) == archive_image(*old(archive)),
        match image_entry(archive_image(*old(archive)), name@) {
            EntryRead::Text(text) => r matches Ok(content) && content@ == text,
            EntryRead::Missing => r matches Err(EntryFailure::Find(_)),
            EntryRead::Unreadable => r matches Err(EntryFailure::Read(_)),
        },
{
    let mut file = match archive.by_name_decrypt(name, b"") {
        Ok(Ok(file)) => file,
        Ok(Err(e)) => return Err(EntryFailure::Find(e.to_string())),
        Err(e) => return Err(EntryFailure::Find(e.to_string())),
    };
    let mut content = String::new();
    match file.read_to_string(&mut content) {
        Ok(_) => Ok(content),
        Err(e) => Err(EntryFailure::Read(e.to_string())),
    }
}

} // verus!
