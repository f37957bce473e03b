//! The compound-file container of a legacy presentation, as the `cfb` crate reads it.
//!
//! A container is opened over the bytes of a file. What is read from it depends on those
//! bytes alone; the verifier knows the results by name.

use vstd::prelude::*;
use cfb::CompoundFile;
use std::io::{Cursor, Read};

verus! {

/// `std::io::Cursor`, over which a container or an archive reads the bytes of a file.
#[verifier::external_type_specification]
#[verifier::external_body]
#[verifier::reject_recursive_types(T)]
pub struct ExCursor<T>(Cursor<T>);

/// `cfb::CompoundFile`, a compound file that was opened.
#[verifier::external_type_specification]
#[verifier::external_body]
#[verifier::reject_recursive_types(F)]
pub struct ExCompoundFile<F>(CompoundFile<F>);

/// The bytes over which a container was opened.
pub uninterp spec fn container_image(container: CompoundFile<Cursor<Vec<u8>>>) -> Seq<u8>;

/// Whether the bytes can be opened as a compound file.
pub uninterp spec fn image_opens(image: Seq<u8>) -> bool;

/// The names of the streams and storages that stand directly under the root of the
/// compound file that the bytes hold, in the order in which the container lists them.
pub uninterp spec fn image_root_names(image: Seq<u8>) -> Seq<Seq<char>>;

/// What comes of reading the stream at `path` in the compound file that the bytes hold.
pub uninterp spec fn image_stream(image: Seq<u8>, path: Seq<char>) -> StreamRead;

/// What comes of reading a stream.
pub enum StreamRead {
    /// The content of the stream.
    Content(Seq<u8>),
    /// There is no such stream, or it cannot be opened.
    CannotOpen,
    /// The stream was opened and could not be read to its end.
    CannotRead,
}

/// Why a stream could not be read, with the container's own report.
#[derive(Debug)]
pub enum StreamFailure {
    /// The stream could not be opened.
    Open(String),
    /// The stream could not be read to its end.
    Read(String),
}

/// The path of the stream that holds the records of a presentation.
pub open spec fn main_stream_path() -> Seq<char> {
    "/PowerPoint Document"@
}

/// `CompoundFile::open` over a copy of the bytes. Whether it succeeds depends on the bytes
/// alone; where it fails, the error's own text comes back.
#[verifier::external_body]
pub(crate) fn open_container(data: &[u8]) -> (r: Result<CompoundFile<Cursor<Vec<u8>>>, String>)
    ensures
        r is Ok == image_opens(data@),
        r matches Ok(container) ==> container_image(container) == data@,
{
    CompoundFile::open(Cursor::new(data.to_vec())).map_err(|e| e.to_string())
}

/// `CompoundFile::read_root_storage`, with `Entry::name` of each entry it gives.
#[verifier::external_body]
pub(crate) fn root_entry_names(container: &CompoundFile<Cursor<Vec<u8>>>) -> (names: Vec<String>)
    ensures
        names.deep_view() == image_root_names(container_image(*container)),
{
    container.read_root_storage().map(|entry| entry.name().to_string()).collect()
}

/// `CompoundFile::open_stream` and, on the stream it gives, `Read::read_to_end`. Reading
/// leaves the bytes of the container as they are.
#[verifier::external_body]
pub(crate) fn read_main_stream(container: &mut CompoundFile<Cursor<Vec<u8>>>, path: &str) -> (r: Result<
    Vec<u8>,
    StreamFailure,
>)
    requires
        path@ == main_stream_path(),
    ensures
        container_image(*final(container)) == container_image(*old(container)),
        match image_stream(container_image(*old(container)), path@) {
            StreamRead::Content(bytes) => r matches Ok(data) && data@ == bytes,
            StreamRead::CannotOpen => r matches Err(StreamFailure::Open(_)),
            StreamRead::CannotRead => r matches Err(StreamFailure::Read(_)),
        },
{
    let mut stream = container.open_stream(path).map_err(|e| StreamFailure::Open(e.to_string()))?;
    let mut data = Vec::new();
    match stream.read_to_end(&mut data) {
        Ok(_) => Ok(data),
        Err(e) => Err(StreamFailure::Read(e.to_string())),
    }
}

} // verus!
