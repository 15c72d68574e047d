//! The archive writer of the `zip` crate, as far as the library uses it.
//!
//! Nothing in this file is proved: each contract states what the crate's
//! source shows of the function that the body calls.

use vstd::prelude::*;
use vstd::string::StringSliceAdditionalSpecFns;

verus! {

/// The error type of the `zip` crate.
#[verifier::external_type_specification]
#[verifier::external_body]
pub struct ExZipError(zip::result::ZipError);

/// A `zip::ZipWriter` that builds its archive in memory.
///
/// Every writer that this file hands out has either no entry yet or its last
/// entry open for writing, and no call on it has failed: a writer is given
/// up with the call that fails.
#[verifier::external_body]
pub struct ArchiveWriter {
    inner: zip::ZipWriter<std::io::Cursor<Vec<u8>>>,
}

/// The entries that a writer holds, each with its name and the bytes written
/// to it so far, in the order in which they were started.
pub uninterp spec fn archive_entries(w: ArchiveWriter) -> Seq<(Seq<char>, Seq<u8>)>;

/// The bytes of the archive that `ZipWriter::finish` produces for stored
/// entries that bear the crate's fixed date and its default options
/// otherwise: the bytes follow from the entries alone.
pub uninterp spec fn archive_image(entries: Seq<(Seq<char>, Seq<u8>)>) -> Seq<u8>;

/// The most bytes that an entry can hold.
pub const MAX_ENTRY_BYTES: u64 = 0xFFFF_FFFF;

/// Whether one of the entries has the name.
pub open spec fn holds_name(entries: Seq<(Seq<char>, Seq<u8>)>, name: Seq<char>) -> bool {
    exists|i: int| 0 <= i < entries.len() && (#[trigger] entries[i]).0 == name
}

/// `ZipWriter::new` over an empty buffer: the writer holds no entry.
#[verifier::external_body]
pub(crate) fn open_archive() -> (w: ArchiveWriter)
    ensures
        archive_entries(w) == Seq::<(Seq<char>, Seq<u8>)>::empty(),
{
    ArchiveWriter { inner: zip::ZipWriter::new(std::io::Cursor::new(Vec::new())) }
}

/// `ZipWriter::start_file` with the method `Stored`, the date 1980-01-01
/// and the default options otherwise. It succeeds where no entry has the
/// name yet, and there only: writing to the buffer does not fail. The entry
/// before is then closed, and a new, empty entry named `name` is the last
/// one. A name of more than 65535 bytes makes it panic, so such a name is
/// not let in.
#[verifier::external_body]
pub(crate) fn start_stored_entry(w: ArchiveWriter, name: &str) -> (r: Result<
    ArchiveWriter,
    zip::result::ZipError,
>)
    requires
        name.spec_bytes().len() <= 0xFFFF,
    ensures
        r is Ok <==> !holds_name(archive_entries(w), name@),
        r matches Ok(next) ==> archive_entries(next) == archive_entries(w).push(
            (name@, Seq::<u8>::empty()),
        ),
{
    let mut w = w;
    let options = zip::write::SimpleFileOptions::default()
        .compression_method(zip::CompressionMethod::Stored)
        .last_modified_time(zip::DateTime::default());
    match w.inner.start_file(name, options) {
        Ok(()) => Ok(w),
        Err(e) => Err(e),
    }
}

/// `Write::write_all` on a `ZipWriter`. It succeeds where the last entry
/// holds no more than [`MAX_ENTRY_BYTES`] with `data`, and there only. All
/// of `data` has then been added to the end of the last entry.
#[verifier::external_body]
pub(crate) fn write_entry(w: ArchiveWriter, data: &Vec<u8>) -> (r: Result<
    ArchiveWriter,
    zip::result::ZipError,
>)
    requires
        archive_entries(w).len() > 0,
    ensures
        r is Ok <==> archive_entries(w).last().1.len() + data@.len() <= MAX_ENTRY_BYTES,
        r matches Ok(next) ==> archive_entries(next) == archive_entries(w).drop_last().push(
            (archive_entries(w).last().0, archive_entries(w).last().1 + data@),
        ),
{
    let mut w = w;
    match std::io::Write::write_all(&mut w.inner, data.as_slice()) {
        Ok(()) => Ok(w),
        Err(e) => Err(zip::result::ZipError::Io(e)),
    }
}

/// `ZipWriter::finish`: the last entry is closed and the directory of the
/// archive is written after the entries. On a buffer in memory this does not
/// fail, and the buffer then holds the archive of the writer's entries.
#[verifier::external_body]
pub(crate) fn finish_archive(w: ArchiveWriter) -> (r: Result<Vec<u8>, zip::result::ZipError>)
    ensures
        r is Ok,
        r matches Ok(bytes) ==> bytes@ == archive_image(archive_entries(w)),
{
    match w.inner.finish() {
        Ok(buffer) => Ok(buffer.into_inner()),
        Err(e) => Err(e),
    }
}

} // verus!
