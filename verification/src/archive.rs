//! ZIP archives held in memory, read through the `zip` crate.
//!
//! Nothing in this module is proved: each item states what the `zip` crate is
//! trusted to do. What an archive holds is a function of its bytes alone, so the
//! results are named by uninterpreted functions of those bytes.

use std::io::Cursor;
use std::io::Read;
use vstd::prelude::*;
use zip::read::ZipArchive;
use zip::result::ZipError;

verus! {

/// Declares `zip::read::ZipArchive` as an opaque type: an opened archive.
#[verifier::external_type_specification]
#[verifier::external_body]
#[verifier::reject_recursive_types(R)]
pub struct ExZipArchive<R>(ZipArchive<R>);

/// Declares `std::io::Cursor` as an opaque type: the reader over the bytes of
/// an archive.
#[verifier::external_type_specification]
#[verifier::external_body]
#[verifier::reject_recursive_types(T)]
pub struct ExCursor<T>(Cursor<T>);

/// Declares `zip::result::ZipError` as an opaque type: the error of every
/// operation on an archive.
#[verifier::external_type_specification]
#[verifier::external_body]
pub struct ExZipError(ZipError);

/// The bytes that an opened archive reads from.
pub uninterp spec fn archive_source(archive: ZipArchive<Cursor<Vec<u8>>>) -> Seq<u8>;

/// Whether `bytes` can be opened as a ZIP archive.
pub uninterp spec fn zip_opens(bytes: Seq<u8>) -> bool;

/// The number of entries of the archive `bytes`, as its central directory lists
/// them.
pub uninterp spec fn zip_entry_count(bytes: Seq<u8>) -> nat;

/// The name of entry `index` of the archive `bytes`; `None` where there is no such
/// entry or its name cannot be decoded.
pub uninterp spec fn zip_entry_name(bytes: Seq<u8>, index: int) -> Option<Seq<char>>;

/// The decompressed content of entry `index` of the archive `bytes`; `None` where
/// there is no such entry or it cannot be read in full.
pub uninterp spec fn zip_entry_payload(bytes: Seq<u8>, index: int) -> Option<Seq<u8>>;

/// Calls `ZipArchive::new` on a cursor over `bytes`. Trusted: whether the bytes
/// open is [`zip_opens`], and the archive reads from exactly these bytes.
#[verifier::external_body]
pub(crate) fn open_archive(bytes: Vec<u8>) -> (r: Result<ZipArchive<Cursor<Vec<u8>>>, ZipError>)
    ensures
        r is Ok <==> zip_opens(bytes@),
        r matches Ok(archive) ==> archive_source(archive) == bytes@,
{
    ZipArchive::new(Cursor::new(bytes))
}

/// Calls `ZipArchive::len`. Trusted: the result is [`zip_entry_count`] of the
/// archive's bytes.
#[verifier::external_body]
pub(crate) fn entry_count(archive: &ZipArchive<Cursor<Vec<u8>>>) -> (n: usize)
    ensures
        n == zip_entry_count(archive_source(*archive)),
{
    archive.len()
}

/// Calls `ZipArchive::name_for_index`. Trusted: a name that comes back is
/// [`zip_entry_name`] of the archive's bytes, and where none comes back, for want
/// of such an entry or of a decodable name, `zip_entry_name` is `None`.
#[verifier::external_body]
pub(crate) fn entry_name(archive: &ZipArchive<Cursor<Vec<u8>>>, index: usize) -> (r: Option<
    Result<String, ZipError>,
>)
    ensures
        match r {
            Some(Ok(name)) => zip_entry_name(archive_source(*archive), index as int) == Some(
                name@,
            ),
            _ => zip_entry_name(archive_source(*archive), index as int) is None,
        },
{
    archive.name_for_index(index).map(|name| name.map(|n| n.into_owned()))
}

/// Calls `ZipArchive::by_index` and reads the entry to its end. Trusted: the
/// archive still reads from the same bytes; content that comes back is
/// [`zip_entry_payload`] of those bytes, and on an error `zip_entry_payload` is
/// `None`.
#[verifier::external_body]
pub(crate) fn entry_payload(archive: &mut ZipArchive<Cursor<Vec<u8>>>, index: usize) -> (r: Result<
    Vec<u8>,
    ZipError,
>)
    ensures
        archive_source(*final(archive)) == archive_source(*old(archive)),
        match r {
            Ok(payload) => zip_entry_payload(archive_source(*old(archive)), index as int) == Some(
                payload@,
            ),
            Err(_) => zip_entry_payload(archive_source(*old(archive)), index as int) is None,
        },
{
    let mut file = archive.by_index(index)?;
    let mut payload = Vec::new();
    file.read_to_end(&mut payload)?;
    Ok(payload)
}

/// The text that `ZipError`'s `Display` gives for `error`. Nothing is claimed of it.
#[verifier::external_body]
pub(crate) fn zip_error_text(error: &ZipError) -> (text: String)
{
    error.to_string()
}

} // verus!
