//! Extracting the manifest from an APK
//!
//! An APK is a zip archive; its binary manifest is the entry named
//! `AndroidManifest.xml`. The `zip` crate reads the archive.

use vstd::prelude::*;
use std::io::Read;
use crate::cursor::ByteCursor;
use crate::errors::AxmlError;

verus! {

/// What reading the entry `name` of the zip archive whose bytes are
/// `archive` gives: `Err(ZipFileError)` when the archive cannot be read,
/// `Ok(None)` when it has no such entry (or the entry cannot be opened),
/// `Err(IoError)` when the entry's data cannot be read, and otherwise the
/// entry's uncompressed bytes.
pub uninterp spec fn zip_entry(archive: Seq<u8>, name: Seq<char>) -> Result<Option<Seq<u8>>, AxmlError>;

/// Reads entry `name` of the zip archive in `archive` with
/// `zip::ZipArchive::new`, `ZipArchive::by_name` and `Read::read_to_end` on
/// the entry. The outcome, a function of the bytes and the name alone, is
/// named by `zip_entry`.
#[verifier::external_body]
fn zip_read_entry(archive: &[u8], name: &str) -> (r: Result<Option<Vec<u8>>, AxmlError>)
    ensures
        zip_entry(archive@, name@) == match r {
            Ok(Some(b)) => Ok::<Option<Seq<u8>>, AxmlError>(Some(b@)),
            Ok(None) => Ok::<Option<Seq<u8>>, AxmlError>(None),
            Err(e) => Err::<Option<Seq<u8>>, AxmlError>(e),
        },
{
    let mut zip = match zip::ZipArchive::new(std::io::Cursor::new(archive)) {
        Ok(z) => z,
        Err(_) => return Err(AxmlError::ZipFileError),
    };
    let mut entry = match zip.by_name(name) {
        Ok(f) => f,
        Err(_) => return Ok(None),
    };
    let mut bytes = Vec::new();
    match entry.read_to_end(&mut bytes) {
        Ok(_) => Ok(Some(bytes)),
        Err(_) => Err(AxmlError::IoError),
    }
}

/// The name of the manifest inside an APK: `AndroidManifest.xml`
pub open spec fn manifest_entry_name() -> Seq<char> {
    seq!['A', 'n', 'd', 'r', 'o', 'i', 'd', 'M', 'a', 'n', 'i', 'f', 'e', 's', 't', '.', 'x', 'm', 'l']
}

/// A cursor at the start of an archive entry that was read, if any
pub fn cursor_of_entry(entry: Result<Option<Vec<u8>>, AxmlError>) -> (r: Result<Option<ByteCursor>, AxmlError>)
    ensures
        match entry {
            Ok(Some(b)) => r matches Ok(Some(c)) && c.bytes() == b@ && c.at() == 0,
            Ok(None) => r is Ok && r->Ok_0 is None,
            Err(e) => r is Err && r->Err_0 == e,
        },
{
    match entry {
        Ok(Some(bytes)) => Ok(Some(ByteCursor::new(bytes))),
        Ok(None) => Ok(None),
        Err(e) => Err(e),
    }
}

/// Extract the manifest from the bytes of an APK
///
/// Gives a cursor at the start of the manifest's bytes, `None` when the
/// archive has no manifest, and an error when the archive (`ZipFileError`)
/// or the manifest's data (`IoError`) cannot be read.
pub fn manifest_from_apk_bytes(apk: &[u8]) -> (r: Result<Option<ByteCursor>, AxmlError>)
    ensures
        match zip_entry(apk@, manifest_entry_name()) {
            Ok(Some(b)) => r matches Ok(Some(c)) && c.bytes() == b && c.at() == 0,
            Ok(None) => r is Ok && r->Ok_0 is None,
            Err(e) => r is Err && r->Err_0 == e,
        },
{
    let name = "AndroidManifest.xml";
    proof {
        reveal_strlit("AndroidManifest.xml");
        assert(name@ =~= manifest_entry_name());
    }
    cursor_of_entry(zip_read_entry(apk, name))
}

} // verus!
