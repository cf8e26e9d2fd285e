//! The archive-reading collaborator: the `zip` crate, behind trusted
//! declarations.
//!
//! An open archive is modelled as the sequence of records its central
//! directory holds ([`entries_of`]); each record carries the entry's
//! logical path, its directory flag and its decompressed bytes. The
//! declarations below say no more of the `zip` crate than its source
//! shows.

use vstd::prelude::*;
use std::io::Cursor;
use std::io::Read;

verus! {

/// One central-directory record, as this library models it: the entry's
/// logical path (`None` when the container reports the raw path as
/// unrepresentable or unsafe), its directory flag, and its decompressed
/// bytes.
pub struct ZipEntry {
    /// The normalized path, or `None` for a path that would escape the
    /// extraction root or cannot be represented. The separator in the
    /// normalized path is the build target's, so the model is fixed per
    /// build.
    pub path: Option<Seq<char>>,
    /// Whether the record marks a directory.
    pub is_dir: bool,
    /// The entry's bytes after decompression.
    pub data: Seq<u8>,
    /// Whether the reader can look the record up at all; the lookup fails
    /// on, for example, an encrypted entry or an unsupported compression
    /// method. The archive lives in memory, so this is a fact of the
    /// record, not of the moment.
    pub meta_ok: bool,
    /// Whether looking the record up and decompressing its bytes in full
    /// succeeds; a truncated or corrupt stream, or a checksum mismatch,
    /// fails. As with [`ZipEntry::meta_ok`], a fact of the record.
    pub read_ok: bool,
}

#[verifier::external_type_specification]
#[verifier::external_body]
#[verifier::reject_recursive_types(T)]
pub struct ExCursor<T>(Cursor<T>);

#[verifier::external_type_specification]
#[verifier::external_body]
#[verifier::reject_recursive_types(R)]
pub struct ExZipArchive<R>(zip::ZipArchive<R>);

#[verifier::external_type_specification]
#[verifier::external_body]
pub struct ExZipError(zip::result::ZipError);

/// The records that an open archive holds, in central-directory order.
pub uninterp spec fn entries_of(a: zip::ZipArchive<Cursor<Vec<u8>>>) -> Seq<ZipEntry>;

/// The records that `zip::ZipArchive::new` parses out of the given bytes:
/// a function of the bytes alone.
pub uninterp spec fn parsed_entries(bytes: Seq<u8>) -> Seq<ZipEntry>;

/// Whether `zip::ZipArchive::new` accepts the given bytes as a well-formed
/// archive: like [`parsed_entries`], a function of the bytes alone.
pub uninterp spec fn parse_ok(bytes: Seq<u8>) -> bool;

/// The one error the library surfaces: the bytes are not a well-formed
/// archive, or an entry's bytes could not be read out of it.
#[derive(Debug)]
pub struct JarError {
    /// What the archive reader reported.
    pub cause: zip::result::ZipError,
}

impl JarError {
    /// Wraps what the archive reader reported.
    pub fn new(cause: zip::result::ZipError) -> (r: JarError)
        ensures
            r.cause == cause,
    {
        JarError { cause }
    }
}

/// Relies on `zip::ZipArchive::new`: it parses the central directory of
/// the given bytes, and reports an error on bytes that are not a
/// well-formed archive; both the records and the verdict are functions of
/// the bytes alone.
#[verifier::external_body]
pub(crate) fn open_archive(bytes: Vec<u8>) -> (r: Result<
    zip::ZipArchive<Cursor<Vec<u8>>>,
    zip::result::ZipError,
>)
    ensures
        (r is Ok <==> parse_ok(bytes@)),
        (r matches Ok(a) ==> entries_of(a) == parsed_entries(bytes@)),
{
    zip::ZipArchive::new(Cursor::new(bytes))
}

/// Relies on `zip::ZipArchive::len`: the number of records in the central
/// directory.
#[verifier::external_body]
pub(crate) fn archive_len(a: &zip::ZipArchive<Cursor<Vec<u8>>>) -> (n: usize)
    ensures
        n == entries_of(*a).len(),
{
    a.len()
}

/// Relies on `zip::ZipArchive::by_index`, `ZipFile::enclosed_name` and
/// `ZipFile::is_dir`: the record's logical path (`None` when the raw path
/// cannot be safely represented) and its directory flag; whether the
/// lookup succeeds is the record's [`ZipEntry::meta_ok`], a function of
/// the in-memory archive alone. Reading moves the underlying cursor but
/// never the directory's records.
#[verifier::external_body]
pub(crate) fn entry_meta(a: &mut zip::ZipArchive<Cursor<Vec<u8>>>, i: usize) -> (r: Result<
    (Option<String>, bool),
    zip::result::ZipError,
>)
    requires
        i < entries_of(*old(a)).len(),
    ensures
        entries_of(*final(a)) == entries_of(*old(a)),
        (r is Ok <==> entries_of(*old(a))[i as int].meta_ok),
        (r matches Ok(m) ==> {
            let e = entries_of(*old(a))[i as int];
            &&& m.1 == e.is_dir
            &&& (m.0 is Some <==> e.path is Some)
            &&& (m.0 matches Some(p) ==> e.path == Some(p@))
        }),
{
    let file = a.by_index(i)?;
    let path = file.enclosed_name().map(|p| p.to_string_lossy().into_owned());
    Ok((path, file.is_dir()))
}

/// Relies on `zip::ZipArchive::by_index` and `std::io::Read::read_to_end`
/// on the returned `ZipFile`: the record's decompressed bytes, a function
/// of the archive alone; whether the lookup and the full read succeed is
/// the record's [`ZipEntry::read_ok`], again a function of the in-memory
/// archive alone, and a read that fails partway reports an error instead.
/// Reading moves the underlying cursor but never the directory's records.
#[verifier::external_body]
pub(crate) fn entry_bytes(a: &mut zip::ZipArchive<Cursor<Vec<u8>>>, i: usize) -> (r: Result<
    Vec<u8>,
    zip::result::ZipError,
>)
    requires
        i < entries_of(*old(a)).len(),
    ensures
        entries_of(*final(a)) == entries_of(*old(a)),
        (r is Ok <==> entries_of(*old(a))[i as int].read_ok),
        (r matches Ok(v) ==> v@ == entries_of(*old(a))[i as int].data),
{
    let mut file = a.by_index(i)?;
    let mut buf = Vec::new();
    match file.read_to_end(&mut buf) {
        Ok(_) => Ok(buf),
        Err(e) => Err(zip::result::ZipError::Io(e)),
    }
}

} // verus!
