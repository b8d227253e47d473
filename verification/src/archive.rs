//! Reading a zip archive held in memory, behind trusted wrappers over the
//! `zip` crate. The archive's contents are modelled as a sequence of
//! (stored name, decompressed bytes) pairs in index order; whether opening
//! and each entry read succeed is named too, since over an in-memory
//! cursor both are functions of the archive bytes alone. An entry's name
//! comes from the central directory without touching its data, so callers
//! can select entries by name and decompress only what they select.

use vstd::prelude::*;

use crate::metadata::ArchiveError;

verus! {

#[verifier::external_type_specification]
#[verifier::external_body]
#[verifier::reject_recursive_types(T)]
pub struct ExCursor<T>(std::io::Cursor<T>);

#[verifier::external_type_specification]
#[verifier::external_body]
#[verifier::reject_recursive_types(R)]
pub struct ExZipArchive<R>(zip::ZipArchive<R>);

/// What an open archive holds: for each entry, in index order, its decoded
/// stored name and its decompressed bytes.
pub uninterp spec fn archive_entries(a: zip::ZipArchive<std::io::Cursor<Vec<u8>>>) -> Seq<
    (Seq<u8>, Seq<u8>),
>;

/// How reading each entry of an open archive turns out: `None` where the
/// read succeeds, the error where it does not. The outcome depends on the
/// central directory and the archive bytes alone, never on the cursor
/// position, so it is a function of the archive value.
pub uninterp spec fn entry_errors(a: zip::ZipArchive<std::io::Cursor<Vec<u8>>>) -> Seq<
    Option<ArchiveError>,
>;

/// What `zip`'s central-directory parse yields on given archive bytes,
/// under the library's error taxonomy: the entries, or why the bytes are
/// no archive. Parsing an in-memory cursor is deterministic, so this is a
/// function of the bytes alone.
pub uninterp spec fn zip_parse(bytes: Seq<u8>) -> Result<Seq<(Seq<u8>, Seq<u8>)>, ArchiveError>;

/// How reading each entry of the archive the bytes denote turns out, as a
/// function of the bytes alone.
pub uninterp spec fn zip_entry_errors(bytes: Seq<u8>) -> Seq<Option<ArchiveError>>;

/// Relies on `zip::ZipArchive::new` over an in-memory cursor: it parses
/// the central directory of the bytes, deterministically, succeeding
/// exactly where the bytes form a readable archive.
#[verifier::external_body]
pub(crate) fn open_archive(bytes: Vec<u8>) -> (r: Result<
    zip::ZipArchive<std::io::Cursor<Vec<u8>>>,
    ArchiveError,
>)
    ensures
        (match zip_parse(bytes@) {
            Ok(entries) => r matches Ok(a) && archive_entries(a) == entries && entry_errors(a)
                == zip_entry_errors(bytes@) && zip_entry_errors(bytes@).len() == entries.len(),
            Err(e) => r == Err::<zip::ZipArchive<std::io::Cursor<Vec<u8>>>, _>(e),
        }),
{
    match zip::ZipArchive::new(std::io::Cursor::new(bytes)) {
        Ok(a) => Ok(a),
        Err(zip::result::ZipError::Io(_)) => Err(ArchiveError::Io),
        Err(_) => Err(ArchiveError::CorruptArchive),
    }
}

/// Relies on `zip::ZipArchive::len`: the number of entries the central
/// directory holds.
#[verifier::external_body]
pub(crate) fn archive_len(a: &zip::ZipArchive<std::io::Cursor<Vec<u8>>>) -> (n: usize)
    ensures
        n as int == archive_entries(*a).len(),
{
    a.len()
}

/// Relies on `zip::ZipArchive::name_for_index`: the decoded stored name of
/// entry `i`, read from the central directory alone, with no entry I/O and
/// no way to fail within bounds.
#[verifier::external_body]
pub(crate) fn entry_name(a: &zip::ZipArchive<std::io::Cursor<Vec<u8>>>, i: usize) -> (r: Vec<u8>)
    requires
        i < archive_entries(*a).len(),
    ensures
        r@ == archive_entries(*a)[i as int].0,
{
    match a.name_for_index(i) {
        Some(n) => n.as_bytes().to_vec(),
        None => Vec::new(),
    }
}

/// Relies on `zip::ZipArchive::by_index` for the entry and its decoded
/// name, and on `std::io::Read::read_to_end` for its decompressed bytes.
/// Neither touches the set of entries, and the outcome of reading an entry
/// does not depend on the cursor position, so both named views of the
/// archive survive the call.
#[verifier::external_body]
pub(crate) fn read_entry(a: &mut zip::ZipArchive<std::io::Cursor<Vec<u8>>>, i: usize) -> (r: Result<
    (Vec<u8>, Vec<u8>),
    ArchiveError,
>)
    requires
        i < archive_entries(*old(a)).len(),
    ensures
        archive_entries(*final(a)) == archive_entries(*old(a)),
        entry_errors(*final(a)) == entry_errors(*old(a)),
        (match entry_errors(*old(a))[i as int] {
            None => r matches Ok(e) && e.0@ == archive_entries(*old(a))[i as int].0 && e.1@
                == archive_entries(*old(a))[i as int].1,
            Some(err) => r == Err::<(Vec<u8>, Vec<u8>), _>(err),
        }),
{
    let mut f = match a.by_index(i) {
        Ok(f) => f,
        Err(zip::result::ZipError::Io(_)) => return Err(ArchiveError::Io),
        Err(_) => return Err(ArchiveError::CorruptEntry),
    };
    let name: Vec<u8> = f.name().as_bytes().to_vec();
    let mut data: Vec<u8> = Vec::new();
    if std::io::Read::read_to_end(&mut f, &mut data).is_err() {
        return Err(ArchiveError::CorruptEntry);
    }
    Ok((name, data))
}

/// The element-wise view of a vector of entries.
pub open spec fn entries_view(v: Seq<(Vec<u8>, Vec<u8>)>) -> Seq<(Seq<u8>, Seq<u8>)> {
    v.map_values(|p: (Vec<u8>, Vec<u8>)| (p.0@, p.1@))
}

} // verus!
