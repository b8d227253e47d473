use std::io::{Cursor, Write};

use respack::metadata::{ArchiveError, ParseError, Respack, RespackError};
use zip::write::SimpleFileOptions;
use zip::ZipWriter;

fn make_zip(entries: &[(&str, &[u8])]) -> Vec<u8> {
    let mut writer = ZipWriter::new(Cursor::new(Vec::new()));
    for (name, content) in entries {
        writer.start_file(*name, SimpleFileOptions::default()).unwrap();
        writer.write_all(content).unwrap();
    }
    writer.finish().unwrap().into_inner()
}

fn load(entries: &[(&str, &[u8])]) -> Result<Respack, RespackError> {
    Respack::load_from_bytes(make_zip(entries), String::from("pack.zip"))
}

const GOOD: &[u8] = b"<info><name>Hues</name></info>";
const BAD: &[u8] = b"<info><name>oops";

#[test]
fn empty_archive_loads_with_default_metadata() {
    let pack = load(&[]).unwrap();
    assert_eq!(pack.path, "pack.zip");
    assert_eq!(pack.data.info.name, None);
    assert_eq!(pack.data.info.author, None);
    assert_eq!(pack.data.info.description, None);
    assert_eq!(pack.data.info.link, None);
}

#[test]
fn archive_without_xml_loads_with_default_metadata() {
    let pack = load(&[("readme.txt", b"hi"), ("img/a.png", b"png")]).unwrap();
    assert_eq!(pack.data.info.name, None);
}

#[test]
fn info_xml_with_only_name() {
    let pack = load(&[("info.xml", GOOD)]).unwrap();
    assert_eq!(pack.data.info.name.as_deref(), Some("Hues"));
    assert_eq!(pack.data.info.author, None);
    assert_eq!(pack.data.info.description, None);
    assert_eq!(pack.data.info.link, None);
}

#[test]
fn reserved_entry_never_parsed() {
    let pack = load(&[("info.xml", GOOD), ("songs.xml", BAD)]).unwrap();
    assert_eq!(pack.data.info.name.as_deref(), Some("Hues"));
}

#[test]
fn malformed_metadata_is_a_parse_error() {
    let err = load(&[("info.xml", BAD)]).unwrap_err();
    assert_eq!(err, RespackError::Parse(ParseError::Malformed));
}

#[test]
fn loading_twice_yields_equal_packs() {
    let bytes = make_zip(&[("info.xml", GOOD), ("other.txt", b"x")]);
    let p1 = Respack::load_from_bytes(bytes.clone(), String::from("pack.zip")).unwrap();
    let p2 = Respack::load_from_bytes(bytes, String::from("pack.zip")).unwrap();
    assert_eq!(p1, p2);
}

#[test]
fn entry_name_matching_is_case_insensitive() {
    for name in ["INFO.XML", "Info.Xml", "info.xml"] {
        let pack = load(&[(name, GOOD)]).unwrap();
        assert_eq!(pack.data.info.name.as_deref(), Some("Hues"), "name {name} not selected");
    }
}

#[test]
fn traversal_entry_is_skipped_not_fatal() {
    let pack = load(&[("../evil.xml", BAD), ("info.xml", GOOD)]).unwrap();
    assert_eq!(pack.data.info.name.as_deref(), Some("Hues"));
}

#[test]
fn traversal_entry_alone_leaves_default() {
    let pack = load(&[("../evil.xml", GOOD)]).unwrap();
    assert_eq!(pack.data.info.name, None);
}

#[test]
fn nested_info_xml_is_found() {
    let pack = load(&[("respack/info.xml", GOOD)]).unwrap();
    assert_eq!(pack.data.info.name.as_deref(), Some("Hues"));
}

#[test]
fn garbage_bytes_are_a_corrupt_archive() {
    let err =
        Respack::load_from_bytes(b"not a zip at all".to_vec(), String::from("pack.zip"))
            .unwrap_err();
    assert_eq!(err, RespackError::Archive(ArchiveError::CorruptArchive));
}

#[test]
fn tolerated_document_shapes_load() {
    let doc = "<?xml version=\"1.0\"?><info v=\"1\"><!-- c --><name>H\u{fc}s</name><x><y/></x></info>";
    let pack = load(&[("info.xml", doc.as_bytes())]).unwrap();
    assert_eq!(pack.data.info.name.as_deref(), Some("H\u{fc}s"));
}

fn make_stored_zip(entries: &[(&str, &[u8])]) -> Vec<u8> {
    let stored = SimpleFileOptions::default().compression_method(zip::CompressionMethod::Stored);
    let mut writer = ZipWriter::new(Cursor::new(Vec::new()));
    for (name, content) in entries {
        writer.start_file(*name, stored).unwrap();
        writer.write_all(content).unwrap();
    }
    writer.finish().unwrap().into_inner()
}

/// Flips one byte inside the (stored, verbatim) content that contains
/// `marker`, so that entry's CRC check fails when its data is read.
fn corrupt_content(bytes: &mut [u8], marker: &[u8]) {
    let pos = bytes
        .windows(marker.len())
        .position(|w| w == marker)
        .expect("marker not found in archive bytes");
    bytes[pos] ^= 0xff;
}

#[test]
fn corrupt_unselected_entry_is_never_read() {
    // The scan selects by name alone: a skipped entry's data is never
    // decompressed, so its corruption cannot fail the load.
    let mut bytes = make_stored_zip(&[
        ("junk.bin", b"JUNKJUNKJUNK"),
        ("../evil.xml", b"EVILEVILEVIL"),
        ("info.xml", GOOD),
    ]);
    corrupt_content(&mut bytes, b"JUNKJUNKJUNK");
    corrupt_content(&mut bytes, b"EVILEVILEVIL");
    let pack = Respack::load_from_bytes(bytes, String::from("pack.zip")).unwrap();
    assert_eq!(pack.data.info.name.as_deref(), Some("Hues"));
}

#[test]
fn corrupt_unselected_entry_still_loads_defaults() {
    let mut bytes = make_stored_zip(&[("junk.bin", b"JUNKJUNKJUNK")]);
    corrupt_content(&mut bytes, b"JUNKJUNKJUNK");
    let pack = Respack::load_from_bytes(bytes, String::from("pack.zip")).unwrap();
    assert_eq!(pack.data.info.name, None);
}

#[test]
fn corrupt_selected_candidate_is_a_corrupt_entry() {
    let mut bytes = make_stored_zip(&[("info.xml", GOOD)]);
    corrupt_content(&mut bytes, GOOD);
    let err = Respack::load_from_bytes(bytes, String::from("pack.zip")).unwrap_err();
    assert_eq!(err, RespackError::Archive(ArchiveError::CorruptEntry));
}

#[test]
fn parse_failure_is_returned_before_later_entries_are_touched() {
    // The malformed candidate at the lower index decides the load; the
    // corrupt entry after it is never read.
    let mut bytes = make_stored_zip(&[("a.xml", BAD), ("zz.bin", b"JUNKJUNKJUNK")]);
    corrupt_content(&mut bytes, b"JUNKJUNKJUNK");
    let err = Respack::load_from_bytes(bytes, String::from("pack.zip")).unwrap_err();
    assert_eq!(err, RespackError::Parse(ParseError::Malformed));
}

#[test]
fn error_descriptions() {
    assert_eq!(
        RespackError::Parse(ParseError::Malformed).describe(),
        "resource pack metadata is malformed"
    );
    assert_eq!(
        RespackError::Archive(ArchiveError::NotFound).describe(),
        "resource pack archive not found"
    );
    assert_eq!(
        RespackError::Archive(ArchiveError::CorruptArchive).describe(),
        "resource pack archive is corrupt"
    );
}
