use respack::loader::assemble_pack;
use respack::metadata::ParseError;

fn entries(list: &[(&str, &[u8])]) -> Vec<(Vec<u8>, Vec<u8>)> {
    list.iter().map(|(n, c)| (n.as_bytes().to_vec(), c.to_vec())).collect()
}

const GOOD_A: &[u8] = b"<info><name>A</name></info>";
const GOOD_B: &[u8] = b"<info><name>B</name></info>";
const BAD: &[u8] = b"<<< not xml";

#[test]
fn no_candidates_yields_default() {
    let e = entries(&[("readme.txt", b"hello"), ("art/image.png", b"\x89PNG")]);
    let pack = assemble_pack(&e, String::from("p.zip")).unwrap();
    assert_eq!(pack.path, "p.zip");
    assert_eq!(pack.data.info.name, None);
    assert_eq!(pack.data.info.author, None);
    assert_eq!(pack.data.info.description, None);
    assert_eq!(pack.data.info.link, None);
}

#[test]
fn empty_archive_yields_default() {
    let e = entries(&[]);
    let pack = assemble_pack(&e, String::from("p.zip")).unwrap();
    assert_eq!(pack.data.info.name, None);
}

#[test]
fn info_xml_selected() {
    let e = entries(&[("info.xml", GOOD_A)]);
    let pack = assemble_pack(&e, String::from("p.zip")).unwrap();
    assert_eq!(pack.data.info.name.as_deref(), Some("A"));
}

#[test]
fn reserved_names_never_selected() {
    // The reserved documents hold bytes that would be fatal if parsed:
    // success shows they were never candidates.
    let e = entries(&[
        ("info.xml", GOOD_A),
        ("songs.xml", BAD),
        ("images.xml", BAD),
        ("anims.xml", BAD),
        ("SONGS.XML", BAD),
    ]);
    let pack = assemble_pack(&e, String::from("p.zip")).unwrap();
    assert_eq!(pack.data.info.name.as_deref(), Some("A"));
}

#[test]
fn reserved_only_yields_default() {
    let e = entries(&[("songs.xml", GOOD_A)]);
    let pack = assemble_pack(&e, String::from("p.zip")).unwrap();
    assert_eq!(pack.data.info.name, None);
}

#[test]
fn case_insensitive_selection() {
    for name in ["INFO.XML", "Info.Xml", "info.xml", "pack/INFO.xml"] {
        let e = entries(&[(name, GOOD_A)]);
        let pack = assemble_pack(&e, String::from("p.zip")).unwrap();
        assert_eq!(pack.data.info.name.as_deref(), Some("A"), "name {name} not selected");
    }
}

#[test]
fn fallback_candidate_used() {
    let e = entries(&[("meta.xml", GOOD_A)]);
    let pack = assemble_pack(&e, String::from("p.zip")).unwrap();
    assert_eq!(pack.data.info.name.as_deref(), Some("A"));
}

#[test]
fn last_candidate_wins() {
    let e = entries(&[("a.xml", GOOD_A), ("b.xml", GOOD_B)]);
    let pack = assemble_pack(&e, String::from("p.zip")).unwrap();
    assert_eq!(pack.data.info.name.as_deref(), Some("B"));
}

#[test]
fn malformed_candidate_fatal() {
    let e = entries(&[("info.xml", BAD)]);
    assert_eq!(assemble_pack(&e, String::from("p.zip")), Err(ParseError::Malformed));
}

#[test]
fn malformed_candidate_fatal_even_with_later_good_one() {
    let e = entries(&[("a.xml", BAD), ("b.xml", GOOD_B)]);
    assert_eq!(assemble_pack(&e, String::from("p.zip")), Err(ParseError::Malformed));
}

#[test]
fn traversal_names_excluded_but_not_fatal() {
    // Unsafe stored names are skipped, whatever they hold, and the scan
    // goes on: the safe candidate after them still wins.
    let e = entries(&[
        ("../evil.xml", BAD),
        ("a/../evil.xml", GOOD_B),
        ("..", b""),
        ("info.xml", GOOD_A),
    ]);
    let pack = assemble_pack(&e, String::from("p.zip")).unwrap();
    assert_eq!(pack.data.info.name.as_deref(), Some("A"));
}

#[test]
fn unsafe_names_excluded() {
    for name in ["/abs.xml", "c:\\evil.xml", "d:evil.xml", "dir\\info.xml", "../info.xml"] {
        let e = entries(&[(name, GOOD_A)]);
        let pack = assemble_pack(&e, String::from("p.zip")).unwrap();
        assert_eq!(pack.data.info.name, None, "unsafe name {name} was selected");
    }
}

#[test]
fn dot_dot_inside_file_name_is_allowed() {
    // Only a whole `..` segment is a traversal; a file name that merely
    // contains dots is safe.
    let e = entries(&[("a..b/info.xml", GOOD_A)]);
    let pack = assemble_pack(&e, String::from("p.zip")).unwrap();
    assert_eq!(pack.data.info.name.as_deref(), Some("A"));
}
