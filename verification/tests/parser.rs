use respack::metadata::ParseError;
use respack::xml::parse_info;

fn parse(doc: &[u8]) -> Result<respack::metadata::RespackInfo, ParseError> {
    parse_info(&doc.to_vec())
}

#[test]
fn minimal_name_only() {
    let info = parse(b"<info><name>Foo</name></info>").unwrap();
    assert_eq!(info.name.as_deref(), Some("Foo"));
    assert_eq!(info.author, None);
    assert_eq!(info.description, None);
    assert_eq!(info.link, None);
}

#[test]
fn all_fields() {
    let info = parse(
        b"<info>\n  <name>Pack</name>\n  <author>Someone</author>\n  <description>A pack</description>\n  <link>https://example.test/pack</link>\n</info>",
    )
    .unwrap();
    assert_eq!(info.name.as_deref(), Some("Pack"));
    assert_eq!(info.author.as_deref(), Some("Someone"));
    assert_eq!(info.description.as_deref(), Some("A pack"));
    assert_eq!(info.link.as_deref(), Some("https://example.test/pack"));
}

#[test]
fn declaration_and_whitespace() {
    let info = parse(b"  <?xml version=\"1.0\" encoding=\"UTF-8\"?>\n<info><name>X</name></info>\n")
        .unwrap();
    assert_eq!(info.name.as_deref(), Some("X"));
}

#[test]
fn byte_order_mark_accepted() {
    let mut doc = vec![0xef, 0xbb, 0xbf];
    doc.extend_from_slice(b"<info><name>X</name></info>");
    let info = parse_info(&doc).unwrap();
    assert_eq!(info.name.as_deref(), Some("X"));
}

#[test]
fn empty_root_is_default() {
    let info = parse(b"<info></info>").unwrap();
    assert_eq!(info.name, None);
    assert_eq!(info.author, None);
    assert_eq!(info.description, None);
    assert_eq!(info.link, None);
}

#[test]
fn self_closing_root_is_default() {
    let info = parse(b"<info/>").unwrap();
    assert_eq!(info.name, None);
}

#[test]
fn self_closing_field_is_empty() {
    let info = parse(b"<info><name/></info>").unwrap();
    assert_eq!(info.name.as_deref(), Some(""));
}

#[test]
fn unknown_elements_ignored() {
    let info = parse(b"<info><extra>whatever</extra><name>N</name><more/></info>").unwrap();
    assert_eq!(info.name.as_deref(), Some("N"));
    assert_eq!(info.author, None);
}

#[test]
fn entities_decoded() {
    let info = parse(b"<info><name>A &amp; B &lt;3 &gt; &apos;q&apos; &quot;w&quot;</name></info>")
        .unwrap();
    assert_eq!(info.name.as_deref(), Some("A & B <3 > 'q' \"w\""));
}

#[test]
fn empty_document_malformed() {
    assert_eq!(parse(b""), Err(ParseError::Malformed));
}

#[test]
fn garbage_malformed() {
    assert_eq!(parse(b"<<<not xml"), Err(ParseError::Malformed));
}

#[test]
fn unterminated_root_malformed() {
    assert_eq!(parse(b"<info><name>Foo</name>"), Err(ParseError::Malformed));
}

#[test]
fn mismatched_close_malformed() {
    assert_eq!(parse(b"<info><name>x</author></info>"), Err(ParseError::Malformed));
}

#[test]
fn duplicate_field_malformed() {
    assert_eq!(parse(b"<info><name>a</name><name>b</name></info>"), Err(ParseError::Malformed));
}

#[test]
fn bare_ampersand_malformed() {
    assert_eq!(parse(b"<info><name>a & b</name></info>"), Err(ParseError::Malformed));
}

#[test]
fn non_ascii_text_decoded() {
    let info = parse("<info><author>R\u{e9}mi</author></info>".as_bytes()).unwrap();
    assert_eq!(info.author.as_deref(), Some("R\u{e9}mi"));
}

#[test]
fn invalid_utf8_text_malformed() {
    // A lone UTF-8 lead byte cannot decode.
    let doc = vec![
        b'<', b'i', b'n', b'f', b'o', b'>', b'<', b'n', b'a', b'm', b'e', b'>', 0xc3, b'<', b'/',
        b'n', b'a', b'm', b'e', b'>', b'<', b'/', b'i', b'n', b'f', b'o', b'>',
    ];
    assert_eq!(parse_info(&doc), Err(ParseError::Malformed));
}

#[test]
fn numeric_character_references_decoded() {
    let info = parse(b"<info><name>A&#38;B</name><author>R&#233;mi</author><link>&#xE9;&#x1F600;</link></info>")
        .unwrap();
    assert_eq!(info.name.as_deref(), Some("A&B"));
    assert_eq!(info.author.as_deref(), Some("R\u{e9}mi"));
    assert_eq!(info.link.as_deref(), Some("\u{e9}\u{1f600}"));
}

#[test]
fn bad_numeric_references_malformed() {
    // No digits, a surrogate, a value past the last scalar, unterminated.
    assert_eq!(parse(b"<info><name>&#;</name></info>"), Err(ParseError::Malformed));
    assert_eq!(parse(b"<info><name>&#xD800;</name></info>"), Err(ParseError::Malformed));
    assert_eq!(parse(b"<info><name>&#1114112;</name></info>"), Err(ParseError::Malformed));
    assert_eq!(parse(b"<info><name>&#38</name></info>"), Err(ParseError::Malformed));
}

#[test]
fn attributes_tolerated_and_ignored() {
    let info =
        parse(b"<info version=\"1\"><name lang=\"en\">X</name><link rel=\"home\"/></info>")
            .unwrap();
    assert_eq!(info.name.as_deref(), Some("X"));
    assert_eq!(info.link.as_deref(), Some(""));
}

#[test]
fn comments_tolerated_and_ignored() {
    let info = parse(
        b"<?xml version=\"1.0\"?><!-- header -->\n<info><!-- a note --><name>X</name></info>\n<!-- tail -->",
    )
    .unwrap();
    assert_eq!(info.name.as_deref(), Some("X"));
}

#[test]
fn nested_unknown_children_skipped() {
    let info = parse(
        b"<info><extra depth=\"2\"><a x=\"1\"><b/>text &amp; more</a>tail</extra><name>N</name></info>",
    )
    .unwrap();
    assert_eq!(info.name.as_deref(), Some("N"));
    assert_eq!(info.author, None);
}

#[test]
fn unbalanced_unknown_child_malformed() {
    assert_eq!(parse(b"<info><extra><a></extra><name>N</name></info>"), Err(ParseError::Malformed));
}

#[test]
fn trailing_garbage_malformed() {
    assert_eq!(parse(b"<info></info>extra"), Err(ParseError::Malformed));
}

#[test]
fn nested_child_in_field_malformed() {
    assert_eq!(parse(b"<info><name><b>x</b></name></info>"), Err(ParseError::Malformed));
}
