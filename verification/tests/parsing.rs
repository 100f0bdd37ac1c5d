use kiyomi::comicinfo::parse_comicinfo;
use kiyomi::pipeline::is_archive_filename;
use kiyomi::sniff::{mime_is_image, sniff};

#[test]
fn parses_all_three_fields() {
    let xml =
        b"<ComicInfo><Series>Foo</Series><Title>Bar</Title><Writer>Baz</Writer></ComicInfo>"
            .to_vec();
    let ci = parse_comicinfo(&xml);
    assert_eq!(ci.series.as_deref(), Some("Foo"));
    assert_eq!(ci.title.as_deref(), Some("Bar"));
    assert_eq!(ci.writer.as_deref(), Some("Baz"));
}

#[test]
fn unknown_elements_are_ignored() {
    let xml = b"<Other>x</Other><Number>7</Number><Title>T</Title>".to_vec();
    let ci = parse_comicinfo(&xml);
    assert_eq!(ci.title.as_deref(), Some("T"));
    assert!(ci.series.is_none());
    assert!(ci.writer.is_none());
}

#[test]
fn malformed_stream_keeps_fields_parsed_before_failure() {
    let xml = b"<Series>Foo</Series><Title>Bar".to_vec();
    let ci = parse_comicinfo(&xml);
    assert_eq!(ci.series.as_deref(), Some("Foo"));
    assert!(ci.title.is_none());
    assert!(ci.writer.is_none());
}

#[test]
fn unclosed_open_tag_ends_the_scan() {
    let xml = b"<Writer>W</Writer><Ti".to_vec();
    let ci = parse_comicinfo(&xml);
    assert_eq!(ci.writer.as_deref(), Some("W"));
    assert!(ci.title.is_none());
}

#[test]
fn empty_stream_yields_empty_descriptor() {
    let ci = parse_comicinfo(&Vec::new());
    assert!(ci.title.is_none());
    assert!(ci.series.is_none());
    assert!(ci.writer.is_none());
}

#[test]
fn start_tag_attributes_are_ignored() {
    let xml = b"<Title lang=\"en\">X</Title><Series  id='1'>S</Series>".to_vec();
    let ci = parse_comicinfo(&xml);
    assert_eq!(ci.title.as_deref(), Some("X"));
    assert_eq!(ci.series.as_deref(), Some("S"));
}

#[test]
fn self_closing_known_element_sets_nothing() {
    let xml = b"<Title/><Series>S</Series>".to_vec();
    let ci = parse_comicinfo(&xml);
    assert!(ci.title.is_none());
    assert_eq!(ci.series.as_deref(), Some("S"));
}

#[test]
fn comments_are_never_read_as_markup() {
    let xml = b"<!-- <Title>B</Title> --><Title>A</Title>".to_vec();
    let ci = parse_comicinfo(&xml);
    assert_eq!(ci.title.as_deref(), Some("A"));
    let xml = b"<Title>A</Title><!-- <Title>B</Title> -->".to_vec();
    let ci = parse_comicinfo(&xml);
    assert_eq!(ci.title.as_deref(), Some("A"));
}

#[test]
fn unterminated_comment_ends_the_scan() {
    let xml = b"<Series>S</Series><!-- <Title>B".to_vec();
    let ci = parse_comicinfo(&xml);
    assert_eq!(ci.series.as_deref(), Some("S"));
    assert!(ci.title.is_none());
}

#[test]
fn repeated_element_overwrites() {
    let xml = b"<Title>A</Title><Title>B</Title>".to_vec();
    let ci = parse_comicinfo(&xml);
    assert_eq!(ci.title.as_deref(), Some("B"));
}

#[test]
fn invalid_utf8_text_skips_the_field_and_continues() {
    let mut xml: Vec<u8> = Vec::new();
    xml.extend_from_slice(b"<Title>");
    xml.push(0xFF);
    xml.push(0xFE);
    xml.extend_from_slice(b"</Title><Series>S</Series>");
    let ci = parse_comicinfo(&xml);
    assert!(ci.title.is_none());
    assert_eq!(ci.series.as_deref(), Some("S"));
}

#[test]
fn sniff_recognizes_png() {
    let mut bytes = vec![0x89u8, 0x50, 0x4E, 0x47, 0x0D, 0x0A, 0x1A, 0x0A];
    bytes.extend_from_slice(&[0u8; 64]);
    assert_eq!(sniff(&bytes), "image/png");
}

#[test]
fn sniff_recognizes_jpeg() {
    let bytes = vec![0xFFu8, 0xD8, 0xFF, 0xAA, 0x00, 0x00];
    assert_eq!(sniff(&bytes), "image/jpeg");
}

#[test]
fn sniff_falls_back_to_generic_binary() {
    let bytes = vec![1u8, 2, 3, 4, 5];
    assert_eq!(sniff(&bytes), "application/octet-stream");
    assert_eq!(sniff(&Vec::new()), "application/octet-stream");
}

#[test]
fn image_category_test() {
    assert!(mime_is_image("image/png"));
    assert!(mime_is_image("image/jpeg"));
    assert!(!mime_is_image("application/octet-stream"));
    assert!(!mime_is_image("text/plain"));
    assert!(!mime_is_image("image"));
}

#[test]
fn archive_extension_is_case_sensitive_and_exact() {
    assert!(is_archive_filename("vol1.cbz"));
    assert!(is_archive_filename("/watch/dir/a.tar.cbz"));
    assert!(!is_archive_filename("vol1.CBZ"));
    assert!(!is_archive_filename("vol1.zip"));
    assert!(!is_archive_filename(".cbz"));
    assert!(!is_archive_filename("/watch/.cbz"));
    assert!(!is_archive_filename("cbz"));
}
