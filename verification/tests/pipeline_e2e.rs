use std::io::{Read, Write};

use kiyomi::archive::{extract_images_from_cbz, ExtractionError};
use kiyomi::assets::PackagePlan;
use kiyomi::ledger::Ledger;
use kiyomi::package::{build_epub_from_images, PackagingError};
use kiyomi::pipeline::{process_archive, should_process};

const MIB: usize = 1024 * 1024;

fn png_bytes(size: usize) -> Vec<u8> {
    let mut bytes = vec![0x89u8, 0x50, 0x4E, 0x47, 0x0D, 0x0A, 0x1A, 0x0A];
    if size > bytes.len() {
        bytes.resize(size, 0);
    }
    bytes
}

fn build_cbz(entries: &[(&str, &[u8])]) -> Vec<u8> {
    let mut w = zip::ZipWriter::new(std::io::Cursor::new(Vec::new()));
    let options = zip::write::SimpleFileOptions::default()
        .compression_method(zip::CompressionMethod::Stored);
    for (name, bytes) in entries {
        w.start_file(*name, options).unwrap();
        w.write_all(bytes).unwrap();
    }
    w.finish().unwrap().into_inner()
}

#[test]
fn extraction_sorts_pages_by_name() {
    let b = png_bytes(16);
    let cbz = build_cbz(&[
        ("p10.png", &b),
        ("p02.png", &b),
        ("p01.png", &b),
        ("p03.png", &b),
    ]);
    let (images, info) = extract_images_from_cbz(&cbz).unwrap();
    let names: Vec<&str> = images.iter().map(|i| i.file_name.as_str()).collect();
    assert_eq!(names, vec!["p01.png", "p02.png", "p03.png", "p10.png"]);
    assert!(info.is_none());
}

#[test]
fn extraction_drops_non_images_and_routes_the_sidecar() {
    let b = png_bytes(16);
    let cbz = build_cbz(&[
        ("b.png", &b),
        ("notes.txt", b"just text, not an image"),
        ("ComicInfo.xml", b"<Series>Foo</Series><Title>Bar</Title>"),
        ("a.png", &b),
    ]);
    let (images, info) = extract_images_from_cbz(&cbz).unwrap();
    let names: Vec<&str> = images.iter().map(|i| i.file_name.as_str()).collect();
    assert_eq!(names, vec!["a.png", "b.png"]);
    assert_eq!(images[0].mime_type, "image/png");
    let info = info.unwrap();
    assert_eq!(info.series.as_deref(), Some("Foo"));
    assert_eq!(info.title.as_deref(), Some("Bar"));
    assert!(info.writer.is_none());
}

#[test]
fn extraction_of_empty_archive_is_not_an_error() {
    let cbz = build_cbz(&[]);
    let (images, info) = extract_images_from_cbz(&cbz).unwrap();
    assert!(images.is_empty());
    assert!(info.is_none());
}

#[test]
fn extraction_of_garbage_fails_as_unopenable() {
    let garbage = vec![0u8; 100];
    assert!(matches!(
        extract_images_from_cbz(&garbage),
        Err(ExtractionError::Unopenable)
    ));
}

#[test]
fn building_an_empty_plan_is_an_error() {
    let plan = PackagePlan {
        images: Vec::new(),
        part_index: None,
    };
    assert_eq!(
        build_epub_from_images(&plan, &None, "Fallback"),
        Err(PackagingError::EmptyPlan)
    );
}

#[test]
fn built_package_is_a_readable_container() {
    let b = png_bytes(32);
    let cbz = build_cbz(&[("01.png", &b), ("02.png", &b)]);
    let arts = process_archive(&cbz, "My Series", 10 * MIB).unwrap();
    assert_eq!(arts.len(), 1);
    let (name, bytes) = arts[0].as_ref().unwrap();
    assert_eq!(name, "My Series.epub");
    let mut epub = zip::ZipArchive::new(std::io::Cursor::new(bytes.clone())).unwrap();
    let entry_names: Vec<String> = (0..epub.len())
        .map(|i| epub.by_index(i).unwrap().name().to_string())
        .collect();
    assert!(entry_names.iter().any(|n| n == "mimetype"));
    assert!(entry_names.iter().any(|n| n == "OEBPS/content.opf"));
    assert!(entry_names.iter().any(|n| n == "OEBPS/cover"));
    assert!(entry_names.iter().any(|n| n == "OEBPS/images/i1"));
    assert!(entry_names.iter().any(|n| n == "OEBPS/images/i2"));
    assert!(entry_names.iter().any(|n| n == "OEBPS/s1.xhtml"));
    assert!(entry_names.iter().any(|n| n == "OEBPS/s2.xhtml"));
}

#[test]
fn three_small_images_fit_one_package() {
    let b = png_bytes(MIB);
    let cbz = build_cbz(&[("1.png", &b), ("2.png", &b), ("3.png", &b)]);
    let arts = process_archive(&cbz, "Test Manga", 10 * MIB).unwrap();
    assert_eq!(arts.len(), 1);
    let (name, _bytes) = arts[0].as_ref().unwrap();
    assert_eq!(name, "Test Manga.epub");
}

#[test]
fn five_four_mib_images_split_into_three_parts() {
    let b = png_bytes(4 * MIB);
    let cbz = build_cbz(&[
        ("p1.png", &b),
        ("p2.png", &b),
        ("p3.png", &b),
        ("p4.png", &b),
        ("p5.png", &b),
    ]);
    let arts = process_archive(&cbz, "m", 10 * MIB).unwrap();
    assert_eq!(arts.len(), 3);
    let names: Vec<&str> = arts
        .iter()
        .map(|r| r.as_ref().unwrap().0.as_str())
        .collect();
    assert_eq!(
        names,
        vec!["m - part 1.epub", "m - part 2.epub", "m - part 3.epub"]
    );
    for r in &arts {
        let (_, bytes) = r.as_ref().unwrap();
        let epub = zip::ZipArchive::new(std::io::Cursor::new(bytes.clone())).unwrap();
        assert!(epub.len() > 0);
    }
}

#[test]
fn sidecar_series_and_title_shape_the_final_name() {
    let b = png_bytes(16);
    let cbz = build_cbz(&[
        ("page.png", &b),
        (
            "ComicInfo.xml",
            b"<Series>Foo</Series><Title>Bar</Title>",
        ),
    ]);
    let arts = process_archive(&cbz, "ignored fallback", 10 * MIB).unwrap();
    assert_eq!(arts.len(), 1);
    let (name, _) = arts[0].as_ref().unwrap();
    assert_eq!(name, "Foo - Bar.epub");
}

#[test]
fn sidecar_metadata_lands_in_the_package_manifest() {
    let b = png_bytes(16);
    let cbz = build_cbz(&[
        ("page.png", &b),
        (
            "ComicInfo.xml",
            b"<Series>Foo</Series><Title>Bar</Title><Writer>Baz</Writer>",
        ),
    ]);
    let arts = process_archive(&cbz, "fallback", 10 * MIB).unwrap();
    let (_, bytes) = arts[0].as_ref().unwrap();
    let mut epub = zip::ZipArchive::new(std::io::Cursor::new(bytes.clone())).unwrap();
    let mut opf = String::new();
    epub.by_name("OEBPS/content.opf")
        .unwrap()
        .read_to_string(&mut opf)
        .unwrap();
    assert!(opf.contains("Foo - Bar"));
    assert!(opf.contains("Baz"));
}

#[test]
fn part_suffix_names_each_sibling_distinctly() {
    let plan = PackagePlan {
        images: vec![kiyomi::assets::ImageFile {
            file_name: "p.png".to_string(),
            contents: png_bytes(16),
            mime_type: "image/png".to_string(),
        }],
        part_index: Some((2, 3)),
    };
    let (name, _) = build_epub_from_images(&plan, &None, "T").unwrap();
    assert_eq!(name, "T - part 2.epub");
}

#[test]
fn awkward_entry_names_cannot_collide_in_the_container() {
    // Entry names that would collide with the container's own paths are
    // harmless: every embedded path is a canonical generated name.
    let b = png_bytes(16);
    let cbz = build_cbz(&[
        ("s1.xhtml", &b),
        ("content.opf", &b),
        ("s1.xhtml.png", &b),
    ]);
    let arts = process_archive(&cbz, "t", 10 * MIB).unwrap();
    assert_eq!(arts.len(), 1);
    let (_, bytes) = arts[0].as_ref().unwrap();
    let epub = zip::ZipArchive::new(std::io::Cursor::new(bytes.clone())).unwrap();
    assert!(epub.len() > 0);
}

#[test]
fn ledgered_filename_is_not_processed_again() {
    let mut ledger = Ledger::new();
    let filename = "/watch/vol1.cbz";
    assert!(should_process(&ledger, filename));
    assert!(ledger.mark_processed(filename));
    assert!(!should_process(&ledger, filename));
    assert!(!ledger.mark_processed(filename));
    assert_eq!(ledger.len(), 1);
    let mut invocations = 0;
    if should_process(&ledger, filename) {
        invocations += 1;
    }
    assert_eq!(invocations, 0);
}
