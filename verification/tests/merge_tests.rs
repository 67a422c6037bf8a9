use pdfcat::config::{CompressionLevel, Config, Metadata, OverwriteMode, PageRange, Rotation};
use pdfcat::document::Document;
use pdfcat::error::PdfCatError;
use pdfcat::io::reader::{LoadStatistics, LoadedPdf, PdfReader};
use pdfcat::io::writer::{PdfWriter, WriteOptions, WriteStatistics};
use pdfcat::merge::bookmarks::BookmarkManager;
use pdfcat::merge::compact::{compress, prune_objects};
use pdfcat::merge::merger::{MergeStatistics, Merger};
use pdfcat::merge::metadata::{format_pdf_date, format_pdf_date_seconds, MetadataManager};
use pdfcat::merge::pages::{rotate_degrees, PageExtractor, PageRotation};
use pdfcat::merge::renumber::{renumber_objects, renumber_objects_with};
use pdfcat::object::{Dictionary, Object, ObjectId, Stream, StringFormat};
use pdfcat::utils::{copy_references, format_file_size};
use pdfcat::validation::{parse_version, ValidationResult, ValidationSummary, Validator};
use std::path::PathBuf;
use std::time::{Duration, SystemTime};

fn key(name: &str) -> Vec<u8> {
    name.as_bytes().to_vec()
}

fn integers(values: &[i64]) -> Object {
    Object::Array(values.iter().map(|v| Object::Integer(*v)).collect())
}

fn create_multi_page_pdf(pages: usize) -> Document {
    let mut doc = Document::with_version("1.4");

    let catalog_id = doc.new_object_id().unwrap();
    let pages_id = doc.new_object_id().unwrap();

    let mut page_ids = Vec::new();
    for _ in 0..pages {
        let page_id = doc.new_object_id().unwrap();
        let mut page = Dictionary::new();
        page.set(key("Type"), Object::name("Page"));
        page.set(key("Parent"), Object::Reference(pages_id));
        page.set(key("MediaBox"), integers(&[0, 0, 612, 792]));
        doc.set_object(page_id, Object::Dictionary(page));
        page_ids.push(page_id);
    }

    let mut catalog = Dictionary::new();
    catalog.set(key("Type"), Object::name("Catalog"));
    catalog.set(key("Pages"), Object::Reference(pages_id));

    let mut pages_dict = Dictionary::new();
    pages_dict.set(key("Type"), Object::name("Pages"));
    pages_dict.set(
        key("Kids"),
        Object::Array(page_ids.into_iter().map(Object::Reference).collect()),
    );
    pages_dict.set(key("Count"), Object::Integer(pages as i64));

    doc.set_object(catalog_id, Object::Dictionary(catalog));
    doc.set_object(pages_id, Object::Dictionary(pages_dict));
    doc.trailer_set(key("Root"), Object::Reference(catalog_id));

    doc
}

fn create_test_document() -> Document {
    create_multi_page_pdf(1)
}

fn create_test_config() -> Config {
    Config {
        inputs: vec![PathBuf::from("test1.pdf"), PathBuf::from("test2.pdf")],
        output: PathBuf::from("output.pdf"),
        dry_run: false,
        verbose: false,
        overwrite_mode: OverwriteMode::Prompt,
        quiet: false,
        bookmarks: false,
        compression: CompressionLevel::Standard,
        metadata: Metadata::default(),
        continue_on_error: false,
        jobs: None,
        page_range: None,
        rotation: None,
    }
}

fn loaded(doc: Document, name: &str, size: u64) -> LoadedPdf {
    LoadedPdf::new(doc, PathBuf::from(name), Duration::from_millis(5), size)
}

fn rotation_of(doc: &Document, page: ObjectId) -> Option<i64> {
    doc.get_object(page)?
        .as_dict()?
        .get(b"Rotate")
        .and_then(|r| r.as_i64())
}

/// Every reference in the object, at any depth.
fn references_in(object: &Object, out: &mut Vec<ObjectId>) {
    match object {
        Object::Reference(id) => out.push(*id),
        Object::Array(items) => items.iter().for_each(|item| references_in(item, out)),
        Object::Dictionary(d) => references_in_dictionary(d, out),
        Object::Stream(s) => references_in_dictionary(&s.dict, out),
        _ => {}
    }
}

fn references_in_dictionary(d: &Dictionary, out: &mut Vec<ObjectId>) {
    for i in 0..d.len() {
        references_in(d.value_at(i), out);
    }
}

fn all_ids(doc: &Document) -> Vec<ObjectId> {
    (0..doc.object_count()).map(|i| doc.id_at(i)).collect()
}

fn assert_closed(doc: &Document) {
    let ids = all_ids(doc);
    for pair in ids.windows(2) {
        assert!(pair[0] < pair[1], "identifiers ascend, so none occurs twice");
    }
    let mut refs = Vec::new();
    references_in_dictionary(doc.trailer(), &mut refs);
    for i in 0..doc.object_count() {
        references_in(doc.object_at(i), &mut refs);
    }
    for r in refs {
        assert!(doc.has_object(r), "reference to {r:?} has no object");
    }
}

#[test]
fn test_merger_creation() {
    let _merger = Merger::new();
}

#[test]
fn test_page_extractor_creation() {
    let _extractor = PageExtractor::new();
}

#[test]
fn mod_test_bookmark_manager_creation() {
    let _manager = BookmarkManager::new();
}

#[test]
fn mod_test_metadata_manager_creation() {
    let _manager = MetadataManager::new();
}

#[test]
fn bookmarks_test_bookmark_manager_creation() {
    let _manager = BookmarkManager::new();
}

#[test]
fn metadata_test_metadata_manager_creation() {
    let _manager = MetadataManager::new();
}

#[test]
fn reader_test_format_file_size() {
    assert_eq!(format_file_size(500), "500 bytes");
    assert_eq!(format_file_size(1024), "1.00 KB");
    assert_eq!(format_file_size(1024 * 1024), "1.00 MB");
    assert_eq!(format_file_size(1024 * 1024 * 1024), "1.00 GB");
}

#[test]
fn writer_test_format_file_size() {
    assert_eq!(format_file_size(100), "100 bytes");
    assert_eq!(format_file_size(1024), "1.00 KB");
    assert_eq!(format_file_size(1024 * 1024), "1.00 MB");
    assert_eq!(format_file_size(1536 * 1024), "1.50 MB");
}

#[test]
fn merger_test_format_file_size() {
    assert_eq!(format_file_size(500), "500 bytes");
    assert_eq!(format_file_size(1024), "1.00 KB");
    assert_eq!(format_file_size(1024 * 1024), "1.00 MB");
    assert_eq!(format_file_size(1024 * 1024 * 1024), "1.00 GB");
}

#[test]
fn mod_test_format_file_size() {
    assert_eq!(format_file_size(500), "500 bytes");
    assert_eq!(format_file_size(1024), "1.00 KB");
    assert_eq!(format_file_size(1536), "1.50 KB");
    assert_eq!(format_file_size(1024 * 1024), "1.00 MB");
    assert_eq!(format_file_size(1024 * 1024 * 1024), "1.00 GB");
}

#[test]
fn test_format_file_size_rounding() {
    assert_eq!(format_file_size(0), "0 bytes");
    assert_eq!(format_file_size(1023), "1023 bytes");
    // 1029 / 1024 = 1.0048..., shown as 1.00; 1030 / 1024 = 1.0058..., shown as 1.01.
    assert_eq!(format_file_size(1029), "1.00 KB");
    assert_eq!(format_file_size(1030), "1.01 KB");
    // A tie goes to the even hundredth: 1.125 is shown as 1.12, 1.375 as 1.38.
    assert_eq!(format_file_size(1152), "1.12 KB");
    assert_eq!(format_file_size(1408), "1.38 KB");
    assert_eq!(format_file_size(1024 * 1024 - 1), "1024.00 KB");
    assert_eq!(format_file_size(5 * 1024 * 1024 * 1024 / 2), "2.50 GB");
    assert_eq!(format_file_size(u64::MAX), "17179869184.00 GB");
    // Beyond 53 binary digits a size counts as the nearest number that 53
    // binary digits write, which can reach the next hundredth.
    assert_eq!(format_file_size((1 << 53) + 1), "8388608.00 GB");
    assert_eq!(format_file_size(1_152_921_504_612_215_680), "1073741824.01 GB");
    assert_eq!(format_file_size(1_152_921_504_622_953_089), "1073741824.02 GB");
    assert_eq!(format_file_size(1_152_921_504_633_690_496), "1073741824.03 GB");
}

#[test]
fn test_merge_statistics() {
    let stats = MergeStatistics {
        files_merged: 3,
        total_pages: 15,
        merge_time: Duration::from_secs(2),
        load_time: Duration::from_secs(1),
        input_size: 1024 * 1024,
        bookmarks_added: 3,
        compressed: true,
    };

    assert_eq!(stats.format_input_size(), "1.00 MB");
}

#[test]
fn test_format_pdf_date() {
    let time = SystemTime::now();
    let date_str = format_pdf_date(time);

    assert!(date_str.starts_with("D:"));
    assert!(date_str.len() >= 15);
}

#[test]
fn test_format_pdf_date_values() {
    assert_eq!(format_pdf_date_seconds(0), "D:19700101000000Z");
    assert_eq!(format_pdf_date_seconds(59), "D:19700101000059Z");
    assert_eq!(format_pdf_date_seconds(86_400), "D:19700102000000Z");
    // One month of 2 629 743 seconds.
    assert_eq!(format_pdf_date_seconds(2_629_743), "D:19700201000000Z");
    // One year of 31 556 926 seconds.
    assert_eq!(format_pdf_date_seconds(31_556_926), "D:19710101000000Z");
    // Twelve months of 2 629 743 seconds are 10 seconds short of a year:
    // the seconds left over are counted into the twelfth month again.
    assert_eq!(format_pdf_date_seconds(31_556_925), "D:19701201000009Z");
    // The last second of a month is its 31st day.
    assert_eq!(format_pdf_date_seconds(2_629_742), "D:19700131102902Z");
    assert_eq!(format_pdf_date_seconds(1_700_000_000), "D:20231114171812Z");
    assert_eq!(
        format_pdf_date(SystemTime::UNIX_EPOCH + Duration::from_secs(3_661)),
        "D:19700101010101Z"
    );
    assert_eq!(
        format_pdf_date(SystemTime::UNIX_EPOCH - Duration::from_secs(5)),
        "D:19700101000000Z"
    );
}

#[test]
fn test_page_rotation_conversion() {
    let rot = PageRotation::from(Rotation::Clockwise90);
    assert_eq!(rot, PageRotation::Clockwise90);
    assert_eq!(rot.as_degrees(), 90);
}

#[test]
fn test_page_rotation_degrees() {
    assert_eq!(PageRotation::NoRotation.as_degrees(), 0);
    assert_eq!(PageRotation::Clockwise90.as_degrees(), 90);
    assert_eq!(PageRotation::Rotate180.as_degrees(), 180);
    assert_eq!(PageRotation::Clockwise270.as_degrees(), 270);
}

#[test]
fn test_page_count() {
    let doc = create_multi_page_pdf(5);
    let extractor = PageExtractor::new();
    assert_eq!(extractor.page_count(&doc), 5);
}

#[test]
fn test_extract_pages() {
    let doc = create_multi_page_pdf(10);
    let extractor = PageExtractor::new();
    let page_range = PageRange::parse("1-5").unwrap();

    let result = extractor.extract_pages(&doc, &page_range);
    assert!(result.is_ok());

    let extracted = result.unwrap();
    assert_eq!(extractor.page_count(&extracted), 5);
}

#[test]
fn test_rotate_all_pages() {
    let mut doc = create_multi_page_pdf(3);
    let extractor = PageExtractor::new();

    let result = extractor.rotate_all_pages(&mut doc, Rotation::Clockwise90);
    assert!(result.is_ok());

    let page_ids = doc.get_pages();
    assert_eq!(page_ids.len(), 3);
    for page_id in page_ids {
        assert_eq!(rotation_of(&doc, page_id), Some(90));
    }
}

#[test]
fn test_add_bookmarks_empty() {
    let mut doc = create_multi_page_pdf(5);
    let manager = BookmarkManager::new();

    let result = manager.add_bookmarks_for_files(&mut doc, &vec![]);
    assert!(result.is_ok());
    assert!(!manager.has_bookmarks(&doc));
}

#[test]
fn test_add_bookmarks_single_file() {
    let mut doc = create_multi_page_pdf(5);
    let manager = BookmarkManager::new();

    let paths = vec![PathBuf::from("test.pdf")];

    let result = manager.add_bookmarks_for_files(&mut doc, &paths);
    assert!(result.is_ok());
    assert!(manager.has_bookmarks(&doc));
}

#[test]
fn test_add_bookmarks_multiple_files() {
    let mut doc = create_multi_page_pdf(10);
    let manager = BookmarkManager::new();

    let paths = vec![
        PathBuf::from("file1.pdf"),
        PathBuf::from("file2.pdf"),
        PathBuf::from("file3.pdf"),
    ];

    let result = manager.add_bookmarks_for_files(&mut doc, &paths);
    assert!(result.is_ok());
    assert!(manager.has_bookmarks(&doc));
}

#[test]
fn test_has_bookmarks() {
    let doc = create_multi_page_pdf(5);
    let manager = BookmarkManager::new();

    assert!(!manager.has_bookmarks(&doc));
}

#[test]
fn test_remove_bookmarks() {
    let mut doc = create_multi_page_pdf(5);
    let manager = BookmarkManager::new();

    let paths = vec![PathBuf::from("test.pdf")];

    manager.add_bookmarks_for_files(&mut doc, &paths).unwrap();
    assert!(manager.has_bookmarks(&doc));

    let result = manager.remove_bookmarks(&mut doc);
    assert!(result.is_ok());
    assert!(!manager.has_bookmarks(&doc));
}

#[test]
fn test_set_metadata() {
    let mut doc = create_test_document();
    let manager = MetadataManager::new();

    let metadata = Metadata::new(
        Some("Test Title".to_string()),
        Some("Test Author".to_string()),
        Some("Test Subject".to_string()),
        Some("test, keywords".to_string()),
    );

    let result = manager.set_metadata(&mut doc, &metadata);
    assert!(result.is_ok());
    assert!(manager.has_metadata(&doc));
}

#[test]
fn test_set_empty_metadata() {
    let mut doc = create_test_document();
    let manager = MetadataManager::new();

    let metadata = Metadata::default();
    let result = manager.set_metadata(&mut doc, &metadata);
    assert!(result.is_ok());
    assert!(!manager.has_metadata(&doc));
}

#[test]
fn test_get_metadata() {
    let mut doc = create_test_document();
    let manager = MetadataManager::new();

    let written = Metadata::new(
        Some("My Title".to_string()),
        Some("My Author".to_string()),
        None,
        None,
    );

    manager.set_metadata(&mut doc, &written).unwrap();

    let retrieved_metadata = manager.get_metadata(&doc);
    assert_eq!(retrieved_metadata.title, Some("My Title".to_string()));
    assert_eq!(retrieved_metadata.author, Some("My Author".to_string()));
}

#[test]
fn test_clear_metadata() {
    let mut doc = create_test_document();
    let manager = MetadataManager::new();

    let metadata = Metadata::new(Some("Title".to_string()), None, None, None);

    manager.set_metadata(&mut doc, &metadata).unwrap();
    assert!(manager.has_metadata(&doc));

    let result = manager.clear_metadata(&mut doc);
    assert!(result.is_ok());
    assert!(!manager.has_metadata(&doc));
}

#[test]
fn test_has_metadata() {
    let doc = create_test_document();
    let manager = MetadataManager::new();

    assert!(!manager.has_metadata(&doc));
}

#[test]
fn test_partial_metadata() {
    let mut doc = create_test_document();
    let manager = MetadataManager::new();

    let metadata = Metadata::new(Some("Only Title".to_string()), None, None, None);

    manager.set_metadata(&mut doc, &metadata).unwrap();

    let retrieved = manager.get_metadata(&doc);
    assert_eq!(retrieved.title, Some("Only Title".to_string()));
    assert_eq!(retrieved.author, None);
}

#[test]
fn test_validation_summary() {
    let result1 = ValidationResult {
        path: PathBuf::from("a.pdf"),
        page_count: 5,
        version: Some((1, 4)),
        file_size: 1024,
        is_encrypted: false,
        object_count: 10,
        page_dimensions: None,
    };

    let result2 = ValidationResult {
        path: PathBuf::from("b.pdf"),
        page_count: 3,
        version: Some((1, 5)),
        file_size: 2048,
        is_encrypted: false,
        object_count: 8,
        page_dimensions: None,
    };

    let summary = ValidationSummary::from_results(vec![result1, result2]);

    assert_eq!(summary.total_pages, 8);
    assert_eq!(summary.total_size, 3072);
    assert_eq!(summary.files_validated, 2);
    assert_eq!(summary.format_total_size(), "3.00 KB");
}

#[test]
fn test_validator_page_range_check() {
    let result = |name: &str, pages: usize| ValidationResult {
        path: PathBuf::from(name),
        page_count: pages,
        version: None,
        file_size: 1,
        is_encrypted: false,
        object_count: 1,
        page_dimensions: None,
    };
    let summary =
        ValidationSummary::from_results(vec![result("a.pdf", 9), result("b.pdf", 4), result("c.pdf", 2)]);
    let validator = Validator::new();
    let _strict = Validator::strict();
    assert!(validator
        .check_page_range(&PageRange::parse("1-2").unwrap(), &summary)
        .is_ok());
    match validator.check_page_range(&PageRange::parse("1,5").unwrap(), &summary) {
        Err(PdfCatError::InvalidPageRange { path, range, total_pages }) => {
            assert_eq!(path, PathBuf::from("b.pdf"));
            assert_eq!(total_pages, 4);
            assert_eq!(range, "PageRange { ranges: [Single(1), Single(5)] }");
        }
        other => panic!("unexpected: {other:?}"),
    }
}

#[test]
fn test_validation_summaries_follow_the_policy() {
    let result = |name: &str, pages: usize| ValidationResult {
        path: PathBuf::from(name),
        page_count: pages,
        version: Some((1, 7)),
        file_size: 10,
        is_encrypted: false,
        object_count: 1,
        page_dimensions: None,
    };
    let batch = || -> Vec<Result<ValidationResult, PdfCatError>> {
        vec![
            Ok(result("a.pdf", 2)),
            Err(PdfCatError::file_not_found(PathBuf::from("b.pdf"))),
            Ok(result("c.pdf", 3)),
        ]
    };
    let validator = Validator::new();
    assert!(matches!(
        validator.summarize(batch(), false),
        Err(PdfCatError::FileNotFound { .. })
    ));
    let summary = validator.summarize(batch(), true).unwrap();
    assert_eq!(summary.files_validated, 2);
    assert_eq!(summary.files_failed, 1);
    assert_eq!(summary.total_pages, 5);
    assert_eq!(summary.total_size, 20);
    assert_eq!(summary.results[1].path, PathBuf::from("c.pdf"));
    assert!(matches!(
        validator.summarize(vec![Err(PdfCatError::Cancelled)], true),
        Err(PdfCatError::NoFilesToMerge)
    ));
    assert!(matches!(
        validator.summarize(vec![], false),
        Err(PdfCatError::NoFilesToMerge)
    ));
    let clean = validator.summarize(vec![Ok(result("a.pdf", 2))], false).unwrap();
    assert_eq!(clean.files_failed, 0);
}

#[test]
fn test_validation_result_from_document() {
    let mut doc = create_multi_page_pdf(3);
    doc.set_object((40, 0), Object::Null);
    let result = ValidationResult::from_document(
        PathBuf::from("a.pdf"),
        &doc,
        77,
        Some((0x4419_0000, 0x4446_0000)),
    );
    assert_eq!(result.path, PathBuf::from("a.pdf"));
    assert_eq!(result.page_count, 3);
    assert_eq!(result.version, Some((1, 4)));
    assert_eq!(result.file_size, 77);
    assert!(!result.is_encrypted);
    assert_eq!(result.object_count, 6);
    assert_eq!(result.page_dimensions, Some((0x4419_0000, 0x4446_0000)));
    assert_eq!(parse_version("1.7"), Some((1, 7)));
    assert_eq!(parse_version("2.0"), Some((2, 0)));
    assert_eq!(parse_version("17"), None);
    assert_eq!(parse_version("x.5"), Some((0, 5)));
    assert_eq!(parse_version("1."), Some((1, 0)));
    assert_eq!(parse_version(".2"), Some((0, 2)));
    assert_eq!(parse_version("1.2.3"), Some((1, 0)));
    assert_eq!(parse_version("300.255"), Some((0, 255)));
    assert_eq!(parse_version("+1.+2"), Some((1, 2)));
    assert_eq!(parse_version(" 1.4"), Some((0, 4)));
}

#[test]
fn test_copy_references_brings_what_is_referred_to() {
    let mut source = Document::with_version("1.4");
    let mut two = Dictionary::new();
    two.set(key("Next"), Object::Reference((3, 0)));
    two.set(key("Has"), Object::Reference((1, 0)));
    two.set(key("Gone"), Object::Reference((9, 0)));
    two.set(key("Deep"), Object::Array(vec![Object::Array(vec![Object::Reference((6, 0))])]));
    source.set_object((1, 0), Object::Integer(100));
    source.set_object((2, 0), Object::Dictionary(two));
    source.set_object((3, 0), Object::Reference((4, 0)));
    source.set_object((4, 0), Object::Integer(400));
    source.set_object((5, 0), Object::Integer(500));
    let mut six = Dictionary::new();
    six.set(key("Back"), Object::Reference((2, 0)));
    source.set_object((6, 0), Object::Stream(Stream::new(six, vec![1])));

    let mut target = Document::with_version("1.7");
    target.set_object((1, 0), Object::Integer(1));
    target.trailer_set(key("Root"), Object::Reference((1, 0)));

    copy_references(&mut target, &source, &Object::Array(vec![Object::Reference((2, 0))]));

    assert_eq!(all_ids(&target), vec![(1, 0), (2, 0), (3, 0), (6, 0)]);
    // What the target had stays as it was.
    assert_eq!(target.get_direct((1, 0)).and_then(|o| o.as_i64()), Some(1));
    // A reference is stored as what it resolves to.
    assert_eq!(target.get_direct((3, 0)).and_then(|o| o.as_i64()), Some(400));
    assert!(target.get_dictionary((2, 0)).unwrap().has(b"Gone"));
    assert!(matches!(target.get_direct((6, 0)), Some(Object::Stream(_))));
    assert_eq!(target.version(), "1.7");
    assert_eq!(target.max_id(), 6);

    // An object that refers to nothing brings nothing.
    let mut untouched = Document::with_version("1.7");
    copy_references(&mut untouched, &source, &Object::Integer(2));
    assert_eq!(untouched.object_count(), 0);
}

// The object model.

#[test]
fn test_dictionary_keeps_insertion_order_and_replaces_in_place() {
    let mut d = Dictionary::new();
    assert!(d.is_empty());
    d.set(key("A"), Object::Integer(1));
    d.set(key("B"), Object::Integer(2));
    d.set(key("C"), Object::Integer(3));
    d.set(key("B"), Object::Integer(20));
    assert_eq!(d.len(), 3);
    assert_eq!(d.key_at(1), &key("B"));
    assert_eq!(d.get(b"B").and_then(|o| o.as_i64()), Some(20));
    assert!(d.has(b"A"));
    assert!(!d.has(b"D"));
    // Deleting moves the last entry into the gap.
    let removed = d.remove(b"A");
    assert_eq!(removed.and_then(|o| o.as_i64()), Some(1));
    assert_eq!(d.len(), 2);
    assert_eq!(d.key_at(0), &key("C"));
    assert_eq!(d.key_at(1), &key("B"));
    assert!(d.remove(b"A").is_none());
    let old = d.replace_value_at(0, Object::Null);
    assert_eq!(old.as_i64(), Some(3));
    assert!(matches!(d.value_at(0), Object::Null));
}

#[test]
fn test_object_accessors_and_clone() {
    let mut inner = Dictionary::new();
    inner.set(key("K"), Object::string_literal("text"));
    let object = Object::Array(vec![
        Object::Null,
        Object::Boolean(true),
        Object::Integer(-4),
        Object::Real(0x3fc0_0000),
        Object::name("N"),
        Object::Reference((7, 1)),
        Object::Dictionary(inner),
        Object::Stream(Stream::new(Dictionary::new(), vec![1, 2, 3])),
    ]);
    let copy = object.clone();
    let items = copy.as_array().unwrap();
    assert_eq!(items.len(), 8);
    assert_eq!(items[2].as_i64(), Some(-4));
    assert_eq!(items[5].as_reference(), Some((7, 1)));
    assert!(items[0].as_reference().is_none());
    assert!(matches!(&items[3], Object::Real(bits) if *bits == 0x3fc0_0000));
    assert!(matches!(&items[4], Object::Name(n) if n == b"N"));
    let d = items[6].as_dict().unwrap();
    assert!(matches!(
        d.get(b"K"),
        Some(Object::String(bytes, StringFormat::Literal)) if bytes == b"text"
    ));
    match &items[7] {
        Object::Stream(s) => {
            assert_eq!(s.content, vec![1, 2, 3]);
            assert!(s.allows_compression);
            assert_eq!(s.dict.get(b"Length").and_then(|o| o.as_i64()), Some(3));
        }
        other => panic!("unexpected: {other:?}"),
    }
}

#[test]
fn test_document_objects_are_kept_in_order() {
    let mut doc = Document::with_version("1.7");
    assert_eq!(doc.version(), "1.7");
    doc.set_object((5, 0), Object::Integer(5));
    doc.set_object((2, 0), Object::Integer(2));
    doc.set_object((9, 0), Object::Integer(9));
    doc.set_object((5, 1), Object::Integer(51));
    doc.set_object((2, 0), Object::Integer(20));
    assert_eq!(all_ids(&doc), vec![(2, 0), (5, 0), (5, 1), (9, 0)]);
    assert_eq!(doc.max_id(), 9);
    assert_eq!(doc.get_direct((2, 0)).and_then(|o| o.as_i64()), Some(20));
    assert!(doc.has_object((5, 1)));
    assert!(!doc.has_object((5, 2)));
    assert_eq!(doc.new_object_id(), Some((10, 0)));
    assert_eq!(doc.max_id(), 10);
    assert_eq!(doc.remove_object((5, 0)).and_then(|o| o.as_i64()), Some(5));
    assert!(doc.remove_object((5, 0)).is_none());
    assert_eq!(all_ids(&doc), vec![(2, 0), (5, 1), (9, 0)]);
    let copy = doc.clone();
    assert_eq!(all_ids(&copy), all_ids(&doc));
    assert_eq!(copy.max_id(), 10);
}

#[test]
fn test_new_object_id_stops_at_the_largest_number() {
    let mut doc = Document::with_version("1.4");
    doc.set_object((u32::MAX, 0), Object::Null);
    assert_eq!(doc.max_id(), u32::MAX);
    assert_eq!(doc.new_object_id(), None);
}

#[test]
fn test_references_are_followed_up_to_the_limit() {
    let mut doc = Document::with_version("1.4");
    doc.set_object((1, 0), Object::Integer(42));
    // A chain of 128 references ends at the integer; one more is too long.
    for n in 2..=130u32 {
        doc.set_object((n, 0), Object::Reference((n - 1, 0)));
    }
    assert_eq!(doc.resolve_id((1, 0)), Some((1, 0)));
    assert_eq!(doc.resolve_id((2, 0)), Some((1, 0)));
    assert_eq!(doc.resolve_id((129, 0)), Some((1, 0)));
    assert_eq!(doc.resolve_id((130, 0)), None);
    assert_eq!(doc.get_object((129, 0)).and_then(|o| o.as_i64()), Some(42));
    assert!(doc.get_object((130, 0)).is_none());
    // A missing object and a cycle resolve to nothing.
    doc.set_object((200, 0), Object::Reference((201, 0)));
    assert_eq!(doc.resolve_id((200, 0)), None);
    doc.set_object((201, 0), Object::Reference((200, 0)));
    assert_eq!(doc.resolve_id((200, 0)), None);
    assert!(doc.get_dictionary((1, 0)).is_none());
}

#[test]
fn test_pages_are_the_references_of_kids() {
    let mut doc = create_multi_page_pdf(2);
    assert_eq!(doc.get_pages(), vec![(3, 0), (4, 0)]);
    assert_eq!(doc.catalog_id(), Some((1, 0)));
    assert_eq!(doc.page_tree_id(), Some((2, 0)));
    // What is no reference among the kids is no page.
    let mut tree = doc.page_tree().unwrap().clone();
    tree.set(
        key("Kids"),
        Object::Array(vec![
            Object::Reference((4, 0)),
            Object::Integer(3),
            Object::Reference((3, 0)),
            Object::Reference((4, 0)),
        ]),
    );
    doc.set_object((2, 0), Object::Dictionary(tree));
    assert_eq!(doc.get_pages(), vec![(4, 0), (3, 0), (4, 0)]);
    // Without a catalog there are no pages.
    let empty = Document::with_version("1.4");
    assert!(empty.get_pages().is_empty());
    assert!(empty.catalog().is_none());
    assert_eq!(empty.page_tree_id(), None);
}

// Page operations.

#[test]
fn test_extracting_the_first_two_of_five_pages_keeps_them_in_order() {
    let doc = create_multi_page_pdf(5);
    let before = doc.get_pages();
    let extracted = PageExtractor::new()
        .extract_pages(&doc, &PageRange::parse("1-2").unwrap())
        .unwrap();
    assert_eq!(extracted.get_pages(), vec![before[0], before[1]]);
    let tree = extracted.page_tree().unwrap();
    assert_eq!(tree.get(b"Count").and_then(|c| c.as_i64()), Some(2));
    // The source is left as it was.
    assert_eq!(doc.get_pages().len(), 5);
}

#[test]
fn test_extraction_is_ascending_whatever_the_order_of_the_range() {
    let doc = create_multi_page_pdf(6);
    let before = doc.get_pages();
    let extracted = PageExtractor::new()
        .extract_pages(&doc, &PageRange::parse("5,2-3,2").unwrap())
        .unwrap();
    assert_eq!(extracted.get_pages(), vec![before[1], before[2], before[4]]);
}

#[test]
fn test_a_range_beyond_the_last_page_is_refused() {
    let doc = create_multi_page_pdf(5);
    let range = PageRange::parse("1-1000").unwrap();
    match PageExtractor::new().extract_pages(&doc, &range) {
        Err(PdfCatError::InvalidPageRange { path, range, total_pages }) => {
            assert_eq!(total_pages, 5);
            assert_eq!(path, PathBuf::from("document"));
            assert_eq!(range, "PageRange { ranges: [Range(1, 1000)] }");
        }
        other => panic!("unexpected: {other:?}"),
    }
    assert!(matches!(
        PageExtractor::new().extract_pages(&doc, &PageRange::parse("6").unwrap()),
        Err(PdfCatError::InvalidPageRange { total_pages: 5, .. })
    ));
    assert!(PageExtractor::new()
        .extract_pages(&doc, &PageRange::parse("5").unwrap())
        .is_ok());
    let empty = Document::with_version("1.4");
    assert!(matches!(
        PageExtractor::new().extract_pages(&empty, &PageRange::parse("1").unwrap()),
        Err(PdfCatError::InvalidPageRange { total_pages: 0, .. })
    ));
}

#[test]
fn test_update_page_tree_needs_a_page_tree() {
    let extractor = PageExtractor::new();
    let mut doc = Document::with_version("1.4");
    assert!(matches!(
        extractor.update_page_tree(&mut doc, &vec![(1, 0)]),
        Err(PdfCatError::MergeFailed { .. })
    ));
    assert_eq!(doc.object_count(), 0);
    let mut doc = create_multi_page_pdf(3);
    extractor.update_page_tree(&mut doc, &vec![(5, 0), (3, 0)]).unwrap();
    assert_eq!(doc.get_pages(), vec![(5, 0), (3, 0)]);
    assert_eq!(
        doc.page_tree().unwrap().get(b"Count").and_then(|c| c.as_i64()),
        Some(2)
    );
}

#[test]
fn test_rotation_adds_to_what_the_page_records() {
    let extractor = PageExtractor::new();
    let mut doc = create_multi_page_pdf(2);
    let pages = doc.get_pages();
    extractor.rotate_all_pages(&mut doc, Rotation::Clockwise270).unwrap();
    assert_eq!(rotation_of(&doc, pages[0]), Some(270));
    extractor.rotate_all_pages(&mut doc, Rotation::Rotate180).unwrap();
    assert_eq!(rotation_of(&doc, pages[0]), Some(90));
    assert_eq!(rotation_of(&doc, pages[1]), Some(90));
    extractor.rotate_page(&mut doc, pages[1], 270).unwrap();
    assert_eq!(rotation_of(&doc, pages[1]), Some(0));
    assert_eq!(rotation_of(&doc, pages[0]), Some(90));
}

#[test]
fn test_two_quarter_turns_are_a_half_turn() {
    for start in [0i64, 90, 180, 270, 45, 359, 360, 725, -90, -460, i64::MAX, i64::MIN] {
        assert_eq!(
            rotate_degrees(rotate_degrees(start, 90), 90),
            rotate_degrees(start, 180),
            "from {start}"
        );
    }
    assert_eq!(rotate_degrees(270, 180), 90);
    assert_eq!(rotate_degrees(-90, 90), 0);
    assert_eq!(rotate_degrees(-460, 90), 350);
    assert_eq!(rotate_degrees(i64::MAX, 270), 277);

    let extractor = PageExtractor::new();
    let mut twice = create_multi_page_pdf(1);
    let mut once = create_multi_page_pdf(1);
    let page = twice.get_pages()[0];
    let mut dict = twice.get_dictionary(page).unwrap().clone();
    dict.set(key("Rotate"), Object::Integer(-460));
    twice.set_object(page, Object::Dictionary(dict.clone()));
    once.set_object(page, Object::Dictionary(dict));
    extractor.rotate_all_pages(&mut twice, Rotation::Clockwise90).unwrap();
    extractor.rotate_all_pages(&mut twice, Rotation::Clockwise90).unwrap();
    extractor.rotate_all_pages(&mut once, Rotation::Rotate180).unwrap();
    assert_eq!(rotation_of(&twice, page), rotation_of(&once, page));
    assert_eq!(rotation_of(&once, page), Some(80));
}

#[test]
fn test_rotation_stops_at_a_page_that_is_no_dictionary() {
    let extractor = PageExtractor::new();
    let mut doc = create_multi_page_pdf(3);
    let pages = doc.get_pages();
    doc.set_object(pages[1], Object::Integer(0));
    assert!(matches!(
        extractor.rotate_all_pages(&mut doc, Rotation::Clockwise90),
        Err(PdfCatError::MergeFailed { .. })
    ));
    assert_eq!(rotation_of(&doc, pages[0]), Some(90));
    assert_eq!(rotation_of(&doc, pages[2]), None);
    assert!(matches!(
        extractor.rotate_page(&mut doc, (99, 0), 90),
        Err(PdfCatError::MergeFailed { .. })
    ));
}

#[test]
fn test_pages_are_appended_and_counted() {
    let merger = Merger::new();
    let mut doc = create_multi_page_pdf(2);
    merger.add_pages_to_tree(&mut doc, &vec![(20, 0), (21, 0)]).unwrap();
    assert_eq!(doc.get_pages(), vec![(3, 0), (4, 0), (20, 0), (21, 0)]);
    assert_eq!(
        doc.page_tree().unwrap().get(b"Count").and_then(|c| c.as_i64()),
        Some(4)
    );
    // A missing count is taken as 0.
    let mut tree = doc.page_tree().unwrap().clone();
    tree.remove(b"Count");
    doc.set_object((2, 0), Object::Dictionary(tree));
    merger.add_pages_to_tree(&mut doc, &vec![(22, 0)]).unwrap();
    assert_eq!(
        doc.page_tree().unwrap().get(b"Count").and_then(|c| c.as_i64()),
        Some(1)
    );
    assert_eq!(doc.get_pages().len(), 5);
}

#[test]
fn test_pages_cannot_be_appended_without_kids() {
    let merger = Merger::new();
    let mut doc = create_multi_page_pdf(1);
    let mut tree = doc.page_tree().unwrap().clone();
    tree.set(key("Kids"), Object::Reference((3, 0)));
    doc.set_object((2, 0), Object::Dictionary(tree.clone()));
    assert!(matches!(
        merger.add_pages_to_tree(&mut doc, &vec![(9, 0)]),
        Err(PdfCatError::MergeFailed { .. })
    ));
    tree.remove(b"Kids");
    doc.set_object((2, 0), Object::Dictionary(tree.clone()));
    assert!(matches!(
        merger.add_pages_to_tree(&mut doc, &vec![(9, 0)]),
        Err(PdfCatError::MergeFailed { .. })
    ));
    tree.set(key("Kids"), Object::Array(vec![]));
    tree.set(key("Count"), Object::Integer(i64::MAX));
    doc.set_object((2, 0), Object::Dictionary(tree));
    assert!(matches!(
        merger.add_pages_to_tree(&mut doc, &vec![(9, 0)]),
        Err(PdfCatError::MergeFailed { .. })
    ));
    assert!(merger.add_pages_to_tree(&mut doc, &vec![]).is_ok());
    let mut empty = Document::with_version("1.4");
    assert!(matches!(
        merger.add_pages_to_tree(&mut empty, &vec![]),
        Err(PdfCatError::MergeFailed { .. })
    ));
}

// Renumbering.

#[test]
fn test_renumbering_counts_up_from_the_start_and_rewrites_references() {
    let mut doc = Document::with_version("1.4");
    let mut catalog = Dictionary::new();
    catalog.set(key("Pages"), Object::Reference((7, 0)));
    catalog.set(key("Gone"), Object::Reference((99, 0)));
    doc.set_object((4, 0), Object::Dictionary(catalog));
    doc.set_object(
        (7, 0),
        Object::Array(vec![Object::Reference((9, 2)), Object::Reference((4, 0))]),
    );
    let mut stream_dict = Dictionary::new();
    stream_dict.set(key("Parent"), Object::Reference((7, 0)));
    doc.set_object((9, 2), Object::Stream(Stream::new(stream_dict, vec![0; 4])));
    doc.trailer_set(key("Root"), Object::Reference((4, 0)));

    renumber_objects_with(&mut doc, 50);

    assert_eq!(all_ids(&doc), vec![(50, 0), (51, 0), (52, 2)]);
    assert_eq!(doc.max_id(), 52);
    assert_eq!(
        doc.trailer().get(b"Root").and_then(|o| o.as_reference()),
        Some((50, 0))
    );
    let catalog = doc.get_dictionary((50, 0)).unwrap();
    assert_eq!(catalog.get(b"Pages").and_then(|o| o.as_reference()), Some((51, 0)));
    // A reference to no object stays as it is.
    assert_eq!(catalog.get(b"Gone").and_then(|o| o.as_reference()), Some((99, 0)));
    let items = doc.get_direct((51, 0)).unwrap().as_array().unwrap();
    assert_eq!(items[0].as_reference(), Some((52, 2)));
    assert_eq!(items[1].as_reference(), Some((50, 0)));
    match doc.get_direct((52, 2)).unwrap() {
        Object::Stream(s) => {
            assert_eq!(s.dict.get(b"Parent").and_then(|o| o.as_reference()), Some((51, 0)))
        }
        other => panic!("unexpected: {other:?}"),
    }

    renumber_objects(&mut doc);
    assert_eq!(all_ids(&doc), vec![(1, 0), (2, 0), (3, 2)]);
    assert_eq!(doc.max_id(), 3);
}

#[test]
fn test_renumbering_an_empty_document() {
    let mut doc = Document::with_version("1.4");
    renumber_objects_with(&mut doc, 8);
    assert_eq!(doc.object_count(), 0);
    assert_eq!(doc.max_id(), 7);
}

// Bookmarks.

#[test]
fn test_outline_is_a_chain_under_one_root() {
    let mut doc = create_multi_page_pdf(4);
    let pages = doc.get_pages();
    let before = doc.max_id();
    let manager = BookmarkManager::new();
    let items = vec![
        ("one".to_string(), pages[0]),
        ("two".to_string(), pages[2]),
        ("three".to_string(), pages[3]),
    ];
    manager.create_outline_structure(&mut doc, &items).unwrap();

    let root_id = (before + 1, 0);
    let item_id = |i: u32| (before + 2 + i, 0);
    assert_eq!(doc.max_id(), before + 4);
    assert_eq!(
        doc.catalog().unwrap().get(b"Outlines").and_then(|o| o.as_reference()),
        Some(root_id)
    );
    let root = doc.get_dictionary(root_id).unwrap();
    assert!(matches!(root.get(b"Type"), Some(Object::Name(n)) if n == b"Outlines"));
    assert_eq!(root.get(b"Count").and_then(|o| o.as_i64()), Some(3));
    assert_eq!(root.get(b"First").and_then(|o| o.as_reference()), Some(item_id(0)));
    assert_eq!(root.get(b"Last").and_then(|o| o.as_reference()), Some(item_id(2)));
    for (i, (title, page)) in items.iter().enumerate() {
        let i = i as u32;
        let item = doc.get_dictionary(item_id(i)).unwrap();
        assert!(matches!(
            item.get(b"Title"),
            Some(Object::String(bytes, StringFormat::Literal)) if bytes == title.as_bytes()
        ));
        assert_eq!(item.get(b"Parent").and_then(|o| o.as_reference()), Some(root_id));
        let dest = item.get(b"Dest").unwrap().as_array().unwrap();
        assert_eq!(dest.len(), 5);
        assert_eq!(dest[0].as_reference(), Some(*page));
        assert!(matches!(&dest[1], Object::Name(n) if n == b"XYZ"));
        assert!(dest[2..].iter().all(|o| matches!(o, Object::Null)));
        assert_eq!(
            item.get(b"Prev").and_then(|o| o.as_reference()),
            if i > 0 { Some(item_id(i - 1)) } else { None }
        );
        assert_eq!(
            item.get(b"Next").and_then(|o| o.as_reference()),
            if i < 2 { Some(item_id(i + 1)) } else { None }
        );
    }
    assert_closed(&doc);
}

#[test]
fn test_bookmarks_are_titled_by_file_name_and_spread_over_the_pages() {
    let mut doc = create_multi_page_pdf(7);
    let pages = doc.get_pages();
    let before = doc.max_id();
    let paths = vec![
        PathBuf::from("/some/dir/first.pdf"),
        PathBuf::from("second.pdf"),
        PathBuf::from(".."),
    ];
    BookmarkManager::new().add_bookmarks_for_files(&mut doc, &paths).unwrap();
    // 7 pages over 3 files: every second page.
    let expected = [("first.pdf", pages[0]), ("second.pdf", pages[2]), ("Unknown", pages[4])];
    for (i, (title, page)) in expected.iter().enumerate() {
        let item = doc.get_dictionary((before + 2 + i as u32, 0)).unwrap();
        assert!(matches!(
            item.get(b"Title"),
            Some(Object::String(bytes, _)) if bytes == title.as_bytes()
        ));
        let dest = item.get(b"Dest").unwrap().as_array().unwrap();
        assert_eq!(dest[0].as_reference(), Some(*page));
    }
}

#[test]
fn test_bookmarks_need_a_catalog_once_there_are_pages() {
    let manager = BookmarkManager::new();
    let mut empty = Document::with_version("1.4");
    // No pages: nothing to do.
    assert!(manager
        .add_bookmarks_for_files(&mut empty, &vec![PathBuf::from("a.pdf")])
        .is_ok());
    assert_eq!(empty.object_count(), 0);
    assert!(matches!(
        manager.create_outline_structure(&mut empty, &vec![("a".to_string(), (1, 0))]),
        Err(PdfCatError::BookmarkFailed { .. })
    ));
    assert_eq!(empty.object_count(), 0);
    assert!(manager.remove_bookmarks(&mut empty).is_ok());
    // No identifier left.
    let mut full = create_multi_page_pdf(1);
    full.set_object((u32::MAX - 1, 0), Object::Null);
    assert!(matches!(
        manager.add_bookmarks_for_files(&mut full, &vec![PathBuf::from("a.pdf")]),
        Err(PdfCatError::BookmarkFailed { .. })
    ));
    assert!(!manager.has_bookmarks(&full));
}

// Document information.

#[test]
fn test_information_is_written_into_a_new_dictionary() {
    let mut doc = create_test_document();
    let before = doc.max_id();
    let manager = MetadataManager::new();
    let metadata = Metadata::new(
        Some("T".to_string()),
        None,
        Some("S".to_string()),
        None,
    );
    manager
        .set_metadata_dated(&mut doc, &metadata, "D:20240102030405Z")
        .unwrap();
    let info_id = (before + 1, 0);
    assert_eq!(
        doc.trailer().get(b"Info").and_then(|o| o.as_reference()),
        Some(info_id)
    );
    let info = doc.get_dictionary(info_id).unwrap();
    let text = |name: &[u8]| match info.get(name) {
        Some(Object::String(bytes, StringFormat::Literal)) => {
            Some(String::from_utf8(bytes.clone()).unwrap())
        }
        _ => None,
    };
    assert_eq!(text(b"Title").as_deref(), Some("T"));
    assert_eq!(text(b"Author"), None);
    assert_eq!(text(b"Subject").as_deref(), Some("S"));
    assert_eq!(text(b"Keywords"), None);
    assert_eq!(text(b"Creator").as_deref(), Some("pdfcat"));
    assert_eq!(text(b"Producer").as_deref(), Some("pdfcat"));
    assert_eq!(text(b"CreationDate").as_deref(), Some("D:20240102030405Z"));
    assert_eq!(text(b"ModDate").as_deref(), Some("D:20240102030405Z"));
    assert_eq!(info.len(), 6);
}

#[test]
fn test_information_is_written_into_the_dictionary_that_is_there() {
    let mut doc = create_test_document();
    let mut info = Dictionary::new();
    info.set(key("Title"), Object::string_literal("old"));
    info.set(key("Custom"), Object::Integer(1));
    doc.set_object((40, 0), Object::Dictionary(info));
    doc.set_object((41, 0), Object::Reference((40, 0)));
    doc.trailer_set(key("Info"), Object::Reference((41, 0)));
    let manager = MetadataManager::new();
    let metadata = Metadata::new(Some("new".to_string()), None, None, None);
    manager.set_metadata_dated(&mut doc, &metadata, "D:1").unwrap();
    assert_eq!(doc.max_id(), 41);
    assert!(doc.get_direct((41, 0)).unwrap().as_reference().is_some());
    let info = doc.get_dictionary((41, 0)).unwrap();
    assert!(matches!(info.get(b"Title"), Some(Object::String(b, _)) if b == b"new"));
    assert_eq!(info.get(b"Custom").and_then(|o| o.as_i64()), Some(1));
    assert_eq!(info.key_at(0), &key("Title"));
    let read = manager.get_metadata(&doc);
    assert_eq!(read.title.as_deref(), Some("new"));
    // What the trailer refers to is deleted, not what that refers to.
    manager.clear_metadata(&mut doc).unwrap();
    assert!(!doc.has_object((41, 0)));
    assert!(doc.has_object((40, 0)));
    assert!(manager.get_metadata(&doc).is_empty());
}

#[test]
fn test_information_that_is_no_text_is_not_read() {
    let mut doc = create_test_document();
    let mut info = Dictionary::new();
    info.set(key("Title"), Object::String(vec![0xff, 0xfe], StringFormat::Literal));
    info.set(key("Author"), Object::name("Name"));
    info.set(key("Subject"), Object::String(b"  padded  ".to_vec(), StringFormat::Hexadecimal));
    info.set(key("Keywords"), Object::String(b"   ".to_vec(), StringFormat::Literal));
    doc.set_object((40, 0), Object::Dictionary(info));
    doc.trailer_set(key("Info"), Object::Reference((40, 0)));
    let read = MetadataManager::new().get_metadata(&doc);
    assert_eq!(read.title, None);
    assert_eq!(read.author, None);
    assert_eq!(read.subject.as_deref(), Some("padded"));
    assert_eq!(read.keywords, None);
    assert_eq!(
        MetadataManager::get_string_field(doc.get_dictionary((40, 0)).unwrap(), b"Subject")
            .as_deref(),
        Some("  padded  ")
    );
}

#[test]
fn test_information_needs_an_identifier() {
    let mut doc = create_test_document();
    doc.set_object((u32::MAX, 0), Object::Null);
    let metadata = Metadata::new(Some("T".to_string()), None, None, None);
    assert!(matches!(
        MetadataManager::new().set_metadata_dated(&mut doc, &metadata, "D:1"),
        Err(PdfCatError::MetadataFailed { .. })
    ));
    assert!(!MetadataManager::new().has_metadata(&doc));
}

// Compaction.

fn compressible_content() -> Vec<u8> {
    b"0 0 612 792 re f ".iter().cycle().take(4000).copied().collect()
}

#[test]
fn test_streams_are_compressed_where_it_helps() {
    let mut doc = create_test_document();
    let content = compressible_content();
    doc.set_object((10, 0), Object::Stream(Stream::new(Dictionary::new(), content.clone())));
    doc.set_object((11, 0), Object::Stream(Stream::new(Dictionary::new(), vec![1, 2, 3])));
    let mut filtered = Dictionary::new();
    filtered.set(key("Filter"), Object::name("ASCIIHexDecode"));
    doc.set_object((12, 0), Object::Stream(Stream::new(filtered, content.clone())));
    let mut font = Stream::new(Dictionary::new(), content.clone());
    font.allows_compression = false;
    doc.set_object((13, 0), Object::Stream(font));

    compress(&mut doc);

    let stream = |n: u32| match doc.get_direct((n, 0)) {
        Some(Object::Stream(s)) => s,
        other => panic!("unexpected: {other:?}"),
    };
    let packed = stream(10);
    assert!(packed.content.len() + 19 < content.len());
    assert_ne!(packed.content, content);
    assert!(matches!(packed.dict.get(b"Filter"), Some(Object::Name(n)) if n == b"FlateDecode"));
    assert_eq!(
        packed.dict.get(b"Length").and_then(|o| o.as_i64()),
        Some(packed.content.len() as i64)
    );
    // zlib data starts with its header.
    assert_eq!(packed.content[0], 0x78);
    assert_eq!(stream(11).content, vec![1, 2, 3]);
    assert!(!stream(11).dict.has(b"Filter"));
    assert_eq!(stream(12).content, content);
    assert!(matches!(stream(12).dict.get(b"Filter"), Some(Object::Name(n)) if n == b"ASCIIHexDecode"));
    assert_eq!(stream(13).content, content);
    assert!(!stream(13).dict.has(b"Filter"));
    assert_eq!(doc.get_pages().len(), 1);
}

#[test]
fn test_pruning_keeps_what_the_trailer_reaches() {
    let mut doc = create_multi_page_pdf(2);
    // Reached through an array inside a dictionary inside a page.
    let mut page = doc.get_dictionary((3, 0)).unwrap().clone();
    let mut resources = Dictionary::new();
    resources.set(key("Fonts"), Object::Array(vec![Object::Reference((20, 0))]));
    page.set(key("Resources"), Object::Dictionary(resources));
    doc.set_object((3, 0), Object::Dictionary(page));
    let mut font = Dictionary::new();
    font.set(key("File"), Object::Reference((21, 0)));
    doc.set_object((20, 0), Object::Stream(Stream::new(font, vec![1])));
    doc.set_object((21, 0), Object::Integer(1));
    // Not reached: a pair that refers to each other, and a loner.
    doc.set_object((30, 0), Object::Reference((31, 0)));
    doc.set_object((31, 0), Object::Array(vec![Object::Reference((30, 0)), Object::Reference((3, 0))]));
    doc.set_object((32, 0), Object::Integer(7));

    prune_objects(&mut doc);

    assert_eq!(
        all_ids(&doc),
        vec![(1, 0), (2, 0), (3, 0), (4, 0), (20, 0), (21, 0)]
    );
    assert_eq!(doc.max_id(), 32);
    assert_eq!(doc.get_pages().len(), 2);
    let mut bare = Document::with_version("1.4");
    bare.set_object((1, 0), Object::Null);
    prune_objects(&mut bare);
    assert_eq!(bare.object_count(), 0);
}

// The merge.

#[test]
fn test_merging_two_documents_adds_their_pages() {
    for (a, b) in [(1usize, 1usize), (2, 3), (5, 1), (1, 7)] {
        let sources = vec![
            loaded(create_multi_page_pdf(a), "a.pdf", 100),
            loaded(create_multi_page_pdf(b), "b.pdf", 250),
        ];
        let config = create_test_config();
        let result = Merger::new()
            .merge_loaded(sources.into_iter().map(Ok).collect(), &config, Duration::from_secs(1))
            .unwrap();
        assert_eq!(result.statistics.files_merged, 2);
        assert_eq!(result.statistics.total_pages, a + b);
        assert_eq!(result.document.get_pages().len(), a + b);
        assert_eq!(result.statistics.input_size, 350);
        assert_eq!(result.statistics.load_time, Duration::from_secs(1));
        assert_eq!(result.statistics.bookmarks_added, 0);
        assert!(result.statistics.compressed);
        assert_eq!(
            result.merged_files,
            vec![PathBuf::from("a.pdf"), PathBuf::from("b.pdf")]
        );
        assert_closed(&result.document);
    }
}

#[test]
fn test_merging_one_document_keeps_its_pages() {
    for pages in [1usize, 4, 9] {
        let sources = vec![loaded(create_multi_page_pdf(pages), "single.pdf", 1)];
        let mut config = create_test_config();
        config.compression = CompressionLevel::Uncompressed;
        let document = Merger::new().merge_documents(&sources, &config).unwrap();
        assert_eq!(document.get_pages().len(), pages);
        assert_eq!(document.object_count(), pages + 2);
    }
}

#[test]
fn test_merged_pages_follow_the_order_of_the_sources() {
    let mut first = create_multi_page_pdf(2);
    let mut second = create_multi_page_pdf(2);
    // Mark each page with where it comes from.
    for (doc, mark) in [(&mut first, 100i64), (&mut second, 200)] {
        for (k, page) in doc.get_pages().into_iter().enumerate() {
            let mut dict = doc.get_dictionary(page).unwrap().clone();
            dict.set(key("Mark"), Object::Integer(mark + k as i64));
            doc.set_object(page, Object::Dictionary(dict));
        }
    }
    let sources = vec![loaded(first, "a.pdf", 1), loaded(second, "b.pdf", 1)];
    let mut config = create_test_config();
    config.compression = CompressionLevel::Uncompressed;
    let document = Merger::new().merge_documents_at(&sources, &config, 0).unwrap();
    let marks: Vec<i64> = document
        .get_pages()
        .into_iter()
        .map(|p| {
            document
                .get_dictionary(p)
                .unwrap()
                .get(b"Mark")
                .and_then(|m| m.as_i64())
                .unwrap()
        })
        .collect();
    assert_eq!(marks, vec![100, 101, 200, 201]);
    // The result is numbered from 1 without gaps.
    let numbers: Vec<u32> = all_ids(&document).into_iter().map(|id| id.0).collect();
    assert_eq!(numbers, (1..=8).collect::<Vec<u32>>());
    assert_eq!(document.max_id(), 8);
    assert_closed(&document);
}

#[test]
fn test_merge_with_bookmarks_points_at_a_page_of_each_source() {
    let sources = vec![
        loaded(create_multi_page_pdf(1), "/in/doc_a.pdf", 1),
        loaded(create_multi_page_pdf(1), "/in/doc_b.pdf", 1),
    ];
    let mut config = create_test_config();
    config.bookmarks = true;
    config.compression = CompressionLevel::Uncompressed;
    let document = Merger::new().merge_documents_at(&sources, &config, 0).unwrap();
    let pages = document.get_pages();
    assert_eq!(pages.len(), 2);
    assert!(BookmarkManager::new().has_bookmarks(&document));
    let root_id = document
        .catalog()
        .unwrap()
        .get(b"Outlines")
        .and_then(|o| o.as_reference())
        .unwrap();
    let root = document.get_dictionary(root_id).unwrap();
    assert_eq!(root.get(b"Count").and_then(|o| o.as_i64()), Some(2));
    let first_id = root.get(b"First").and_then(|o| o.as_reference()).unwrap();
    let last_id = root.get(b"Last").and_then(|o| o.as_reference()).unwrap();
    let first = document.get_dictionary(first_id).unwrap();
    let last = document.get_dictionary(last_id).unwrap();
    assert_eq!(first.get(b"Next").and_then(|o| o.as_reference()), Some(last_id));
    assert_eq!(last.get(b"Prev").and_then(|o| o.as_reference()), Some(first_id));
    assert!(first.get(b"Prev").is_none());
    assert!(last.get(b"Next").is_none());
    let target = |item: &Dictionary| item.get(b"Dest").unwrap().as_array().unwrap()[0].as_reference();
    assert_eq!(target(first), Some(pages[0]));
    assert_eq!(target(last), Some(pages[1]));
    assert!(matches!(first.get(b"Title"), Some(Object::String(b, _)) if b == b"doc_a.pdf"));
    assert!(matches!(last.get(b"Title"), Some(Object::String(b, _)) if b == b"doc_b.pdf"));
    assert_closed(&document);
}

#[test]
fn test_merging_three_copies_with_a_range_of_one_page() {
    let sources = vec![
        loaded(create_multi_page_pdf(2), "a.pdf", 1),
        loaded(create_multi_page_pdf(2), "b.pdf", 1),
        loaded(create_multi_page_pdf(2), "c.pdf", 1),
    ];
    let mut config = create_test_config();
    config.page_range = Some(PageRange::parse("1").unwrap());
    let document = Merger::new().merge_documents(&sources, &config).unwrap();
    assert_eq!(document.get_pages().len(), 3);
    assert_closed(&document);
}

#[test]
fn test_merge_with_every_option() {
    let mut with_stream = create_multi_page_pdf(2);
    with_stream.set_object(
        (30, 0),
        Object::Stream(Stream::new(Dictionary::new(), compressible_content())),
    );
    with_stream.set_object((31, 0), Object::Integer(1));
    let mut page = with_stream.get_dictionary((3, 0)).unwrap().clone();
    page.set(key("Contents"), Object::Reference((30, 0)));
    with_stream.set_object((3, 0), Object::Dictionary(page));
    let sources = vec![
        loaded(create_multi_page_pdf(3), "a.pdf", 1),
        loaded(with_stream, "b.pdf", 1),
    ];
    let mut config = create_test_config();
    config.bookmarks = true;
    config.rotation = Some(Rotation::Clockwise90);
    config.page_range = Some(PageRange::parse("1-2").unwrap());
    config.compression = CompressionLevel::Maximum;
    config.metadata = Metadata::new(Some("Merged".to_string()), None, None, None);
    let document = Merger::new()
        .merge_documents_at(&sources, &config, 1_700_000_000)
        .unwrap();
    let pages = document.get_pages();
    assert_eq!(pages.len(), 4);
    for page in &pages {
        assert_eq!(rotation_of(&document, *page), Some(90));
    }
    assert!(BookmarkManager::new().has_bookmarks(&document));
    let info = MetadataManager::new().get_metadata(&document);
    assert_eq!(info.title.as_deref(), Some("Merged"));
    let info_id = document.trailer().get(b"Info").and_then(|o| o.as_reference()).unwrap();
    assert!(matches!(
        document.get_dictionary(info_id).unwrap().get(b"ModDate"),
        Some(Object::String(b, _)) if b == b"D:20231114171812Z"
    ));
    // The page left out, the catalog of the second source and the loose
    // integer are pruned. What stays: catalog, page tree, four pages, the
    // page tree of the second source (its pages name it as their parent),
    // one stream, the outline of three, the information.
    assert_eq!(document.object_count(), 12);
    let numbers: Vec<u32> = all_ids(&document).into_iter().map(|id| id.0).collect();
    assert_eq!(numbers, (1..=12).collect::<Vec<u32>>());
    let streams: Vec<&Stream> = (0..document.object_count())
        .filter_map(|i| match document.object_at(i) {
            Object::Stream(s) => Some(s),
            _ => None,
        })
        .collect();
    assert_eq!(streams.len(), 1);
    assert!(streams[0].dict.has(b"Filter"));
    assert_closed(&document);
}

#[test]
fn test_merge_fails_where_a_step_fails() {
    let merger = Merger::new();
    let mut config = create_test_config();
    assert!(matches!(
        merger.merge_documents(&vec![], &config),
        Err(PdfCatError::NoFilesToMerge)
    ));
    config.page_range = Some(PageRange::parse("3").unwrap());
    let sources = vec![
        loaded(create_multi_page_pdf(3), "a.pdf", 1),
        loaded(create_multi_page_pdf(2), "b.pdf", 1),
    ];
    assert!(matches!(
        merger.merge_documents(&sources, &config),
        Err(PdfCatError::InvalidPageRange { total_pages: 2, .. })
    ));
    config.page_range = None;
    let sources = vec![
        loaded(Document::with_version("1.4"), "a.pdf", 1),
        loaded(create_multi_page_pdf(2), "b.pdf", 1),
    ];
    assert!(matches!(
        merger.merge_documents(&sources, &config),
        Err(PdfCatError::MergeFailed { .. })
    ));
}

#[test]
fn test_failed_loads_are_skipped_only_on_request() {
    let merger = Merger::new();
    let results = || -> Vec<Result<LoadedPdf, PdfCatError>> {
        vec![
            Ok(loaded(create_multi_page_pdf(2), "a.pdf", 10)),
            Err(PdfCatError::corrupted_pdf(PathBuf::from("b.pdf"), "broken")),
            Ok(loaded(create_multi_page_pdf(1), "c.pdf", 20)),
            Err(PdfCatError::encrypted_pdf(PathBuf::from("d.pdf"))),
        ]
    };
    let mut config = create_test_config();
    assert!(matches!(
        merger.merge_loaded(results(), &config, Duration::ZERO),
        Err(PdfCatError::CorruptedPdf { .. })
    ));
    config.continue_on_error = true;
    let merged = merger.merge_loaded(results(), &config, Duration::ZERO).unwrap();
    assert_eq!(merged.statistics.files_merged, 2);
    assert_eq!(merged.statistics.total_pages, 3);
    assert_eq!(merged.statistics.input_size, 30);
    assert_eq!(
        merged.merged_files,
        vec![PathBuf::from("a.pdf"), PathBuf::from("c.pdf")]
    );
    let all_failed: Vec<Result<LoadedPdf, PdfCatError>> = vec![
        Err(PdfCatError::corrupted_pdf(PathBuf::from("b.pdf"), "broken")),
        Err(PdfCatError::encrypted_pdf(PathBuf::from("d.pdf"))),
    ];
    assert!(matches!(
        merger.merge_loaded(all_failed, &config, Duration::ZERO),
        Err(PdfCatError::NoFilesToMerge)
    ));
    assert!(matches!(
        merger.merge_loaded(vec![], &config, Duration::ZERO),
        Err(PdfCatError::NoFilesToMerge)
    ));
    config.compression = CompressionLevel::Uncompressed;
    let merged = merger
        .merge_loaded(vec![Ok(loaded(create_multi_page_pdf(1), "a.pdf", u64::MAX)), Ok(loaded(create_multi_page_pdf(1), "b.pdf", 5))], &config, Duration::ZERO)
        .unwrap();
    assert!(!merged.statistics.compressed);
    assert_eq!(merged.statistics.input_size, u64::MAX);
}

// Loading and writing.

#[test]
fn test_loaded_documents_are_counted_and_checked() {
    let reader = PdfReader::new();
    let accepted = reader
        .accept(create_multi_page_pdf(3), PathBuf::from("a.pdf"), Duration::from_millis(7), 99)
        .unwrap();
    assert_eq!(accepted.page_count, 3);
    assert_eq!(accepted.path, PathBuf::from("a.pdf"));
    assert_eq!(accepted.load_time, Duration::from_millis(7));
    assert_eq!(accepted.file_size, 99);
    match reader.accept(Document::with_version("1.4"), PathBuf::from("e.pdf"), Duration::ZERO, 0) {
        Err(PdfCatError::CorruptedPdf { path, details }) => {
            assert_eq!(path, PathBuf::from("e.pdf"));
            assert_eq!(details, "PDF has no pages");
        }
        other => panic!("unexpected: {other:?}"),
    }
    let lenient = PdfReader::without_verification();
    assert_eq!(
        lenient
            .accept(Document::with_version("1.4"), PathBuf::from("e.pdf"), Duration::ZERO, 0)
            .unwrap()
            .page_count,
        0
    );
    let _default = PdfReader::default();
}

#[test]
fn test_load_errors_are_told_apart_by_their_text() {
    let p = || PathBuf::from("x.pdf");
    assert!(matches!(
        PdfReader::load_error(p(), "file is encrypted"),
        PdfCatError::EncryptedPdf { .. }
    ));
    assert!(matches!(
        PdfReader::load_error(p(), "wrong password given"),
        PdfCatError::EncryptedPdf { .. }
    ));
    match PdfReader::load_error(p(), "Encrypted with a Password") {
        PdfCatError::FailedToLoadPdf { path, reason } => {
            assert_eq!(path, p());
            assert_eq!(reason, "Encrypted with a Password");
        }
        other => panic!("unexpected: {other:?}"),
    }
    assert!(matches!(
        PdfReader::load_error(p(), "encryp"),
        PdfCatError::FailedToLoadPdf { .. }
    ));
    assert!(matches!(
        PdfReader::load_error(p(), ""),
        PdfCatError::FailedToLoadPdf { .. }
    ));
}

#[test]
fn test_load_statistics_add_up() {
    let results: Vec<Result<LoadedPdf, PdfCatError>> = vec![
        Ok(LoadedPdf::new(create_multi_page_pdf(2), PathBuf::from("a"), Duration::from_millis(10), 1000)),
        Err(PdfCatError::NoFilesToMerge),
        Ok(LoadedPdf::new(create_multi_page_pdf(3), PathBuf::from("b"), Duration::from_millis(25), 536)),
        Ok(LoadedPdf::new(create_multi_page_pdf(1), PathBuf::from("c"), Duration::from_millis(1), 0)),
    ];
    let stats = LoadStatistics::from_results(&results, Duration::from_secs(3));
    assert_eq!(stats.success_count, 3);
    assert_eq!(stats.failure_count, 1);
    assert_eq!(stats.total_time, Duration::from_secs(3));
    assert_eq!(stats.total_size, 1536);
    assert_eq!(stats.total_pages, 6);
    assert_eq!(stats.average_time, Duration::from_millis(12));
    assert_eq!(stats.format_total_size(), "1.50 KB");
    let none = LoadStatistics::from_results(&vec![Err(PdfCatError::Cancelled)], Duration::ZERO);
    assert_eq!(none.success_count, 0);
    assert_eq!(none.failure_count, 1);
    assert_eq!(none.average_time, Duration::ZERO);
    let long: Vec<Result<LoadedPdf, PdfCatError>> = vec![
        Ok(LoadedPdf::new(create_multi_page_pdf(1), PathBuf::from("a"), Duration::MAX, u64::MAX)),
        Ok(LoadedPdf::new(create_multi_page_pdf(1), PathBuf::from("b"), Duration::from_secs(1), 1)),
    ];
    let capped = LoadStatistics::from_results(&long, Duration::ZERO);
    assert_eq!(capped.total_size, u64::MAX);
    assert_eq!(capped.average_time, Duration::MAX / 2);
}

#[test]
fn test_writer_options() {
    let defaults = WriteOptions::default();
    assert!(defaults.atomic && defaults.compress && defaults.optimize);
    assert_eq!(defaults.buffer_size, 8192);
    assert!(PdfWriter::new().write_options().atomic);
    assert!(!PdfWriter::non_atomic().write_options().atomic);
    assert!(PdfWriter::non_atomic().write_options().compress);
    assert!(!PdfWriter::without_compression().write_options().compress);
    assert!(PdfWriter::without_compression().write_options().atomic);
    assert!(PdfWriter::default().write_options().optimize);
    let custom = PdfWriter::with_options(WriteOptions {
        atomic: false,
        compress: false,
        optimize: false,
        buffer_size: 4096,
    });
    assert_eq!(custom.write_options().buffer_size, 4096);
    let stats = WriteStatistics {
        write_time: Duration::from_millis(3),
        file_size: 2 * 1024 * 1024,
        output_path: PathBuf::from("out.pdf"),
        compressed: true,
        optimized: false,
    };
    assert_eq!(stats.format_file_size(), "2.00 MB");
}

#[test]
fn test_writer_prepares_a_copy() {
    let mut doc = create_multi_page_pdf(1);
    doc.set_object((50, 0), Object::Stream(Stream::new(Dictionary::new(), compressible_content())));
    let prepared = PdfWriter::new().prepare(&doc).unwrap();
    assert_eq!(all_ids(&prepared), vec![(1, 0), (2, 0), (3, 0), (4, 0)]);
    assert!(matches!(prepared.get_direct((4, 0)), Some(Object::Stream(s)) if s.dict.has(b"Filter")));
    assert!(doc.has_object((50, 0)));
    let plain = PdfWriter::with_options(WriteOptions {
        atomic: true,
        compress: false,
        optimize: false,
        buffer_size: 1,
    })
    .prepare(&doc)
    .unwrap();
    assert!(matches!(plain.get_direct((50, 0)), Some(Object::Stream(s)) if !s.dict.has(b"Filter")));
}
