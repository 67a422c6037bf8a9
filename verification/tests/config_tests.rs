use pdfcat::config::{
    CompressionLevel, Config, Metadata, OverwriteMode, PageRange, Rotation,
};
use std::path::PathBuf;

fn sample_config() -> Config {
    Config {
        inputs: vec![PathBuf::from("a.pdf")],
        output: PathBuf::from("out.pdf"),
        dry_run: false,
        verbose: false,
        overwrite_mode: OverwriteMode::Prompt,
        quiet: false,
        bookmarks: false,
        compression: CompressionLevel::Standard,
        metadata: Metadata::default(),
        continue_on_error: false,
        jobs: None,
        page_range: None,
        rotation: None,
    }
}

#[test]
fn test_compression_level_from_str() {
    assert_eq!(
        CompressionLevel::from_str("none").unwrap(),
        CompressionLevel::Uncompressed
    );
    assert_eq!(
        CompressionLevel::from_str("standard").unwrap(),
        CompressionLevel::Standard
    );
    assert_eq!(
        CompressionLevel::from_str("maximum").unwrap(),
        CompressionLevel::Maximum
    );
    assert_eq!(
        CompressionLevel::from_str("STANDARD").unwrap(),
        CompressionLevel::Standard
    );
    assert!(CompressionLevel::from_str("invalid").is_err());
}

#[test]
fn test_rotation_from_degrees() {
    assert_eq!(Rotation::from_degrees(90).unwrap(), Rotation::Clockwise90);
    assert_eq!(Rotation::from_degrees(180).unwrap(), Rotation::Rotate180);
    assert_eq!(Rotation::from_degrees(270).unwrap(), Rotation::Clockwise270);
    assert!(Rotation::from_degrees(45).is_err());
}

#[test]
fn test_rotation_as_degrees() {
    assert_eq!(Rotation::Clockwise90.as_degrees(), 90);
    assert_eq!(Rotation::Rotate180.as_degrees(), 180);
    assert_eq!(Rotation::Clockwise270.as_degrees(), 270);
}

#[test]
fn test_page_range_single() {
    let range = PageRange::parse("5").unwrap();
    assert!(range.contains(5));
    assert!(!range.contains(4));
    assert!(!range.contains(6));
}

#[test]
fn test_page_range_range() {
    let range = PageRange::parse("5-10").unwrap();
    assert!(!range.contains(4));
    assert!(range.contains(5));
    assert!(range.contains(7));
    assert!(range.contains(10));
    assert!(!range.contains(11));
}

#[test]
fn test_page_range_multiple() {
    let range = PageRange::parse("1-3,5,7-9").unwrap();
    assert!(range.contains(1));
    assert!(range.contains(2));
    assert!(range.contains(3));
    assert!(!range.contains(4));
    assert!(range.contains(5));
    assert!(!range.contains(6));
    assert!(range.contains(7));
    assert!(range.contains(8));
    assert!(range.contains(9));
    assert!(!range.contains(10));
}

#[test]
fn test_page_range_to_pages() {
    let range = PageRange::parse("2-4,6").unwrap();
    assert_eq!(range.to_pages(10), vec![2, 3, 4, 6]);
}

#[test]
fn test_page_range_invalid() {
    assert!(PageRange::parse("0").is_err());
    assert!(PageRange::parse("5-3").is_err());
    assert!(PageRange::parse("abc").is_err());
    assert!(PageRange::parse("").is_err());
    assert!(PageRange::parse("1-2-3").is_err());
}

#[test]
fn test_metadata_is_empty() {
    let empty = Metadata::default();
    assert!(empty.is_empty());

    let not_empty = Metadata {
        title: Some("Title".to_string()),
        ..Default::default()
    };
    assert!(!not_empty.is_empty());
}

#[test]
fn test_metadata_new_trims_whitespace() {
    let meta = Metadata::new(
        Some("  Title  ".to_string()),
        Some("   ".to_string()),
        None,
        Some("keyword".to_string()),
    );

    assert_eq!(meta.title, Some("Title".to_string()));
    assert_eq!(meta.author, None);
    assert_eq!(meta.subject, None);
    assert_eq!(meta.keywords, Some("keyword".to_string()));
}

#[test]
fn test_config_validation() {
    let mut config = sample_config();

    assert!(config.validate().is_ok());

    config.inputs.clear();
    assert!(config.validate().is_err());
    config.inputs = vec![PathBuf::from("a.pdf")];

    config.verbose = true;
    config.quiet = true;
    assert!(config.validate().is_err());
    config.verbose = false;
    config.quiet = false;

    config.jobs = Some(0);
    assert!(config.validate().is_err());
    config.jobs = None;

    config.output = PathBuf::from("a.pdf");
    assert!(config.validate().is_err());
}

#[test]
fn test_effective_jobs() {
    let config = Config {
        jobs: Some(4),
        ..sample_config()
    };

    assert_eq!(config.effective_jobs(Some(16)), 4);

    let auto_config = Config {
        jobs: None,
        ..config
    };

    assert!(auto_config.effective_jobs(Some(8)) >= 1);
    assert_eq!(auto_config.effective_jobs(None), 1);
    assert_eq!(auto_config.effective_jobs(Some(3)), 3);
}

#[test]
fn test_should_print() {
    let mut config = sample_config();

    assert!(config.should_print());

    config.quiet = true;
    assert!(!config.should_print());

    config.dry_run = true;
    assert!(config.should_print());
}

#[test]
fn test_inputs_are_given_back() {
    let config = sample_config();
    assert_eq!(config.inputs(), &[PathBuf::from("a.pdf")][..]);
}

#[test]
fn test_validation_messages() {
    let mut config = sample_config();
    config.inputs.clear();
    assert_eq!(
        config.validate().unwrap_err().to_string(),
        "No input files specified"
    );
    config.inputs = vec![PathBuf::from("a.pdf")];
    config.verbose = true;
    config.quiet = true;
    assert_eq!(
        config.validate().unwrap_err().to_string(),
        "Cannot use both --verbose and --quiet"
    );
    config.quiet = false;
    config.jobs = Some(0);
    assert_eq!(
        config.validate().unwrap_err().to_string(),
        "Number of jobs must be at least 1"
    );
    config.jobs = Some(2);
    config.output = PathBuf::from("a.pdf");
    assert_eq!(
        config.validate().unwrap_err().to_string(),
        "Output file cannot be the same as an input file: a.pdf"
    );
}

#[test]
fn test_compression_level_error_and_case() {
    // Lower-casing is what decides: a name in any case is read.
    assert_eq!(
        CompressionLevel::from_str("MaXiMuM").unwrap(),
        CompressionLevel::Maximum
    );
    assert_eq!(
        CompressionLevel::from_str("bad").unwrap_err().to_string(),
        "Invalid configuration: Invalid compression level: bad. Must be one of: none, standard, maximum"
    );
    assert_eq!(CompressionLevel::default(), CompressionLevel::Standard);
    assert_eq!(OverwriteMode::default(), OverwriteMode::Prompt);
}

#[test]
fn test_rotation_error_text() {
    assert_eq!(
        Rotation::from_degrees(45).unwrap_err().to_string(),
        "Invalid configuration: Invalid rotation: 45. Must be 90, 180, or 270"
    );
    assert!(Rotation::from_degrees(0).is_err());
    assert!(Rotation::from_degrees(360).is_err());
}

#[test]
fn test_page_range_grammar_edges() {
    // Whitespace around parts and numbers is ignored.
    let range = PageRange::parse(" 1 - 3 , 7 ").unwrap();
    assert_eq!(range.to_pages(10), vec![1, 2, 3, 7]);
    // A plus sign may stand before a number.
    assert_eq!(PageRange::parse("+2").unwrap().to_pages(5), vec![2]);
    // Overlapping parts give each page once, ascending.
    assert_eq!(PageRange::parse("3-4,1-3,4").unwrap().to_pages(9), vec![1, 2, 3, 4]);
    // A span of one page.
    assert_eq!(PageRange::parse("2-2").unwrap().to_pages(9), vec![2]);
    // The largest number that fits.
    assert!(PageRange::parse("4294967295").is_ok());
    assert!(PageRange::parse("4294967296").is_err());
    assert!(PageRange::parse("1,").is_err());
    assert!(PageRange::parse(",1").is_err());
    assert!(PageRange::parse("-3").is_err());
    assert!(PageRange::parse("3-").is_err());
    assert!(PageRange::parse("0-3").is_err());
    assert!(PageRange::parse("1 2").is_err());
    assert!(PageRange::parse("--").is_err());
    assert!(PageRange::parse("+").is_err());
}

#[test]
fn test_page_range_limits() {
    let range = PageRange::parse("2-4,6").unwrap();
    assert_eq!(range.max_page(), 6);
    assert_eq!(range.to_pages(3), vec![2, 3]);
    assert_eq!(range.to_pages(0), Vec::<u32>::new());
    assert_eq!(range.to_pages(1), Vec::<u32>::new());
    assert_eq!(
        range.debug_text(),
        "PageRange { ranges: [Range(2, 4), Single(6)] }"
    );
    assert_eq!(
        PageRange::parse("7").unwrap().debug_text(),
        "PageRange { ranges: [Single(7)] }"
    );
}

#[test]
fn test_metadata_trims_unicode_whitespace() {
    let meta = Metadata::new(
        Some("\u{2003}Title\u{00a0}\n".to_string()),
        Some("\t\u{3000}".to_string()),
        Some("in side".to_string()),
        None,
    );
    assert_eq!(meta.title, Some("Title".to_string()));
    assert_eq!(meta.author, None);
    assert_eq!(meta.subject, Some("in side".to_string()));
    assert!(!meta.is_empty());
}

#[test]
fn test_page_range_error_texts() {
    let message = |text: &str| PageRange::parse(text).unwrap_err().to_string();
    assert_eq!(message("0"), "Page numbers must be positive (1-indexed)");
    assert_eq!(message("0-3"), "Page numbers must be positive (1-indexed)");
    assert_eq!(message("3-0"), "Page numbers must be positive (1-indexed)");
    assert_eq!(
        message("5-3"),
        "Invalid range 5-3: start page must be less than or equal to end page"
    );
    assert_eq!(message("abc"), "Invalid page number: abc");
    assert_eq!(message(""), "Invalid page number: ");
    assert_eq!(message("1, "), "Invalid page number: ");
    assert_eq!(
        message("1-2-3"),
        "Invalid page range format: 1-2-3. Expected format like '1-5'"
    );
    // The first part that is wrong is named, as it is written between its
    // separators.
    assert_eq!(message("1, x -3 ,0"), "Invalid page number: x ");
    assert_eq!(message("2- y"), "Invalid page number:  y");
    assert_eq!(message("4294967296"), "Invalid page number: 4294967296");
    assert_eq!(message("1,2,0,x"), "Page numbers must be positive (1-indexed)");
}

#[test]
fn test_every_white_space_character_is_trimmed() {
    let white: Vec<u32> = vec![
        0x09, 0x0A, 0x0B, 0x0C, 0x0D, 0x20, 0x85, 0xA0, 0x1680, 0x2000, 0x2001, 0x2002, 0x2003,
        0x2004, 0x2005, 0x2006, 0x2007, 0x2008, 0x2009, 0x200A, 0x2028, 0x2029, 0x202F, 0x205F,
        0x3000,
    ];
    for code in white {
        let c = char::from_u32(code).unwrap();
        let meta = Metadata::new(Some(format!("{c}T{c}")), Some(format!("{c}")), None, None);
        assert_eq!(meta.title, Some("T".to_string()), "U+{code:04X}");
        assert_eq!(meta.author, None, "U+{code:04X}");
    }
    // Their neighbours are no white space.
    for code in [0x08u32, 0x0E, 0x1F, 0x21, 0x84, 0x86, 0x9F, 0xA1, 0x180E, 0x1FFF, 0x200B, 0x2027, 0x202A, 0x2060, 0x3001, 0xFEFF] {
        let c = char::from_u32(code).unwrap();
        let meta = Metadata::new(Some(format!("{c}T{c}")), None, None, None);
        assert_eq!(meta.title, Some(format!("{c}T{c}")), "U+{code:04X}");
    }
}
