use pdfcat::cli::{input_list_paths, Cli};
use pdfcat::overwrite::{answer_allows, overwrite_decision, OverwriteDecision};
use pdfcat::config::{CompressionLevel, OverwriteMode, Rotation};
use pdfcat::error::PdfCatError;
use std::path::PathBuf;

fn create_test_cli(inputs: Vec<&str>, output: &str) -> Cli {
    Cli {
        inputs: inputs.iter().map(|s| PathBuf::from(s)).collect(),
        output: PathBuf::from(output),
        dry_run: false,
        verbose: false,
        force: false,
        no_clobber: false,
        quiet: false,
        bookmarks: false,
        compression: "standard".to_string(),
        title: None,
        author: None,
        subject: None,
        keywords: None,
        continue_on_error: false,
        input_list: None,
        jobs: None,
        pages: None,
        rotate: None,
    }
}

#[test]
fn test_basic_cli_to_config() {
    let cli = create_test_cli(vec!["a.pdf", "b.pdf"], "out.pdf");
    let config = cli.to_config().unwrap();

    assert_eq!(config.inputs.len(), 2);
    assert_eq!(config.output, PathBuf::from("out.pdf"));
    assert!(!config.dry_run);
    assert!(!config.verbose);
}

#[test]
fn test_cli_with_compression() {
    let mut cli = create_test_cli(vec!["a.pdf"], "out.pdf");
    cli.compression = "maximum".to_string();

    let config = cli.to_config().unwrap();
    assert_eq!(config.compression, CompressionLevel::Maximum);
}

#[test]
fn test_cli_with_invalid_compression() {
    let mut cli = create_test_cli(vec!["a.pdf"], "out.pdf");
    cli.compression = "invalid".to_string();

    assert!(cli.to_config().is_err());
}

#[test]
fn test_cli_with_rotation() {
    let mut cli = create_test_cli(vec!["a.pdf"], "out.pdf");
    cli.rotate = Some("90".to_string());

    let config = cli.to_config().unwrap();
    assert_eq!(config.rotation, Some(Rotation::Clockwise90));
}

#[test]
fn test_cli_with_invalid_rotation() {
    let mut cli = create_test_cli(vec!["a.pdf"], "out.pdf");
    cli.rotate = Some("45".to_string());

    assert!(cli.to_config().is_err());
}

#[test]
fn test_cli_overwrite_modes() {
    let mut cli = create_test_cli(vec!["a.pdf"], "out.pdf");

    let config = cli.to_config().unwrap();
    assert_eq!(config.overwrite_mode, OverwriteMode::Prompt);

    cli.force = true;
    let config = cli.to_config().unwrap();
    assert_eq!(config.overwrite_mode, OverwriteMode::Force);

    cli.force = false;
    cli.no_clobber = true;
    let config = cli.to_config().unwrap();
    assert_eq!(config.overwrite_mode, OverwriteMode::NoClobber);
}

#[test]
fn test_cli_with_page_range() {
    let mut cli = create_test_cli(vec!["a.pdf"], "out.pdf");
    cli.pages = Some("1-5,10".to_string());

    let config = cli.to_config().unwrap();
    assert!(config.page_range.is_some());

    let page_range = config.page_range.unwrap();
    assert!(page_range.contains(3));
    assert!(page_range.contains(10));
    assert!(!page_range.contains(7));
}

#[test]
fn test_cli_with_invalid_page_range() {
    let mut cli = create_test_cli(vec!["a.pdf"], "out.pdf");
    cli.pages = Some("invalid".to_string());

    assert!(cli.to_config().is_err());
}

#[test]
fn test_cli_with_metadata() {
    let mut cli = create_test_cli(vec!["a.pdf"], "out.pdf");
    cli.title = Some("Test Title".to_string());
    cli.author = Some("Test Author".to_string());

    let config = cli.to_config().unwrap();
    assert_eq!(config.metadata.title, Some("Test Title".to_string()));
    assert_eq!(config.metadata.author, Some("Test Author".to_string()));
}

#[test]
fn test_cli_validate_no_inputs() {
    let mut cli = create_test_cli(vec!["a.pdf"], "out.pdf");
    cli.inputs.clear();

    assert!(cli.validate().is_err());
}

#[test]
fn test_cli_validate_zero_jobs() {
    let mut cli = create_test_cli(vec!["a.pdf"], "out.pdf");
    cli.jobs = Some(0);

    assert!(cli.validate().is_err());
}

#[test]
fn test_cli_validate_invalid_compression() {
    let mut cli = create_test_cli(vec!["a.pdf"], "out.pdf");
    cli.compression = "super".to_string();

    assert!(cli.validate().is_err());
}

#[test]
fn test_cli_validate_invalid_rotation() {
    let mut cli = create_test_cli(vec!["a.pdf"], "out.pdf");
    cli.rotate = Some("360".to_string());

    assert!(cli.validate().is_err());
}

#[test]
fn test_cli_validate_accepts_and_refuses() {
    let mut cli = create_test_cli(vec!["a.pdf"], "out.pdf");
    assert!(cli.validate().is_ok());
    cli.rotate = Some("270".to_string());
    cli.pages = Some("1-3".to_string());
    cli.jobs = Some(2);
    assert!(cli.validate().is_ok());
    // The level is compared as it is written.
    cli.compression = "Standard".to_string();
    assert!(matches!(
        cli.validate(),
        Err(PdfCatError::InvalidConfig { message }) if message == "Invalid compression level: Standard"
    ));
    cli.compression = "none".to_string();
    cli.rotate = Some("+90".to_string());
    assert!(matches!(
        cli.validate(),
        Err(PdfCatError::InvalidConfig { message })
            if message == "Invalid rotation: +90. Must be 90, 180, or 270"
    ));
    cli.rotate = None;
    cli.pages = Some("3-1".to_string());
    assert!(matches!(cli.validate(), Err(PdfCatError::InvalidConfig { .. })));
}

#[test]
fn test_cli_to_config_carries_everything_over() {
    let mut cli = create_test_cli(vec!["a.pdf", "b.pdf"], "out.pdf");
    cli.dry_run = true;
    cli.quiet = true;
    cli.bookmarks = true;
    cli.continue_on_error = true;
    cli.jobs = Some(3);
    cli.compression = "NONE".to_string();
    cli.rotate = Some("+180".to_string());
    cli.title = Some("  spaced  ".to_string());
    cli.subject = Some(" ".to_string());
    cli.keywords = Some("k".to_string());
    let config = cli.to_config().unwrap();
    assert_eq!(config.inputs, vec![PathBuf::from("a.pdf"), PathBuf::from("b.pdf")]);
    assert!(config.dry_run && config.quiet && config.bookmarks && config.continue_on_error);
    assert!(!config.verbose);
    assert_eq!(config.jobs, Some(3));
    assert_eq!(config.compression, CompressionLevel::Uncompressed);
    assert_eq!(config.rotation, Some(Rotation::Rotate180));
    assert!(config.page_range.is_none());
    assert_eq!(config.metadata.title.as_deref(), Some("spaced"));
    assert_eq!(config.metadata.author, None);
    assert_eq!(config.metadata.subject, None);
    assert_eq!(config.metadata.keywords.as_deref(), Some("k"));
}

#[test]
fn test_cli_to_config_errors() {
    let message = |cli: &Cli| match cli.to_config() {
        Err(PdfCatError::InvalidConfig { message }) => message,
        other => panic!("unexpected: {other:?}"),
    };
    let mut cli = create_test_cli(vec!["a.pdf"], "out.pdf");
    cli.compression = "invalid".to_string();
    assert_eq!(
        message(&cli),
        "Invalid configuration: Invalid compression level: invalid. Must be one of: none, standard, maximum"
    );
    cli.compression = "standard".to_string();
    cli.rotate = Some("ninety".to_string());
    assert_eq!(message(&cli), "Invalid rotation degrees");
    cli.rotate = Some("70000".to_string());
    assert_eq!(message(&cli), "Invalid rotation degrees");
    cli.rotate = Some("45".to_string());
    assert_eq!(
        message(&cli),
        "Invalid configuration: Invalid rotation: 45. Must be 90, 180, or 270"
    );
    cli.rotate = None;
    cli.verbose = true;
    cli.quiet = true;
    assert_eq!(
        message(&cli),
        "Configuration validation failed: Cannot use both --verbose and --quiet"
    );
    cli.quiet = false;
    cli.output = PathBuf::from("a.pdf");
    assert_eq!(
        message(&cli),
        "Configuration validation failed: Output file cannot be the same as an input file: a.pdf"
    );
    cli.inputs.clear();
    assert_eq!(
        message(&cli),
        "Configuration validation failed: No input files specified"
    );
}

#[test]
fn test_input_list_lines() {
    let text = "a.pdf\n  b c.pdf  \r\n\n# skipped\n   \n  # skipped too\ndir/#kept.pdf\n\tlast.pdf";
    assert_eq!(
        input_list_paths(text),
        vec![
            PathBuf::from("a.pdf"),
            PathBuf::from("b c.pdf"),
            PathBuf::from("dir/#kept.pdf"),
            PathBuf::from("last.pdf"),
        ]
    );
    assert_eq!(input_list_paths(""), Vec::<PathBuf>::new());
    assert_eq!(input_list_paths("\n\n#\n"), Vec::<PathBuf>::new());
    assert_eq!(input_list_paths("x\n"), vec![PathBuf::from("x")]);
}

#[test]
fn test_all_inputs() {
    let cli = create_test_cli(vec!["a.pdf", "b.pdf"], "out.pdf");
    assert_eq!(
        cli.all_inputs(vec![PathBuf::from("c.pdf")]).unwrap(),
        vec![PathBuf::from("a.pdf"), PathBuf::from("b.pdf"), PathBuf::from("c.pdf")]
    );
    assert_eq!(cli.all_inputs(vec![]).unwrap().len(), 2);
    let mut empty = create_test_cli(vec![], "out.pdf");
    empty.inputs.clear();
    assert!(matches!(empty.all_inputs(vec![]), Err(PdfCatError::NoFilesToMerge)));
    assert_eq!(
        empty.all_inputs(vec![PathBuf::from("c.pdf")]).unwrap(),
        vec![PathBuf::from("c.pdf")]
    );
}

#[test]
fn test_overwrite_decisions() {
    let all = [OverwriteMode::Prompt, OverwriteMode::Force, OverwriteMode::NoClobber];
    for mode in all {
        for quiet in [false, true] {
            assert_eq!(overwrite_decision(false, mode, quiet), OverwriteDecision::Proceed);
        }
    }
    assert_eq!(overwrite_decision(true, OverwriteMode::Force, true), OverwriteDecision::Proceed);
    assert_eq!(overwrite_decision(true, OverwriteMode::Force, false), OverwriteDecision::Proceed);
    assert_eq!(overwrite_decision(true, OverwriteMode::NoClobber, false), OverwriteDecision::Refuse);
    assert_eq!(overwrite_decision(true, OverwriteMode::NoClobber, true), OverwriteDecision::Refuse);
    assert_eq!(overwrite_decision(true, OverwriteMode::Prompt, true), OverwriteDecision::Refuse);
    assert_eq!(overwrite_decision(true, OverwriteMode::Prompt, false), OverwriteDecision::Ask);
    for yes in ["y", "Y", "yes", "YES", " Yes \n", "\ty\r\n"] {
        assert!(answer_allows(yes), "{yes:?}");
    }
    for no in ["", "n", "no", "yes please", "yy", "\n", "ye s"] {
        assert!(!answer_allows(no), "{no:?}");
    }
}
