use pdfcat::error::PdfCatError;
use std::io;
use std::path::PathBuf;

#[test]
fn test_file_not_found_display() {
    let err = PdfCatError::file_not_found(PathBuf::from("/tmp/missing.pdf"));
    let msg = err.to_string();
    assert!(msg.contains("File not found"));
    assert!(msg.contains("missing.pdf"));
}

#[test]
fn test_failed_to_load_pdf_display() {
    let err = PdfCatError::failed_to_load_pdf(PathBuf::from("bad.pdf"), "Invalid PDF header");
    let msg = err.to_string();
    assert!(msg.contains("Failed to load PDF"));
    assert!(msg.contains("bad.pdf"));
    assert!(msg.contains("Invalid PDF header"));
}

#[test]
fn test_encrypted_pdf_display() {
    let err = PdfCatError::encrypted_pdf(PathBuf::from("secret.pdf"));
    let msg = err.to_string();
    assert!(msg.contains("encrypted"));
    assert!(msg.contains("secret.pdf"));
    assert!(msg.contains("Decrypt"));
}

#[test]
fn test_output_exists_display() {
    let err = PdfCatError::output_exists(PathBuf::from("existing.pdf"));
    let msg = err.to_string();
    assert!(msg.contains("already exists"));
    assert!(msg.contains("existing.pdf"));
    assert!(msg.contains("--force"));
}

#[test]
fn test_invalid_page_range_display() {
    let err = PdfCatError::InvalidPageRange {
        path: PathBuf::from("doc.pdf"),
        range: "1-100".to_string(),
        total_pages: 10,
    };
    let msg = err.to_string();
    assert!(msg.contains("Invalid page range"));
    assert!(msg.contains("1-100"));
    assert!(msg.contains("doc.pdf"));
    assert!(msg.contains("10"));
}

#[test]
fn test_is_recoverable() {
    assert!(PdfCatError::failed_to_load_pdf(PathBuf::from("bad.pdf"), "error").is_recoverable());
    assert!(PdfCatError::corrupted_pdf(PathBuf::from("bad.pdf"), "error").is_recoverable());
    assert!(PdfCatError::encrypted_pdf(PathBuf::from("secret.pdf")).is_recoverable());

    assert!(!PdfCatError::NoFilesToMerge.is_recoverable());
    assert!(!PdfCatError::Cancelled.is_recoverable());
}

#[test]
fn test_is_fatal() {
    assert!(PdfCatError::NoFilesToMerge.is_fatal());
    assert!(PdfCatError::Cancelled.is_fatal());
    assert!(PdfCatError::FailedToCreateOutput {
        path: PathBuf::from("out.pdf"),
        source: io::Error::new(io::ErrorKind::PermissionDenied, "denied"),
    }
    .is_fatal());

    assert!(!PdfCatError::failed_to_load_pdf(PathBuf::from("bad.pdf"), "error").is_fatal());
}

#[test]
fn test_exit_codes() {
    assert_eq!(PdfCatError::file_not_found(PathBuf::from("x")).exit_code(), 2);
    assert_eq!(
        PdfCatError::failed_to_load_pdf(PathBuf::from("x"), "error").exit_code(),
        3
    );
    assert_eq!(PdfCatError::NoFilesToMerge.exit_code(), 1);
    assert_eq!(PdfCatError::output_exists(PathBuf::from("x")).exit_code(), 4);
    assert_eq!(PdfCatError::Cancelled.exit_code(), 130);
}

#[test]
fn test_from_io_error() {
    let io_err = io::Error::new(io::ErrorKind::NotFound, "not found");
    let err: PdfCatError = io_err.into();
    assert!(matches!(err, PdfCatError::Io { .. }));
}

#[test]
fn test_error_source() {
    let io_err = io::Error::new(io::ErrorKind::PermissionDenied, "denied");
    let err = PdfCatError::FileNotAccessible {
        path: PathBuf::from("test.pdf"),
        source: io_err,
    };
    assert!(err.source().is_some());

    let err = PdfCatError::NoFilesToMerge;
    assert!(err.source().is_none());
}

#[test]
fn test_builder_methods() {
    let err = PdfCatError::file_not_found(PathBuf::from("test.pdf"));
    assert!(matches!(err, PdfCatError::FileNotFound { .. }));

    let err = PdfCatError::merge_failed("test reason");
    assert!(matches!(err, PdfCatError::MergeFailed { .. }));

    let err = PdfCatError::invalid_config("test message");
    assert!(matches!(err, PdfCatError::InvalidConfig { .. }));

    let err = PdfCatError::other("generic error");
    assert!(matches!(err, PdfCatError::Other { .. }));
}

#[test]
fn test_every_message_text() {
    let p = || PathBuf::from("dir/f.pdf");
    let denied = || io::Error::new(io::ErrorKind::PermissionDenied, "denied");
    assert_eq!(
        PdfCatError::file_not_found(p()).to_string(),
        "File not found: dir/f.pdf"
    );
    assert_eq!(
        PdfCatError::FileNotAccessible { path: p(), source: denied() }.to_string(),
        "Cannot access file: dir/f.pdf\n  Reason: denied"
    );
    assert_eq!(PdfCatError::not_a_file(p()).to_string(), "Not a file: dir/f.pdf");
    assert_eq!(
        PdfCatError::failed_to_load_pdf(p(), "bad header").to_string(),
        "Failed to load PDF: dir/f.pdf\n  Reason: bad header"
    );
    assert_eq!(
        PdfCatError::corrupted_pdf(p(), "no pages").to_string(),
        "Corrupted or invalid PDF: dir/f.pdf\n  Details: no pages"
    );
    assert_eq!(
        PdfCatError::encrypted_pdf(p()).to_string(),
        "PDF is encrypted and cannot be processed: dir/f.pdf\n  Hint: Decrypt the PDF first using 'qpdf --decrypt' or similar tools"
    );
    assert_eq!(
        PdfCatError::NoFilesToMerge.to_string(),
        "No input files specified for merging"
    );
    assert_eq!(
        PdfCatError::output_exists(p()).to_string(),
        "Output file already exists: dir/f.pdf\n  Use --force to overwrite or choose a different output path"
    );
    assert_eq!(
        PdfCatError::FailedToCreateOutput { path: p(), source: denied() }.to_string(),
        "Failed to create output file: dir/f.pdf\n  Reason: denied"
    );
    assert_eq!(
        PdfCatError::FailedToWrite { path: p(), source: denied() }.to_string(),
        "Failed to write to output file: dir/f.pdf\n  Reason: denied"
    );
    assert_eq!(
        PdfCatError::FailedToReadInputList { path: p(), source: denied() }.to_string(),
        "Failed to read input list file: dir/f.pdf\n  Reason: denied"
    );
    assert_eq!(
        PdfCatError::InvalidInputList {
            path: p(),
            line_number: 12,
            details: "Empty path".to_string()
        }
        .to_string(),
        "Invalid entry in input list file: dir/f.pdf at line 12\n  Details: Empty path"
    );
    assert_eq!(
        PdfCatError::InvalidPageRange {
            path: p(),
            range: "1-100".to_string(),
            total_pages: 10
        }
        .to_string(),
        "Invalid page range '1-100' for PDF: dir/f.pdf\n  PDF has 10 page(s). Page numbers must be between 1 and 10"
    );
    assert_eq!(
        PdfCatError::merge_failed("why").to_string(),
        "Merge operation failed: why"
    );
    assert_eq!(
        PdfCatError::BookmarkFailed { path: p(), reason: "why".to_string() }.to_string(),
        "Failed to process bookmarks for: dir/f.pdf\n  Reason: why"
    );
    assert_eq!(
        PdfCatError::MetadataFailed { reason: "why".to_string() }.to_string(),
        "Failed to set metadata: why"
    );
    assert_eq!(
        PdfCatError::invalid_config("why").to_string(),
        "Invalid configuration: why"
    );
    assert_eq!(PdfCatError::Cancelled.to_string(), "Operation cancelled by user");
    assert_eq!(
        PdfCatError::Io { source: denied() }.to_string(),
        "I/O error: denied"
    );
    assert_eq!(PdfCatError::other("plain").to_string(), "plain");
    assert_eq!(PdfCatError::other("plain").render("ignored"), "plain");
}

#[test]
fn test_every_classification() {
    let p = || PathBuf::from("f.pdf");
    let denied = || io::Error::new(io::ErrorKind::PermissionDenied, "denied");
    let all: Vec<(PdfCatError, i32, bool, bool)> = vec![
        (PdfCatError::file_not_found(p()), 2, true, false),
        (PdfCatError::FileNotAccessible { path: p(), source: denied() }, 2, true, false),
        (PdfCatError::not_a_file(p()), 2, true, false),
        (PdfCatError::failed_to_load_pdf(p(), "x"), 3, true, false),
        (PdfCatError::corrupted_pdf(p(), "x"), 3, true, false),
        (PdfCatError::encrypted_pdf(p()), 3, true, false),
        (PdfCatError::NoFilesToMerge, 1, false, true),
        (PdfCatError::output_exists(p()), 4, false, true),
        (PdfCatError::FailedToCreateOutput { path: p(), source: denied() }, 5, false, true),
        (PdfCatError::FailedToWrite { path: p(), source: denied() }, 5, false, true),
        (PdfCatError::FailedToReadInputList { path: p(), source: denied() }, 2, false, false),
        (
            PdfCatError::InvalidInputList { path: p(), line_number: 1, details: String::new() },
            1,
            false,
            false,
        ),
        (
            PdfCatError::InvalidPageRange { path: p(), range: String::new(), total_pages: 1 },
            1,
            false,
            false,
        ),
        (PdfCatError::merge_failed("x"), 6, false, false),
        (PdfCatError::BookmarkFailed { path: p(), reason: String::new() }, 6, false, false),
        (PdfCatError::MetadataFailed { reason: String::new() }, 6, false, false),
        (PdfCatError::invalid_config("x"), 1, false, false),
        (PdfCatError::Cancelled, 130, false, true),
        (PdfCatError::Io { source: denied() }, 5, false, false),
        (PdfCatError::other("x"), 1, false, false),
    ];
    for (err, code, recoverable, fatal) in all {
        assert_eq!(err.exit_code(), code, "{err:?}");
        assert_eq!(err.is_recoverable(), recoverable, "{err:?}");
        assert_eq!(err.is_fatal(), fatal, "{err:?}");
    }
}

#[test]
fn test_an_existing_output_is_always_fatal() {
    let err = PdfCatError::output_exists(PathBuf::from("out.pdf"));
    assert!(err.is_fatal());
    assert!(!err.is_recoverable());
}

#[test]
fn test_the_errors_of_one_input_are_recoverable() {
    assert!(PdfCatError::file_not_found(PathBuf::from("a.pdf")).is_recoverable());
    assert!(PdfCatError::not_a_file(PathBuf::from("a")).is_recoverable());
    assert!(PdfCatError::FileNotAccessible {
        path: PathBuf::from("a.pdf"),
        source: io::Error::new(io::ErrorKind::PermissionDenied, "denied"),
    }
    .is_recoverable());
    let range = PdfCatError::InvalidPageRange {
        path: PathBuf::from("a.pdf"),
        range: "1-9".to_string(),
        total_pages: 2,
    };
    assert!(!range.is_recoverable());
    assert!(!PdfCatError::merge_failed("no page tree").is_recoverable());
}
