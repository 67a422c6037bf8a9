use pdfcat::config::{CompressionLevel, Config, Metadata, OverwriteMode};
use pdfcat::error::PdfCatError;
use pdfcat::io::reader::{LoadStatistics, LoadedPdf};
use pdfcat::output::display::{
    create_formatter, display_load_statistics, display_validation_summary,
};
use pdfcat::validation::{ValidationResult, ValidationSummary};
use pdfcat::output::formatter::{MessageLevel, OutputFormatter};
use pdfcat::output::progress::{format_duration, format_seconds, ProgressBar, ProgressStyle};
use std::path::PathBuf;
use std::time::Duration;

fn create_test_config(quiet: bool, verbose: bool) -> Config {
    Config {
        inputs: vec![PathBuf::from("test.pdf")],
        output: PathBuf::from("output.pdf"),
        dry_run: false,
        verbose,
        overwrite_mode: OverwriteMode::Prompt,
        quiet,
        bookmarks: false,
        compression: CompressionLevel::Standard,
        metadata: Metadata::default(),
        continue_on_error: false,
        jobs: None,
        page_range: None,
        rotation: None,
    }
}

#[test]
fn test_create_formatter() {
    let config = create_test_config(false, false);
    let _formatter = create_formatter(&config);
}

#[test]
fn test_create_formatter_quiet() {
    let config = create_test_config(true, false);
    let formatter = create_formatter(&config);
    assert!(formatter.is_quiet());
}

#[test]
fn test_create_formatter_verbose() {
    let config = create_test_config(false, true);
    let formatter = create_formatter(&config);
    assert!(formatter.is_verbose());
}

#[test]
fn test_new_formatter() {
    let formatter = OutputFormatter::new(false, false);
    assert!(!formatter.is_quiet());
    assert!(!formatter.is_verbose());
    assert!(formatter.should_print());
}

#[test]
fn test_quiet_formatter() {
    let formatter = OutputFormatter::quiet();
    assert!(formatter.is_quiet());
    assert!(!formatter.is_verbose());
    assert!(!formatter.should_print());
}

#[test]
fn test_verbose_formatter() {
    let formatter = OutputFormatter::verbose();
    assert!(!formatter.is_quiet());
    assert!(formatter.is_verbose());
    assert!(formatter.should_print());
}

#[test]
fn test_info_message() {
    let formatter = OutputFormatter::new(false, false);
    assert_eq!(
        formatter.info("Test info message").as_deref(),
        Some("Test info message")
    );
}

#[test]
fn test_info_message_quiet() {
    let formatter = OutputFormatter::quiet();
    assert_eq!(formatter.info("This should not appear"), None);
}

#[test]
fn test_success_message() {
    let formatter = OutputFormatter::new(false, false);
    assert_eq!(formatter.success("Test success").as_deref(), Some("✓ Test success"));
}

#[test]
fn test_warning_message() {
    let formatter = OutputFormatter::new(false, false);
    assert_eq!(formatter.warning("Test warning").as_deref(), Some("⚠ Test warning"));
}

#[test]
fn test_warning_message_quiet() {
    let formatter = OutputFormatter::quiet();
    assert_eq!(
        formatter.warning("Important warning").as_deref(),
        Some("⚠ Important warning")
    );
}

#[test]
fn test_error_message() {
    let formatter = OutputFormatter::new(false, false);
    assert_eq!(formatter.error("Test error").as_deref(), Some("✗ Test error"));
}

#[test]
fn test_error_message_quiet() {
    let formatter = OutputFormatter::quiet();
    assert_eq!(formatter.error("Critical error").as_deref(), Some("✗ Critical error"));
}

#[test]
fn test_debug_message() {
    let formatter = OutputFormatter::verbose();
    assert_eq!(
        formatter.debug("Debug information").as_deref(),
        Some("→ Debug information")
    );
}

#[test]
fn test_debug_message_not_verbose() {
    let formatter = OutputFormatter::new(false, false);
    assert_eq!(formatter.debug("This should not appear"), None);
}

#[test]
fn test_section() {
    let formatter = OutputFormatter::new(false, false);
    assert_eq!(formatter.section("Test Section").as_deref(), Some("\nTest Section"));
    assert_eq!(OutputFormatter::quiet().section("Test Section"), None);
}

#[test]
fn test_detail() {
    let formatter = OutputFormatter::verbose();
    assert_eq!(formatter.detail("File", "test.pdf").as_deref(), Some("  File: test.pdf"));
    assert_eq!(OutputFormatter::new(false, false).detail("File", "test.pdf"), None);
}

#[test]
fn test_progress() {
    let formatter = OutputFormatter::new(false, false);
    assert_eq!(
        formatter.progress(1, 10, Some("Processing")).as_deref(),
        Some("\r  [1/10] Processing")
    );
    assert_eq!(
        formatter.progress(10, 10, Some("Complete")).as_deref(),
        Some("\r  [10/10] Complete\n")
    );
    assert_eq!(formatter.progress(2, 3, None).as_deref(), Some("\r  [2/3] "));
    assert_eq!(OutputFormatter::quiet().progress(1, 1, None), None);
}

#[test]
fn test_list_item() {
    let formatter = OutputFormatter::new(false, false);
    assert_eq!(formatter.list_item(1, "First item").as_deref(), Some("  1. First item"));
    assert_eq!(formatter.list_item(2, "Second item").as_deref(), Some("  2. Second item"));
    assert_eq!(OutputFormatter::quiet().list_item(1, "First item"), None);
}

#[test]
fn test_table_row() {
    let formatter = OutputFormatter::verbose();
    assert_eq!(
        formatter.table_row(&vec!["Column1", "Column2", "Column3"]).as_deref(),
        Some("  Column1 │ Column2 │ Column3")
    );
    assert_eq!(formatter.table_row(&vec!["One"]).as_deref(), Some("  One"));
    assert_eq!(formatter.table_row(&vec![]).as_deref(), Some("  "));
    assert_eq!(OutputFormatter::new(false, false).table_row(&vec!["One"]), None);
}

#[test]
fn test_other_lines() {
    let verbose = OutputFormatter::verbose();
    assert_eq!(
        verbose.separator().as_deref(),
        Some("────────────────────────────────────────")
    );
    assert_eq!(OutputFormatter::new(false, false).separator(), None);
    assert_eq!(verbose.blank_line().as_deref(), Some(""));
    assert_eq!(OutputFormatter::quiet().blank_line(), None);
    assert_eq!(verbose.clear_line().as_deref(), Some("\r\x1b[K"));
    assert_eq!(OutputFormatter::quiet().clear_line(), None);
}

#[test]
fn test_validation_summary_lines() {
    let result = |pages: usize, size: u64| ValidationResult {
        path: PathBuf::from("a.pdf"),
        page_count: pages,
        version: None,
        file_size: size,
        is_encrypted: false,
        object_count: 1,
        page_dimensions: None,
    };
    let mut summary = ValidationSummary::from_results(vec![result(5, 1024), result(3, 2048)]);
    assert_eq!(
        display_validation_summary(&OutputFormatter::new(false, false), &summary),
        vec!["Validated 2 file(s): 8 pages, 3.00 KB".to_string()]
    );
    summary.files_failed = 4;
    assert_eq!(
        display_validation_summary(&OutputFormatter::new(false, false), &summary),
        vec![
            "⚠ Warning: 4 file(s) failed validation".to_string(),
            "Validated 2 file(s): 8 pages, 3.00 KB".to_string(),
        ]
    );
    assert_eq!(
        display_validation_summary(&OutputFormatter::quiet(), &summary),
        vec!["⚠ Warning: 4 file(s) failed validation".to_string()]
    );
}

#[test]
fn test_update_interval() {
    let pb = ProgressBar::new(1, ProgressStyle::Counter);
    assert_eq!(pb.update_interval, Duration::from_millis(100));
}

#[test]
fn test_message_levels() {
    assert_eq!(MessageLevel::Info, MessageLevel::Info);
    assert_ne!(MessageLevel::Info, MessageLevel::Error);
}

#[test]
fn test_coloured_messages() {
    let formatter = OutputFormatter::with_color(false, true, true);
    assert_eq!(formatter.info("plain").as_deref(), Some("plain"));
    assert_eq!(
        formatter.success("done").as_deref(),
        Some("\x1b[32m✓ done\x1b[0m")
    );
    assert_eq!(
        formatter.warning("careful").as_deref(),
        Some("\x1b[33m⚠ careful\x1b[0m")
    );
    assert_eq!(formatter.error("bad").as_deref(), Some("\x1b[31m✗ bad\x1b[0m"));
    assert_eq!(formatter.debug("why").as_deref(), Some("\x1b[36m→ why\x1b[0m"));
    assert_eq!(
        formatter.format_message(MessageLevel::Error, ""),
        "\x1b[31m✗ \x1b[0m"
    );
    let _default = OutputFormatter::default();
}

#[test]
fn test_load_statistics_lines() {
    let stats = LoadStatistics {
        success_count: 3,
        failure_count: 2,
        total_time: Duration::from_millis(1234),
        average_time: Duration::from_millis(400),
        total_size: 1536,
        total_pages: 12,
    };
    assert_eq!(
        display_load_statistics(&OutputFormatter::new(false, false), &stats),
        vec![
            "⚠ Warning: 2 file(s) failed to load".to_string(),
            "Loaded 3 file(s) in 1.23s: 12 pages, 1.50 KB".to_string(),
        ]
    );
    assert_eq!(
        display_load_statistics(&OutputFormatter::quiet(), &stats),
        vec!["⚠ Warning: 2 file(s) failed to load".to_string()]
    );
    let clean = LoadStatistics {
        failure_count: 0,
        total_time: Duration::from_micros(5_000),
        ..stats
    };
    assert_eq!(
        display_load_statistics(&OutputFormatter::new(false, false), &clean),
        vec!["Loaded 3 file(s) in 0.00s: 12 pages, 1.50 KB".to_string()]
    );
    let rounded = LoadStatistics {
        total_time: Duration::from_micros(15_000),
        ..clean.clone()
    };
    assert_eq!(
        display_load_statistics(&OutputFormatter::new(false, false), &rounded),
        vec!["Loaded 3 file(s) in 0.02s: 12 pages, 1.50 KB".to_string()]
    );
    assert!(display_load_statistics(&OutputFormatter::quiet(), &clean).is_empty());
    let from_results = LoadStatistics::from_results(
        &Vec::<Result<LoadedPdf, PdfCatError>>::new(),
        Duration::from_secs(2),
    );
    assert_eq!(
        display_load_statistics(&OutputFormatter::new(false, false), &from_results),
        vec!["Loaded 0 file(s) in 2.00s: 0 pages, 0 bytes".to_string()]
    );
}

#[test]
fn test_new_progress_bar() {
    let pb = ProgressBar::new(100, ProgressStyle::Bar);
    assert_eq!(pb.total, 100);
    assert_eq!(pb.current, 0);
    assert_eq!(pb.style, ProgressStyle::Bar);
}

#[test]
fn test_auto_progress_bar() {
    let pb = ProgressBar::auto(100);
    assert_eq!(pb.style, ProgressStyle::Bar);

    let pb_spinner = ProgressBar::auto(0);
    assert_eq!(pb_spinner.style, ProgressStyle::Spinner);
}

#[test]
fn test_disabled_progress_bar() {
    let pb = ProgressBar::disabled();
    assert!(!pb.enabled);
}

#[test]
fn test_set_message() {
    let mut pb = ProgressBar::new(100, ProgressStyle::Bar);
    pb.set_message("Processing");
    assert_eq!(pb.message, Some("Processing".to_string()));
}

#[test]
fn test_clear_message() {
    let mut pb = ProgressBar::new(100, ProgressStyle::Bar);
    pb.set_message("Processing");
    pb.clear_message();
    assert_eq!(pb.message, None);
}

#[test]
fn test_update() {
    let mut pb = ProgressBar::disabled();
    pb.update(50);
    assert_eq!(pb.current, 50);
}

#[test]
fn test_increment() {
    let mut pb = ProgressBar::disabled();
    pb.increment();
    assert_eq!(pb.current, 1);
    pb.increment();
    assert_eq!(pb.current, 2);
}

#[test]
fn test_increment_by() {
    let mut pb = ProgressBar::disabled();
    pb.increment_by(5);
    assert_eq!(pb.current, 5);
    pb.increment_by(3);
    assert_eq!(pb.current, 8);
}

#[test]
fn test_elapsed() {
    let pb = ProgressBar::new(100, ProgressStyle::Bar);
    let elapsed = pb.elapsed();
    assert!(elapsed < Duration::from_secs(1));
}

#[test]
fn test_eta_at_completion() {
    let mut pb = ProgressBar::new(100, ProgressStyle::Bar);
    pb.update(100);

    assert_eq!(pb.eta(), None);
}

#[test]
fn test_eta_is_given_between_the_first_item_and_the_last() {
    let mut pb = ProgressBar::disabled();
    pb.total = 100;
    assert_eq!(pb.eta(), None);
    pb.current = 50;
    // Half done: as much time is left as has passed, which is little.
    let left = pb.eta().expect("a time is owed here");
    assert!(left < Duration::from_secs(20));
    pb.current = 100;
    assert_eq!(pb.eta(), None);
}

#[test]
fn test_eta_values() {
    let mut pb = ProgressBar::disabled();
    pb.total = 100;
    pb.current = 25;
    // A quarter done in 10 s: three quarters are left, 30 s.
    assert_eq!(
        pb.eta_after(&Duration::from_secs(10)),
        Some(Duration::from_secs(30))
    );
    pb.current = 3;
    pb.total = 4;
    assert_eq!(
        pb.eta_after(&Duration::from_nanos(10)),
        Some(Duration::from_nanos(3))
    );
    pb.current = 0;
    assert_eq!(pb.eta_after(&Duration::from_secs(10)), None);
    pb.current = 4;
    assert_eq!(pb.eta_after(&Duration::from_secs(10)), None);
    pb.current = 1;
    pb.total = usize::MAX;
    assert_eq!(pb.eta_after(&Duration::MAX), None);
}

#[test]
fn test_format_duration() {
    assert_eq!(format_duration(Duration::from_secs(30)), "30s");
    assert_eq!(format_duration(Duration::from_secs(90)), "1m 30s");
    assert_eq!(format_duration(Duration::from_secs(3661)), "1h 1m");
}

#[test]
fn test_format_duration_edges() {
    assert_eq!(format_duration(Duration::ZERO), "0s");
    assert_eq!(format_duration(Duration::from_millis(59_999)), "59s");
    assert_eq!(format_seconds(60), "1m 0s");
    assert_eq!(format_seconds(3599), "59m 59s");
    assert_eq!(format_seconds(3600), "1h 0m");
    assert_eq!(format_seconds(360_000), "100h 0m");
}

#[test]
fn test_progress_styles() {
    assert_eq!(ProgressStyle::Bar, ProgressStyle::Bar);
    assert_ne!(ProgressStyle::Bar, ProgressStyle::Spinner);
}

#[test]
fn test_render_methods() {
    let mut pb = ProgressBar::disabled();
    pb.total = 100;
    pb.current = 50;

    pb.render_bar();
    pb.render_counter();
    pb.render_spinner();
    pb.render_dots();
}

#[test]
fn test_rendered_lines() {
    let mut pb = ProgressBar::disabled();
    pb.total = 100;
    pb.current = 50;
    assert_eq!(
        pb.render_bar_at(5),
        format!("[{}>{}] 50% 50/100 5s", "=".repeat(19), " ".repeat(20))
    );
    assert_eq!(pb.render_counter_at(61), "50/100 1m 1s");
    assert_eq!(pb.render_spinner_at(0), "⠋ 0s");
    assert_eq!(pb.render_spinner_at(0), "⠙ 0s");
    assert_eq!(pb.spinner_frame, 2);
    assert_eq!(pb.render_dots_at(3), "⣻ 3s");
    pb.set_message("Loading");
    assert_eq!(pb.render_counter_at(1), "Loading 50/100 1s");
    assert_eq!(pb.render_dots_at(1), "⢿ Loading 1s");
    assert_eq!(pb.render_spinner_at(1), "⠼ Loading 1s");
    pb.current = 0;
    assert_eq!(
        pb.render_bar_at(0),
        format!("Loading [{}] 0% 0/100 0s", " ".repeat(40))
    );
    pb.current = 100;
    assert_eq!(
        pb.render_bar_at(0),
        format!("Loading [{}>] 100% 100/100 0s", "=".repeat(39))
    );
    pb.current = 29;
    pb.clear_message();
    assert_eq!(
        pb.render_bar_at(0),
        format!("[{}>{}] 29% 29/100 0s", "=".repeat(10), " ".repeat(29))
    );
    pb.total = 0;
    pb.current = 1;
    assert_eq!(
        pb.render_bar_at(0),
        format!("[{}>] 0% 1/0 0s", "=".repeat(39))
    );
    pb.spinner_frame = 9;
    assert_eq!(pb.render_spinner_at(0), "⠏ 0s");
    pb.spinner_frame = 7;
    assert_eq!(pb.render_dots_at(0), "⣷ 0s");
}

#[test]
fn test_shown_only_where_enabled() {
    let mut pb = ProgressBar::disabled();
    pb.total = 4;
    assert_eq!(pb.update(4), None);
    assert_eq!(pb.render(), None);
    pb.enabled = true;
    pb.update_interval = Duration::from_secs(3600);
    // Before the interval has passed nothing is shown until the end.
    assert_eq!(pb.update(2), None);
    assert_eq!(pb.current, 2);
    let line = pb.update(4).unwrap();
    assert!(line.starts_with("\r4/4 "), "{line:?}");
    let line = pb.finish().unwrap();
    assert!(line.starts_with("\r4/4 "), "{line:?}");
}

#[test]
fn test_finish() {
    let mut pb = ProgressBar::disabled();
    pb.finish();
    assert_eq!(pb.current, pb.total);
}

#[test]
fn test_finish_with_message() {
    let mut pb = ProgressBar::auto(100);
    pb.finish_with_message("Complete");
    if pb.enabled {
        assert_eq!(pb.current, pb.total);
        assert_eq!(pb.message, Some("Complete".to_string()));
    }
}

#[test]
fn test_finish_with_message_where_enabled() {
    let mut pb = ProgressBar::auto(100);
    pb.enabled = true;
    let line = pb.finish_with_message("Complete").unwrap();
    assert_eq!(pb.current, 100);
    assert_eq!(pb.message, Some("Complete".to_string()));
    assert!(line.starts_with("\rComplete ["), "{line:?}");
    let mut off = ProgressBar::disabled();
    off.total = 5;
    assert_eq!(off.finish_with_message("Complete"), None);
    assert_eq!(off.current, 0);
    assert_eq!(off.message, None);
}

#[test]
fn test_increment_leaves_style_and_message() {
    let mut pb = ProgressBar::disabled();
    pb.style = ProgressStyle::Dots;
    pb.message = Some("loading".to_string());
    pb.total = 10;
    pb.increment();
    pb.increment_by(3);
    assert_eq!(pb.current, 4);
    assert_eq!(pb.total, 10);
    assert_eq!(pb.style, ProgressStyle::Dots);
    assert_eq!(pb.message, Some("loading".to_string()));
}

#[test]
fn test_update_shows_the_line_once_all_is_done() {
    let mut pb = ProgressBar::disabled();
    pb.style = ProgressStyle::Counter;
    pb.total = 3;
    assert_eq!(pb.update(3), None);
    pb.enabled = true;
    pb.current = 0;
    let line = pb.update(3).expect("a line is owed once all is done");
    assert!(line.starts_with('\r'));
    assert!(line.contains("3/3"), "{line:?}");
    let last = pb.increment_by(2).expect("a line is owed beyond the end too");
    assert!(last.contains("5/3"), "{last:?}");
}
