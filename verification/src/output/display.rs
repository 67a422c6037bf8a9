//! Summaries of loading, as the lines to show.

use crate::config::Config;
use crate::io::reader::LoadStatistics;
use crate::output::formatter::{message_line, MessageLevel, OutputFormatter};
use crate::text::{decimal, padded, push_decimal, push_decimal_wide, push_padded};
use crate::time::{duration_nanos, nanos_of};
use crate::utils::size_text;
use crate::validation::ValidationSummary;
use vstd::prelude::*;
use vstd::string::*;

verus! {

/// `nanos / 10^7`, rounded to the nearest whole number, a tie going to the
/// even one: a span of time in hundredths of a second.
pub open spec fn hundredths_of_second(nanos: nat) -> nat {
    let q = nanos / 10_000_000;
    let r = nanos % 10_000_000;
    if r > 5_000_000 || (r == 5_000_000 && q % 2 == 1) {
        q + 1
    } else {
        q
    }
}

/// The warning about failed loads.
pub open spec fn failure_text(failures: nat) -> Seq<char> {
    "Warning: "@ + decimal(failures) + " file(s) failed to load"@
}

/// The summary of a batch of loads.
pub open spec fn summary_text(stats: LoadStatistics) -> Seq<char> {
    let h = hundredths_of_second(nanos_of(stats.total_time));
    "Loaded "@ + decimal(stats.success_count as nat) + " file(s) in "@ + decimal(h / 100) + "."@
        + padded(h % 100, 2) + "s: "@ + decimal(stats.total_pages as nat) + " pages, "@ + size_text(
        stats.total_size as nat,
    )
}

/// The warning about files that failed validation.
pub open spec fn invalid_text(failures: nat) -> Seq<char> {
    "Warning: "@ + decimal(failures) + " file(s) failed validation"@
}

/// The summary of a validation.
pub open spec fn validated_text(summary: ValidationSummary) -> Seq<char> {
    "Validated "@ + decimal(summary.files_validated as nat) + " file(s): "@ + decimal(
        summary.total_pages as nat,
    ) + " pages, "@ + size_text(summary.total_size as nat)
}

/// The lines that report a validation: a warning where files failed, and
/// the summary unless the formatter is quiet.
pub fn display_validation_summary(formatter: &OutputFormatter, summary: &ValidationSummary) -> (lines:
    Vec<String>)
    ensures
        lines@.len() == (if summary.files_failed > 0 {
            1nat
        } else {
            0nat
        }) + (if formatter.quiet_mode() {
            0nat
        } else {
            1nat
        }),
        summary.files_failed > 0 ==> lines@[0]@ == message_line(
            MessageLevel::Warning,
            invalid_text(summary.files_failed as nat),
            formatter.colored_mode(),
        ),
        !formatter.quiet_mode() ==> lines@.last()@ == message_line(
            MessageLevel::Info,
            validated_text(*summary),
            formatter.colored_mode(),
        ),
{
    let mut lines: Vec<String> = Vec::new();
    if summary.files_failed > 0 {
        let mut text = "Warning: ".to_owned();
        push_decimal(&mut text, summary.files_failed as u64);
        text.append(" file(s) failed validation");
        assert(text@ =~= invalid_text(summary.files_failed as nat));
        match formatter.warning(text.as_str()) {
            Some(line) => {
                lines.push(line);
            },
            None => {},
        }
    }
    let mut text = "Validated ".to_owned();
    push_decimal(&mut text, summary.files_validated as u64);
    text.append(" file(s): ");
    push_decimal(&mut text, summary.total_pages as u64);
    text.append(" pages, ");
    let size = summary.format_total_size();
    text.append(size.as_str());
    assert(text@ =~= validated_text(*summary));
    match formatter.info(text.as_str()) {
        Some(line) => {
            lines.push(line);
        },
        None => {},
    }
    lines
}

/// A formatter as the configuration asks for.
pub fn create_formatter(config: &Config) -> (r: OutputFormatter)
    ensures
        r.quiet_mode() == config.quiet,
        r.verbose_mode() == config.verbose,
        !r.colored_mode(),
{
    OutputFormatter::from_config(config)
}

/// The lines that report a batch of loads: a warning where loads failed,
/// and the summary unless the formatter is quiet.
pub fn display_load_statistics(formatter: &OutputFormatter, stats: &LoadStatistics) -> (lines: Vec<
    String,
>)
    ensures
        lines@.len() == (if stats.failure_count > 0 {
            1nat
        } else {
            0nat
        }) + (if formatter.quiet_mode() {
            0nat
        } else {
            1nat
        }),
        stats.failure_count > 0 ==> lines@[0]@ == message_line(
            MessageLevel::Warning,
            failure_text(stats.failure_count as nat),
            formatter.colored_mode(),
        ),
        !formatter.quiet_mode() ==> lines@.last()@ == message_line(
            MessageLevel::Info,
            summary_text(*stats),
            formatter.colored_mode(),
        ),
{
    let mut lines: Vec<String> = Vec::new();
    if stats.failure_count > 0 {
        let mut text = "Warning: ".to_owned();
        push_decimal(&mut text, stats.failure_count as u64);
        text.append(" file(s) failed to load");
        assert(text@ =~= failure_text(stats.failure_count as nat));
        match formatter.warning(text.as_str()) {
            Some(line) => {
                lines.push(line);
            },
            None => {},
        }
    }
    let nanos = duration_nanos(&stats.total_time);
    let q: u128 = nanos / 10_000_000;
    let r: u128 = nanos % 10_000_000;
    let h: u128 = if r > 5_000_000 || (r == 5_000_000 && q % 2 == 1) {
        q + 1
    } else {
        q
    };
    let whole: u128 = h / 100;
    let mut text = "Loaded ".to_owned();
    push_decimal(&mut text, stats.success_count as u64);
    text.append(" file(s) in ");
    push_decimal_wide(&mut text, whole);
    text.append(".");
    push_padded(&mut text, (h % 100) as u64, 2);
    text.append("s: ");
    push_decimal(&mut text, stats.total_pages as u64);
    text.append(" pages, ");
    let size = stats.format_total_size();
    text.append(size.as_str());
    assert(text@ =~= summary_text(*stats));
    match formatter.info(text.as_str()) {
        Some(line) => {
            lines.push(line);
        },
        None => {},
    }
    lines
}

} // verus!
