//! Progress indicators, as the text to show.

use crate::text::{concat, decimal, push_decimal};
use crate::time::{
    duration_from_millis, duration_nanos, duration_new, duration_secs, instant_elapsed,
    instant_now, longest_nanos, nanos_of,
};
use std::time::{Duration, Instant};
use vstd::prelude::*;
use vstd::string::*;

verus! {

/// Style of a progress indicator.
#[derive(Debug, Clone, Copy, PartialEq, Eq, Structural)]
pub enum ProgressStyle {
    /// A bar: `[=====>    ]`.
    Bar,
    /// A spinner.
    Spinner,
    /// A spinner of dots.
    Dots,
    /// A counter: `42/100`.
    Counter,
}

/// A progress indicator.
#[derive(Debug)]
pub struct ProgressBar {
    /// Total number of items.
    pub total: usize,
    /// Current progress.
    pub current: usize,
    /// Style of the indicator.
    pub style: ProgressStyle,
    /// Message shown with the indicator.
    pub message: Option<String>,
    /// When the operation started.
    pub start_time: Instant,
    /// When the indicator was last shown.
    pub last_update: Instant,
    /// Shortest time between two showings.
    pub update_interval: Duration,
    /// Whether the indicator is shown at all.
    pub enabled: bool,
    /// The frame of the spinner that comes next.
    pub spinner_frame: usize,
}

/// `IsTerminal::is_terminal` of the standard output. Nothing is stated of
/// it.
#[verifier::external_body]
fn stdout_is_terminal() -> (b: bool) {
    std::io::IsTerminal::is_terminal(&std::io::stdout())
}

/// A span of time as text: seconds below a minute, minutes and seconds
/// below an hour, hours and minutes above.
pub open spec fn duration_text(secs: nat) -> Seq<char> {
    if secs < 60 {
        decimal(secs) + "s"@
    } else if secs < 3600 {
        decimal(secs / 60) + "m "@ + decimal(secs % 60) + "s"@
    } else {
        decimal(secs / 3600) + "h "@ + decimal((secs % 3600) / 60) + "m"@
    }
}

/// A number of seconds as text.
pub fn format_seconds(secs: u64) -> (r: String)
    ensures
        r@ == duration_text(secs as nat),
{
    let mut r = String::new();
    if secs < 60 {
        push_decimal(&mut r, secs);
        r.append("s");
    } else if secs < 3600 {
        push_decimal(&mut r, secs / 60);
        r.append("m ");
        push_decimal(&mut r, secs % 60);
        r.append("s");
    } else {
        push_decimal(&mut r, secs / 3600);
        r.append("h ");
        push_decimal(&mut r, (secs % 3600) / 60);
        r.append("m");
    }
    assert(r@ =~= duration_text(secs as nat));
    r
}

/// A span of time as text, by its whole seconds.
pub fn format_duration(duration: Duration) -> (r: String)
    ensures
        r@ == duration_text(nanos_of(duration) / 1_000_000_000),
{
    format_seconds(duration_secs(&duration))
}

/// The text with `text` repeated `count` times.
pub open spec fn repeated(text: Seq<char>, count: nat) -> Seq<char>
    decreases count,
{
    if count == 0 {
        Seq::empty()
    } else {
        repeated(text, (count - 1) as nat) + text
    }
}

/// How many of the 40 places of the bar are filled.
pub open spec fn filled_places(current: nat, total: nat) -> nat {
    let whole = if total == 0 {
        1
    } else {
        total
    };
    (40 * current) / whole
}

/// The percentage of the progress, rounded down; 0 where the total is 0.
pub open spec fn percentage(current: nat, total: nat) -> nat {
    if total > 0 {
        (current * 100) / total
    } else {
        0
    }
}

/// The bar: an arrow of the filled places, blanks for the rest, at most 40
/// places of each.
pub open spec fn bar_text(current: nat, total: nat) -> Seq<char> {
    let filled = filled_places(current, total);
    let empty = if filled <= 40 {
        (40 - filled) as nat
    } else {
        0
    };
    "["@ + (if filled > 0 {
        repeated("="@, (filled - 1) as nat) + ">"@
    } else {
        Seq::empty()
    }) + repeated(" "@, empty) + "]"@
}

/// The parts of a line, separated by blanks, with the message before or
/// after the first part where there is one.
pub open spec fn with_message(message: Option<String>, first: bool, lead: Seq<char>, rest: Seq<
    char,
>) -> Seq<char> {
    match message {
        Some(m) => if first {
            m@ + " "@ + lead + " "@ + rest
        } else {
            lead + " "@ + m@ + " "@ + rest
        },
        None => lead + " "@ + rest,
    }
}

/// The frame of the spinner at a position.
pub open spec fn spinner_frame_text(frame: nat) -> Seq<char> {
    let k = frame % 10;
    if k == 0 {
        "⠋"@
    } else if k == 1 {
        "⠙"@
    } else if k == 2 {
        "⠹"@
    } else if k == 3 {
        "⠸"@
    } else if k == 4 {
        "⠼"@
    } else if k == 5 {
        "⠴"@
    } else if k == 6 {
        "⠦"@
    } else if k == 7 {
        "⠧"@
    } else if k == 8 {
        "⠇"@
    } else {
        "⠏"@
    }
}

/// The frame of the dots at a position.
pub open spec fn dots_frame_text(frame: nat) -> Seq<char> {
    let k = frame % 8;
    if k == 0 {
        "⣾"@
    } else if k == 1 {
        "⣽"@
    } else if k == 2 {
        "⣻"@
    } else if k == 3 {
        "⢿"@
    } else if k == 4 {
        "⡿"@
    } else if k == 5 {
        "⣟"@
    } else if k == 6 {
        "⣯"@
    } else {
        "⣷"@
    }
}

/// The line of a bar after `secs` seconds.
pub open spec fn bar_line(bar: ProgressBar, secs: nat) -> Seq<char> {
    with_message(
        bar.message,
        true,
        bar_text(bar.current as nat, bar.total as nat),
        decimal(percentage(bar.current as nat, bar.total as nat)) + "% "@ + decimal(
            bar.current as nat,
        ) + "/"@ + decimal(bar.total as nat) + " "@ + duration_text(secs),
    )
}

/// The line of a counter after `secs` seconds.
pub open spec fn counter_line(bar: ProgressBar, secs: nat) -> Seq<char> {
    with_message(
        bar.message,
        true,
        decimal(bar.current as nat) + "/"@ + decimal(bar.total as nat),
        duration_text(secs),
    )
}

/// The line of a spinner after `secs` seconds.
pub open spec fn spinner_line(bar: ProgressBar, secs: nat) -> Seq<char> {
    with_message(
        bar.message,
        false,
        spinner_frame_text(bar.spinner_frame as nat),
        duration_text(secs),
    )
}

/// The line of the dots after `secs` seconds.
pub open spec fn dots_line(bar: ProgressBar, secs: nat) -> Seq<char> {
    with_message(bar.message, false, dots_frame_text(bar.spinner_frame as nat), duration_text(secs))
}

/// The text that shows an indicator after `secs` seconds: a return to the
/// start of the line and the line of its style.
pub open spec fn shown_text(bar: ProgressBar, secs: nat) -> Seq<char> {
    "\r"@ + match bar.style {
        ProgressStyle::Bar => bar_line(bar, secs),
        ProgressStyle::Spinner => spinner_line(bar, secs),
        ProgressStyle::Dots => dots_line(bar, secs),
        ProgressStyle::Counter => counter_line(bar, secs),
    }
}

/// An indicator with its progress set.
pub open spec fn progressed(bar: ProgressBar, current: usize) -> ProgressBar {
    ProgressBar { current, ..bar }
}

/// The time that is left at the pace so far, in nanoseconds: the time that
/// has passed for the items done, for each item that is left.
pub open spec fn remaining_nanos(elapsed: nat, current: nat, total: nat) -> nat {
    (elapsed * (total - current) as nat) / current
}

/// The time that is left once `passed` nanoseconds have gone by, in
/// nanoseconds: nothing before the first item is done, nor once all are, nor
/// where the time does not fit the numbers of the machine.
pub open spec fn time_left(passed: nat, current: nat, total: nat) -> Option<nat> {
    if current == 0 || current >= total {
        None
    } else if passed * (total - current) > u128::MAX {
        None
    } else if remaining_nanos(passed, current, total) / 1_000_000_000 > u64::MAX {
        None
    } else {
        Some(remaining_nanos(passed, current, total))
    }
}

/// The length of a span of time that may be missing, in nanoseconds.
pub open spec fn span_nanos(span: Option<Duration>) -> Option<nat> {
    match span {
        Some(d) => Some(nanos_of(d)),
        None => None,
    }
}

/// Puts the parts of a line together.
fn join_parts(message: &Option<String>, first: bool, lead: &str, rest: &str) -> (r: String)
    ensures
        r@ == with_message(*message, first, lead@, rest@),
{
    let mut r = String::new();
    match message {
        Some(m) => {
            if first {
                r.append(m.as_str());
                r.append(" ");
                r.append(lead);
            } else {
                r.append(lead);
                r.append(" ");
                r.append(m.as_str());
            }
        },
        None => {
            r.append(lead);
        },
    }
    r.append(" ");
    r.append(rest);
    assert(r@ =~= with_message(*message, first, lead@, rest@));
    r
}

impl ProgressBar {
    /// A progress indicator, shown where the standard output is a terminal.
    pub fn new(total: usize, style: ProgressStyle) -> (r: Self)
        ensures
            r.total == total,
            r.current == 0,
            r.style == style,
            r.message is None,
            r.spinner_frame == 0,
            nanos_of(r.update_interval) == 100_000_000,
    {
        ProgressBar {
            total,
            current: 0,
            style,
            message: None,
            start_time: instant_now(),
            last_update: instant_now(),
            update_interval: duration_from_millis(100),
            enabled: stdout_is_terminal(),
            spinner_frame: 0,
        }
    }

    /// A bar where the total is known, a spinner where it is not.
    pub fn auto(total: usize) -> (r: Self)
        ensures
            r.total == total,
            r.current == 0,
            r.style == if total > 0 {
                ProgressStyle::Bar
            } else {
                ProgressStyle::Spinner
            },
            r.message is None,
    {
        let style = if total > 0 {
            ProgressStyle::Bar
        } else {
            ProgressStyle::Spinner
        };
        ProgressBar::new(total, style)
    }

    /// An indicator that is never shown.
    pub fn disabled() -> (r: Self)
        ensures
            r.total == 0,
            r.current == 0,
            r.style == ProgressStyle::Counter,
            !r.enabled,
            r.message is None,
    {
        let mut pb = ProgressBar::new(0, ProgressStyle::Counter);
        pb.enabled = false;
        pb
    }

    /// Sets the message shown with the indicator.
    pub fn set_message(&mut self, message: &str)
        ensures
            final(self).message matches Some(m) && m@ == message@,
            final(self).total == old(self).total,
            final(self).current == old(self).current,
            final(self).style == old(self).style,
            final(self).enabled == old(self).enabled,
            final(self).spinner_frame == old(self).spinner_frame,
    {
        self.message = Some(message.to_owned());
    }

    /// Takes the message away.
    pub fn clear_message(&mut self)
        ensures
            final(self).message is None,
            final(self).total == old(self).total,
            final(self).current == old(self).current,
            final(self).style == old(self).style,
            final(self).enabled == old(self).enabled,
            final(self).spinner_frame == old(self).spinner_frame,
    {
        self.message = None;
    }

    /// Sets the progress and gives the line to show. Nothing is shown where
    /// the indicator is off, nor before the progress is complete where the
    /// last showing is less than the update interval ago.
    pub fn update(&mut self, current: usize) -> (r: Option<String>)
        ensures
            final(self).current == current,
            final(self).total == old(self).total,
            final(self).style == old(self).style,
            final(self).enabled == old(self).enabled,
            final(self).message == old(self).message,
            !old(self).enabled ==> r is None,
            old(self).enabled && current >= old(self).total ==> r is Some,
            r matches Some(text) ==> exists|secs: nat|
                text@ == #[trigger] shown_text(progressed(*old(self), current), secs),
    {
        self.current = current;
        let since = instant_elapsed(&self.last_update);
        if duration_nanos(&since) < duration_nanos(&self.update_interval) && current < self.total {
            return None;
        }
        self.last_update = instant_now();
        let ghost at_render = *self;
        let r = self.render();
        proof {
            if r is Some {
                let secs = choose|secs: nat| r->0@ == #[trigger] shown_text(at_render, secs);
                assert(shown_text(at_render, secs) == shown_text(
                    progressed(*old(self), current),
                    secs,
                ));
            }
        }
        r
    }

    /// Raises the progress by one and gives the line to show.
    pub fn increment(&mut self) -> (r: Option<String>)
        requires
            old(self).current < usize::MAX,
        ensures
            final(self).current == old(self).current + 1,
            final(self).total == old(self).total,
            final(self).style == old(self).style,
            final(self).enabled == old(self).enabled,
            final(self).message == old(self).message,
            !old(self).enabled ==> r is None,
            old(self).enabled && old(self).current + 1 >= old(self).total ==> r is Some,
            r matches Some(text) ==> exists|secs: nat|
                text@ == #[trigger] shown_text(
                    progressed(*old(self), (old(self).current + 1) as usize),
                    secs,
                ),
    {
        let next: usize = self.current + 1;
        self.update(next)
    }

    /// Raises the progress by `delta` and gives the line to show.
    pub fn increment_by(&mut self, delta: usize) -> (r: Option<String>)
        requires
            old(self).current + delta <= usize::MAX,
        ensures
            final(self).current == old(self).current + delta,
            final(self).total == old(self).total,
            final(self).style == old(self).style,
            final(self).enabled == old(self).enabled,
            final(self).message == old(self).message,
            !old(self).enabled ==> r is None,
            old(self).enabled && old(self).current + delta >= old(self).total ==> r is Some,
            r matches Some(text) ==> exists|secs: nat|
                text@ == #[trigger] shown_text(
                    progressed(*old(self), (old(self).current + delta) as usize),
                    secs,
                ),
    {
        let next: usize = self.current + delta;
        self.update(next)
    }

    /// Completes the progress where the indicator is on, and gives the line
    /// to show.
    pub fn finish(&mut self) -> (r: Option<String>)
        ensures
            final(self).total == old(self).total,
            final(self).enabled == old(self).enabled,
            final(self).message == old(self).message,
            final(self).current == if old(self).enabled {
                old(self).total
            } else {
                old(self).current
            },
            match r {
                Some(text) => old(self).enabled && exists|secs: nat|
                    text@ == #[trigger] shown_text(progressed(*old(self), old(self).total), secs),
                None => !old(self).enabled,
            },
    {
        if self.enabled {
            self.current = self.total;
            self.render()
        } else {
            None
        }
    }

    /// Completes the progress with a message where the indicator is on, and
    /// gives the line to show.
    pub fn finish_with_message(&mut self, message: &str) -> (r: Option<String>)
        ensures
            final(self).total == old(self).total,
            final(self).enabled == old(self).enabled,
            old(self).enabled ==> final(self).current == old(self).total,
            old(self).enabled ==> (final(self).message matches Some(m) && m@ == message@),
            !old(self).enabled ==> r is None && final(self).current == old(self).current
                && final(self).message == old(self).message,
    {
        if self.enabled {
            self.set_message(message);
            self.finish()
        } else {
            None
        }
    }

    /// The text to show now; nothing where the indicator is off.
    pub fn render(&mut self) -> (r: Option<String>)
        ensures
            final(self).total == old(self).total,
            final(self).current == old(self).current,
            final(self).style == old(self).style,
            final(self).enabled == old(self).enabled,
            final(self).message == old(self).message,
            match r {
                Some(text) => old(self).enabled && exists|secs: nat|
                    text@ == #[trigger] shown_text(*old(self), secs),
                None => !old(self).enabled,
            },
    {
        if !self.enabled {
            return None;
        }
        let secs = duration_secs(&instant_elapsed(&self.start_time));
        let line = match self.style {
            ProgressStyle::Bar => self.render_bar_at(secs),
            ProgressStyle::Spinner => self.render_spinner_at(secs),
            ProgressStyle::Dots => self.render_dots_at(secs),
            ProgressStyle::Counter => self.render_counter_at(secs),
        };
        let text = concat("\r", line.as_str());
        assert(text@ == shown_text(*old(self), secs as nat));
        Some(text)
    }

    /// The line of the bar after `secs` seconds.
    pub fn render_bar_at(&self, secs: u64) -> (r: String)
        ensures
            r@ == bar_line(*self, secs as nat),
    {
        let whole: u128 = if self.total == 0 {
            1
        } else {
            self.total as u128
        };
        let filled: u128 = (40 * self.current as u128) / whole;
        let percent: u128 = if self.total > 0 {
            (self.current as u128 * 100) / self.total as u128
        } else {
            0
        };
        let mut bar = "[".to_owned();
        if filled > 0 {
            push_repeated_wide(&mut bar, "=", filled - 1);
            bar.append(">");
        }
        let empty: u128 = if filled <= 40 {
            40 - filled
        } else {
            0
        };
        push_repeated_wide(&mut bar, " ", empty);
        bar.append("]");
        assert(bar@ =~= bar_text(self.current as nat, self.total as nat));
        let mut rest = String::new();
        crate::text::push_decimal_wide(&mut rest, percent);
        rest.append("% ");
        push_decimal(&mut rest, self.current as u64);
        rest.append("/");
        push_decimal(&mut rest, self.total as u64);
        rest.append(" ");
        let shown = format_seconds(secs);
        rest.append(shown.as_str());
        join_parts(&self.message, true, bar.as_str(), rest.as_str())
    }

    /// The line of the bar now.
    pub fn render_bar(&self) -> (r: String)
        ensures
            exists|secs: nat| r@ == #[trigger] bar_line(*self, secs),
    {
        let secs = duration_secs(&instant_elapsed(&self.start_time));
        let r = self.render_bar_at(secs);
        assert(r@ == bar_line(*self, secs as nat));
        r
    }

    /// The line of the counter after `secs` seconds.
    pub fn render_counter_at(&self, secs: u64) -> (r: String)
        ensures
            r@ == counter_line(*self, secs as nat),
    {
        let mut lead = String::new();
        push_decimal(&mut lead, self.current as u64);
        lead.append("/");
        push_decimal(&mut lead, self.total as u64);
        let shown = format_seconds(secs);
        join_parts(&self.message, true, lead.as_str(), shown.as_str())
    }

    /// The line of the counter now.
    pub fn render_counter(&self) -> (r: String)
        ensures
            exists|secs: nat| r@ == #[trigger] counter_line(*self, secs),
    {
        let secs = duration_secs(&instant_elapsed(&self.start_time));
        let r = self.render_counter_at(secs);
        assert(r@ == counter_line(*self, secs as nat));
        r
    }

    /// The line of the spinner after `secs` seconds; the spinner moves on
    /// by one frame.
    pub fn render_spinner_at(&mut self, secs: u64) -> (r: String)
        ensures
            r@ == spinner_line(*old(self), secs as nat),
            final(self).spinner_frame == if old(self).spinner_frame == usize::MAX {
                0
            } else {
                old(self).spinner_frame + 1
            },
            final(self).total == old(self).total,
            final(self).current == old(self).current,
            final(self).style == old(self).style,
            final(self).enabled == old(self).enabled,
            final(self).message == old(self).message,
    {
        let k = self.spinner_frame % 10;
        let frame: &str = if k == 0 {
            "⠋"
        } else if k == 1 {
            "⠙"
        } else if k == 2 {
            "⠹"
        } else if k == 3 {
            "⠸"
        } else if k == 4 {
            "⠼"
        } else if k == 5 {
            "⠴"
        } else if k == 6 {
            "⠦"
        } else if k == 7 {
            "⠧"
        } else if k == 8 {
            "⠇"
        } else {
            "⠏"
        };
        let shown = format_seconds(secs);
        let r = join_parts(&self.message, false, frame, shown.as_str());
        self.spinner_frame = if self.spinner_frame == usize::MAX {
            0
        } else {
            self.spinner_frame + 1
        };
        r
    }

    /// The line of the spinner now; the spinner moves on by one frame.
    pub fn render_spinner(&mut self) -> (r: String)
        ensures
            exists|secs: nat| r@ == #[trigger] spinner_line(*old(self), secs),
            final(self).total == old(self).total,
            final(self).current == old(self).current,
            final(self).style == old(self).style,
            final(self).enabled == old(self).enabled,
            final(self).message == old(self).message,
    {
        let secs = duration_secs(&instant_elapsed(&self.start_time));
        let r = self.render_spinner_at(secs);
        assert(r@ == spinner_line(*old(self), secs as nat));
        r
    }

    /// The line of the dots after `secs` seconds; the dots move on by one
    /// frame.
    pub fn render_dots_at(&mut self, secs: u64) -> (r: String)
        ensures
            r@ == dots_line(*old(self), secs as nat),
            final(self).spinner_frame == if old(self).spinner_frame == usize::MAX {
                0
            } else {
                old(self).spinner_frame + 1
            },
            final(self).total == old(self).total,
            final(self).current == old(self).current,
            final(self).style == old(self).style,
            final(self).enabled == old(self).enabled,
            final(self).message == old(self).message,
    {
        let k = self.spinner_frame % 8;
        let frame: &str = if k == 0 {
            "⣾"
        } else if k == 1 {
            "⣽"
        } else if k == 2 {
            "⣻"
        } else if k == 3 {
            "⢿"
        } else if k == 4 {
            "⡿"
        } else if k == 5 {
            "⣟"
        } else if k == 6 {
            "⣯"
        } else {
            "⣷"
        };
        let shown = format_seconds(secs);
        let r = join_parts(&self.message, false, frame, shown.as_str());
        self.spinner_frame = if self.spinner_frame == usize::MAX {
            0
        } else {
            self.spinner_frame + 1
        };
        r
    }

    /// The line of the dots now; the dots move on by one frame.
    pub fn render_dots(&mut self) -> (r: String)
        ensures
            exists|secs: nat| r@ == #[trigger] dots_line(*old(self), secs),
            final(self).total == old(self).total,
            final(self).current == old(self).current,
            final(self).style == old(self).style,
            final(self).enabled == old(self).enabled,
            final(self).message == old(self).message,
    {
        let secs = duration_secs(&instant_elapsed(&self.start_time));
        let r = self.render_dots_at(secs);
        assert(r@ == dots_line(*old(self), secs as nat));
        r
    }

    /// The time since the indicator was made.
    pub fn elapsed(&self) -> (d: Duration) {
        instant_elapsed(&self.start_time)
    }

    /// The time that is left at the pace so far, given the time that has
    /// passed: nothing before the first item is done, nor once all are, nor
    /// where the time does not fit the numbers of the machine.
    pub fn eta_after(&self, elapsed: &Duration) -> (r: Option<Duration>)
        ensures
            span_nanos(r) == time_left(
                nanos_of(*elapsed),
                self.current as nat,
                self.total as nat,
            ),
    {
        if self.current == 0 || self.current >= self.total {
            return None;
        }
        let passed = duration_nanos(elapsed);
        let remaining: u128 = (self.total - self.current) as u128;
        let product = match passed.checked_mul(remaining) {
            Some(p) => p,
            None => {
                return None;
            },
        };
        let left: u128 = product / self.current as u128;
        let secs: u128 = left / 1_000_000_000;
        if secs > 0xFFFF_FFFF_FFFF_FFFF {
            return None;
        }
        let nanos: u32 = (left % 1_000_000_000) as u32;
        Some(duration_new(secs as u64, nanos))
    }

    /// The time that is left at the pace so far, for the time that has
    /// passed since the indicator was made, whatever that is: nothing before
    /// the first item is done, nor once all are.
    pub fn eta(&self) -> (r: Option<Duration>)
        ensures
            exists|passed: nat|
                passed <= longest_nanos() && span_nanos(r) == #[trigger] time_left(
                    passed,
                    self.current as nat,
                    self.total as nat,
                ),
            r is Some ==> 0 < self.current < self.total,
            self.current == 0 || self.current >= self.total ==> r is None,
    {
        let elapsed = instant_elapsed(&self.start_time);
        let passed = duration_nanos(&elapsed);
        let r = self.eta_after(&elapsed);
        assert(span_nanos(r) == time_left(passed as nat, self.current as nat, self.total as nat));
        r
    }
}

/// Adds `text` to the end of `s`, `count` times.
fn push_repeated_wide(s: &mut String, text: &str, count: u128)
    ensures
        final(s)@ == old(s)@ + repeated(text@, count as nat),
{
    let mut i: u128 = 0;
    assert(s@ =~= old(s)@ + repeated(text@, 0));
    while i < count
        invariant
            i <= count,
            s@ == old(s)@ + repeated(text@, i as nat),
        decreases count - i,
    {
        s.append(text);
        i += 1;
        assert(s@ =~= old(s)@ + repeated(text@, i as nat));
    }
}

} // verus!
