//! What a merge is asked to do: compression, rotation, page ranges,
//! document information and the options around them.

use crate::error::PdfCatError;
use crate::paths::{path_display, path_eq, path_text, paths_equal};
use crate::text::{
    chars_of, concat, decimal, push_decimal, slice_chars, string_of, trim_chars, trimmed,
};
use std::path::PathBuf;
use vstd::prelude::*;
use vstd::string::*;

verus! {

/// Compression level for the output.
#[derive(Debug, Clone, Copy, PartialEq, Eq, Structural)]
pub enum CompressionLevel {
    /// No compression.
    Uncompressed,
    /// Streams are compressed.
    Standard,
    /// Streams are compressed and unreachable objects removed.
    Maximum,
}

impl Default for CompressionLevel {
    fn default() -> (r: Self)
        ensures
            r == CompressionLevel::Standard,
    {
        CompressionLevel::Standard
    }
}

/// Page rotation in degrees.
#[derive(Debug, Clone, Copy, PartialEq, Eq, Structural)]
pub enum Rotation {
    /// 90 degrees clockwise.
    Clockwise90,
    /// 180 degrees.
    Rotate180,
    /// 270 degrees clockwise.
    Clockwise270,
}

/// One part of a page range: a page or an inclusive span of pages.
#[derive(Debug, Clone, Copy, PartialEq, Eq, Structural)]
pub enum PageRangeItem {
    Single(u32),
    Range(u32, u32),
}

/// A set of 1-indexed page numbers, written as pages and spans.
#[derive(Debug, Clone, PartialEq, Eq)]
pub struct PageRange {
    ranges: Vec<PageRangeItem>,
}

/// Document information to write into the output.
#[derive(Debug, Clone, PartialEq, Eq)]
pub struct Metadata {
    pub title: Option<String>,
    pub author: Option<String>,
    pub subject: Option<String>,
    pub keywords: Option<String>,
}

/// What to do where the output file exists.
#[derive(Debug, Clone, Copy, PartialEq, Eq, Structural)]
pub enum OverwriteMode {
    /// Ask the user.
    Prompt,
    /// Overwrite.
    Force,
    /// Fail.
    NoClobber,
}

impl Default for OverwriteMode {
    fn default() -> (r: Self)
        ensures
            r == OverwriteMode::Prompt,
    {
        OverwriteMode::Prompt
    }
}

/// The complete configuration of one merge.
#[derive(Debug, Clone)]
pub struct Config {
    pub inputs: Vec<PathBuf>,
    pub output: PathBuf,
    pub dry_run: bool,
    pub verbose: bool,
    pub overwrite_mode: OverwriteMode,
    pub quiet: bool,
    pub bookmarks: bool,
    pub compression: CompressionLevel,
    pub metadata: Metadata,
    pub continue_on_error: bool,
    pub jobs: Option<usize>,
    pub page_range: Option<PageRange>,
    pub rotation: Option<Rotation>,
}

/// What `str::to_lowercase` makes of a text.
pub uninterp spec fn lowercase(s: Seq<char>) -> Seq<char>;

/// `str::to_lowercase`.
#[verifier::external_body]
pub(crate) fn to_lowercase(s: &str) -> (r: String)
    ensures
        r@ == lowercase(s@),
{
    s.to_lowercase()
}

/// Whether two texts hold the same characters.
pub fn text_eq(a: &str, b: &str) -> (r: bool)
    ensures
        r == (a@ == b@),
{
    let x = a.to_owned();
    let y = b.to_owned();
    x == y
}

/// The level that a lower-case name stands for.
pub open spec fn level_named(lower: Seq<char>) -> Option<CompressionLevel> {
    if lower == "none"@ {
        Some(CompressionLevel::Uncompressed)
    } else if lower == "standard"@ {
        Some(CompressionLevel::Standard)
    } else if lower == "maximum"@ {
        Some(CompressionLevel::Maximum)
    } else {
        None
    }
}

impl CompressionLevel {
    /// The level that `s` names, whatever the case of its letters.
    pub fn from_str(s: &str) -> (r: Result<CompressionLevel, PdfCatError>)
        ensures
            match r {
                Ok(level) => level_named(lowercase(s@)) == Some(level),
                Err(e) => {
                    &&& level_named(lowercase(s@)) is None
                    &&& e matches PdfCatError::InvalidConfig { message } && message@
                        == "Invalid compression level: "@ + s@
                        + ". Must be one of: none, standard, maximum"@
                },
            },
    {
        let lower = to_lowercase(s);
        if text_eq(lower.as_str(), "none") {
            Ok(CompressionLevel::Uncompressed)
        } else if text_eq(lower.as_str(), "standard") {
            Ok(CompressionLevel::Standard)
        } else if text_eq(lower.as_str(), "maximum") {
            Ok(CompressionLevel::Maximum)
        } else {
            let mut message = concat("Invalid compression level: ", s);
            message.append(". Must be one of: none, standard, maximum");
            Err(PdfCatError::InvalidConfig { message })
        }
    }
}

impl Rotation {
    /// The rotation of the given degrees.
    pub open spec fn of_degrees(degrees: u16) -> Option<Rotation> {
        if degrees == 90 {
            Some(Rotation::Clockwise90)
        } else if degrees == 180 {
            Some(Rotation::Rotate180)
        } else if degrees == 270 {
            Some(Rotation::Clockwise270)
        } else {
            None
        }
    }

    /// The degrees of a rotation.
    pub open spec fn degrees(&self) -> u16 {
        match self {
            Rotation::Clockwise90 => 90,
            Rotation::Rotate180 => 180,
            Rotation::Clockwise270 => 270,
        }
    }

    /// The rotation of 90, 180 or 270 degrees; an error for any other number.
    pub fn from_degrees(degrees: u16) -> (r: Result<Rotation, PdfCatError>)
        ensures
            match r {
                Ok(rotation) => Rotation::of_degrees(degrees) == Some(rotation),
                Err(e) => {
                    &&& Rotation::of_degrees(degrees) is None
                    &&& e matches PdfCatError::InvalidConfig { message } && message@
                        == "Invalid rotation: "@ + decimal(degrees as nat)
                        + ". Must be 90, 180, or 270"@
                },
            },
    {
        if degrees == 90 {
            Ok(Rotation::Clockwise90)
        } else if degrees == 180 {
            Ok(Rotation::Rotate180)
        } else if degrees == 270 {
            Ok(Rotation::Clockwise270)
        } else {
            let mut message = "Invalid rotation: ".to_owned();
            push_decimal(&mut message, degrees as u64);
            message.append(". Must be 90, 180, or 270");
            Err(PdfCatError::InvalidConfig { message })
        }
    }

    /// The degrees of this rotation.
    pub fn as_degrees(&self) -> (d: u16)
        ensures
            d == self.degrees(),
    {
        match self {
            Rotation::Clockwise90 => 90,
            Rotation::Rotate180 => 180,
            Rotation::Clockwise270 => 270,
        }
    }
}

/// Whether a character is a decimal digit.
pub open spec fn is_digit(c: char) -> bool {
    c == '0' || c == '1' || c == '2' || c == '3' || c == '4' || c == '5' || c == '6' || c == '7'
        || c == '8' || c == '9'
}

/// The value of a decimal digit.
pub open spec fn digit_value(c: char) -> nat {
    if c == '1' {
        1
    } else if c == '2' {
        2
    } else if c == '3' {
        3
    } else if c == '4' {
        4
    } else if c == '5' {
        5
    } else if c == '6' {
        6
    } else if c == '7' {
        7
    } else if c == '8' {
        8
    } else if c == '9' {
        9
    } else {
        0
    }
}

/// Every character is a decimal digit.
pub open spec fn all_digits(s: Seq<char>) -> bool {
    forall|i: int| 0 <= i < s.len() ==> is_digit(#[trigger] s[i])
}

/// The number that a sequence of digits writes.
pub open spec fn number(s: Seq<char>) -> nat
    decreases s.len(),
{
    if s.len() == 0 {
        0
    } else {
        number(s.drop_last()) * 10 + digit_value(s.last())
    }
}

/// The page number that a text writes: digits, with `+` allowed in front,
/// of a value that fits 32 bits.
pub open spec fn page_number(s: Seq<char>) -> Option<u32> {
    let body = if s.len() > 0 && s[0] == '+' {
        s.subrange(1, s.len() as int)
    } else {
        s
    };
    if body.len() > 0 && all_digits(body) && number(body) <= u32::MAX {
        Some(number(body) as u32)
    } else {
        None
    }
}

/// The position of the first `sep` at or after `from`; the length where
/// there is none.
pub open spec fn next_sep(s: Seq<char>, from: int, sep: char) -> int
    decreases s.len() - from,
{
    if from >= s.len() {
        s.len() as int
    } else if s[from] == sep {
        from
    } else {
        next_sep(s, from + 1, sep)
    }
}

/// The item that one part of a range text writes: `a` is a page, `a-b` a
/// span; numbers start at 1 and a span does not run backwards. Whitespace
/// around the part and around the numbers of a span is ignored.
pub open spec fn item_of(part: Seq<char>) -> Option<PageRangeItem> {
    let t = trimmed(part);
    let dash = next_sep(t, 0, '-');
    if dash < t.len() {
        if next_sep(t, dash + 1, '-') < t.len() {
            None
        } else {
            match (
                page_number(trimmed(t.subrange(0, dash))),
                page_number(trimmed(t.subrange(dash + 1, t.len() as int))),
            ) {
                (Some(a), Some(b)) => if a >= 1 && b >= 1 && a <= b {
                    Some(PageRangeItem::Range(a, b))
                } else {
                    None
                },
                _ => None,
            }
        }
    } else {
        match page_number(t) {
            Some(p) => if p >= 1 {
                Some(PageRangeItem::Single(p))
            } else {
                None
            },
            None => None,
        }
    }
}

/// What is wrong with a part of a range text that writes no item.
pub open spec fn item_fault(part: Seq<char>) -> Seq<char> {
    let t = trimmed(part);
    let dash = next_sep(t, 0, '-');
    if dash < t.len() {
        let left = t.subrange(0, dash);
        let right = t.subrange(dash + 1, t.len() as int);
        if next_sep(t, dash + 1, '-') < t.len() {
            "Invalid page range format: "@ + t + ". Expected format like '1-5'"@
        } else {
            match (page_number(trimmed(left)), page_number(trimmed(right))) {
                (None, _) => "Invalid page number: "@ + left,
                (Some(_), None) => "Invalid page number: "@ + right,
                (Some(a), Some(b)) => if a == 0 || b == 0 {
                    "Page numbers must be positive (1-indexed)"@
                } else {
                    "Invalid range "@ + decimal(a as nat) + "-"@ + decimal(b as nat)
                        + ": start page must be less than or equal to end page"@
                },
            }
        }
    } else {
        match page_number(t) {
            None => "Invalid page number: "@ + t,
            Some(_) => "Page numbers must be positive (1-indexed)"@,
        }
    }
}

/// What is wrong with the first part from position `from` on that writes
/// no item; `None` where every part writes one.
pub open spec fn fault_from(s: Seq<char>, from: int) -> Option<Seq<char>>
    decreases s.len() - from,
{
    let end = next_sep(s, from, ',');
    if from > s.len() || from < 0 || end < from || end > s.len() {
        None
    } else {
        match item_of(s.subrange(from, end)) {
            None => Some(item_fault(s.subrange(from, end))),
            Some(_) => if end >= s.len() {
                None
            } else {
                fault_from(s, end + 1)
            },
        }
    }
}

/// The items that the parts of `s` from position `from` on write, the parts
/// being separated by commas. `None` where a part writes no item.
pub open spec fn items_from(s: Seq<char>, from: int) -> Option<Seq<PageRangeItem>>
    decreases s.len() - from,
{
    let end = next_sep(s, from, ',');
    if from > s.len() || from < 0 || end < from || end > s.len() {
        None
    } else {
        match item_of(s.subrange(from, end)) {
            None => None,
            Some(item) => if end >= s.len() {
                Some(seq![item])
            } else {
                match items_from(s, end + 1) {
                    Some(rest) => Some(seq![item] + rest),
                    None => None,
                }
            },
        }
    }
}

/// Whether an item covers a page.
pub open spec fn item_contains(item: PageRangeItem, page: u32) -> bool {
    match item {
        PageRangeItem::Single(p) => p == page,
        PageRangeItem::Range(start, end) => start <= page <= end,
    }
}

/// Whether some item covers a page.
pub open spec fn range_contains(items: Seq<PageRangeItem>, page: u32) -> bool {
    exists|i: int| 0 <= i < items.len() && item_contains(#[trigger] items[i], page)
}

/// The pages from 1 to `max` that the items cover, ascending.
pub open spec fn pages_upto(items: Seq<PageRangeItem>, max: nat) -> Seq<u32>
    decreases max,
{
    if max == 0 || max > u32::MAX {
        Seq::empty()
    } else {
        let rest = pages_upto(items, (max - 1) as nat);
        if range_contains(items, max as u32) {
            rest.push(max as u32)
        } else {
            rest
        }
    }
}

/// The largest page number that an item covers.
pub open spec fn item_last(item: PageRangeItem) -> u32 {
    match item {
        PageRangeItem::Single(p) => p,
        PageRangeItem::Range(_, end) => end,
    }
}

/// The largest page number that the items name; 0 for no items.
pub open spec fn last_page(items: Seq<PageRangeItem>) -> u32
    decreases items.len(),
{
    if items.len() == 0 {
        0
    } else {
        let rest = last_page(items.drop_last());
        if item_last(items.last()) > rest {
            item_last(items.last())
        } else {
            rest
        }
    }
}

/// How an item is shown when debugging.
pub open spec fn item_debug(item: PageRangeItem) -> Seq<char> {
    match item {
        PageRangeItem::Single(p) => "Single("@ + decimal(p as nat) + ")"@,
        PageRangeItem::Range(a, b) => "Range("@ + decimal(a as nat) + ", "@ + decimal(b as nat)
            + ")"@,
    }
}

/// How items are shown when debugging: separated by a comma and a space.
pub open spec fn items_debug(items: Seq<PageRangeItem>) -> Seq<char>
    decreases items.len(),
{
    if items.len() == 0 {
        Seq::empty()
    } else if items.len() == 1 {
        item_debug(items[0])
    } else {
        items_debug(items.drop_last()) + ", "@ + item_debug(items.last())
    }
}

/// How a page range is shown when debugging.
pub open spec fn range_debug(items: Seq<PageRangeItem>) -> Seq<char> {
    "PageRange { ranges: ["@ + items_debug(items) + "] }"@
}

/// The value of a digit character, `None` for any other character.
fn digit_of(c: char) -> (r: Option<u64>)
    ensures
        match r {
            Some(d) => is_digit(c) && d == digit_value(c) && d < 10,
            None => !is_digit(c),
        },
{
    if c == '0' {
        Some(0)
    } else if c == '1' {
        Some(1)
    } else if c == '2' {
        Some(2)
    } else if c == '3' {
        Some(3)
    } else if c == '4' {
        Some(4)
    } else if c == '5' {
        Some(5)
    } else if c == '6' {
        Some(6)
    } else if c == '7' {
        Some(7)
    } else if c == '8' {
        Some(8)
    } else if c == '9' {
        Some(9)
    } else {
        None
    }
}

/// The number written by a prefix is at most the number written by the
/// whole.
proof fn lemma_number_prefix(s: Seq<char>, k: int)
    requires
        0 <= k <= s.len(),
    ensures
        number(s.subrange(0, k)) <= number(s),
    decreases s.len(),
{
    if k == s.len() {
        assert(s.subrange(0, k) =~= s);
    } else {
        lemma_number_prefix(s.drop_last(), k);
        assert(s.drop_last().subrange(0, k) =~= s.subrange(0, k));
    }
}

/// The page number that the characters write.
pub fn parse_page_number(chars: &Vec<char>) -> (r: Option<u32>)
    ensures
        r == page_number(chars@),
{
    let n = chars.len();
    let start: usize = if n > 0 && chars[0] == '+' {
        1
    } else {
        0
    };
    let ghost body = if start == 1 {
        chars@.subrange(1, n as int)
    } else {
        chars@
    };
    if start == n {
        return None;
    }
    let mut acc: u64 = 0;
    let mut i: usize = start;
    assert(body.subrange(0, 0) =~= Seq::<char>::empty());
    while i < n
        invariant
            n == chars@.len(),
            start <= i <= n,
            start <= 1,
            body == (if chars@.len() > 0 && chars@[0] == '+' {
                chars@.subrange(1, chars@.len() as int)
            } else {
                chars@
            }),
            body.len() == n - start,
            forall|k: int| 0 <= k < body.len() ==> body[k] == chars@[k + start],
            all_digits(body.subrange(0, i - start)),
            acc == number(body.subrange(0, i - start)),
            acc <= u32::MAX,
        decreases n - i,
    {
        let ghost prefix = body.subrange(0, i - start);
        let ghost longer = body.subrange(0, i + 1 - start);
        proof {
            assert(longer.drop_last() =~= prefix);
            assert(longer.last() == chars@[i as int]);
        }
        match digit_of(chars[i]) {
            None => {
                assert(!is_digit(body[i - start]));
                return None;
            },
            Some(d) => {
                let next: u64 = acc * 10 + d;
                assert forall|j: int| 0 <= j < longer.len() implies is_digit(
                    #[trigger] longer[j],
                ) by {
                    if j < prefix.len() {
                        assert(longer[j] == prefix[j]);
                    }
                }
                if next > 0xFFFF_FFFF {
                    proof {
                        lemma_number_prefix(body, i + 1 - start);
                    }
                    return None;
                }
                acc = next;
                i += 1;
            },
        }
    }
    assert(body.subrange(0, n - start) =~= body);
    Some(acc as u32)
}

/// The position of the first `sep` at or after `from`.
pub fn find_sep(chars: &Vec<char>, from: usize, sep: char) -> (r: usize)
    requires
        from <= chars@.len(),
    ensures
        r == next_sep(chars@, from as int, sep),
        from <= r <= chars@.len(),
{
    let mut i: usize = from;
    while i < chars.len() && chars[i] != sep
        invariant
            from <= i <= chars@.len(),
            next_sep(chars@, from as int, sep) == next_sep(chars@, i as int, sep),
        decreases chars@.len() - i,
    {
        i += 1;
    }
    i
}

/// The item that one part of a range text writes.
fn parse_item(part: &Vec<char>) -> (r: Option<PageRangeItem>)
    ensures
        r == item_of(part@),
{
    let t = trim_chars(part);
    let dash = find_sep(&t, 0, '-');
    if dash < t.len() {
        let second = find_sep(&t, dash + 1, '-');
        if second < t.len() {
            return None;
        }
        let left = trim_chars(&slice_chars(&t, 0, dash));
        let right = trim_chars(&slice_chars(&t, dash + 1, t.len()));
        match (parse_page_number(&left), parse_page_number(&right)) {
            (Some(a), Some(b)) => if a >= 1 && b >= 1 && a <= b {
                Some(PageRangeItem::Range(a, b))
            } else {
                None
            },
            _ => None,
        }
    } else {
        match parse_page_number(&t) {
            Some(p) => if p >= 1 {
                Some(PageRangeItem::Single(p))
            } else {
                None
            },
            None => None,
        }
    }
}

/// What is wrong with a part of a range text that writes no item.
fn item_fault_text(part: &Vec<char>) -> (r: String)
    requires
        item_of(part@) is None,
    ensures
        r@ == item_fault(part@),
{
    let t = trim_chars(part);
    let shown = string_of(&t);
    let dash = find_sep(&t, 0, '-');
    if dash < t.len() {
        let second = find_sep(&t, dash + 1, '-');
        if second < t.len() {
            let mut r = concat("Invalid page range format: ", shown.as_str());
            r.append(". Expected format like '1-5'");
            return r;
        }
        let left = slice_chars(&t, 0, dash);
        let right = slice_chars(&t, dash + 1, t.len());
        match (parse_page_number(&trim_chars(&left)), parse_page_number(&trim_chars(&right))) {
            (None, _) => {
                let text = string_of(&left);
                concat("Invalid page number: ", text.as_str())
            },
            (Some(_), None) => {
                let text = string_of(&right);
                concat("Invalid page number: ", text.as_str())
            },
            (Some(a), Some(b)) => if a == 0 || b == 0 {
                "Page numbers must be positive (1-indexed)".to_owned()
            } else {
                let mut r = "Invalid range ".to_owned();
                push_decimal(&mut r, a as u64);
                r.append("-");
                push_decimal(&mut r, b as u64);
                r.append(": start page must be less than or equal to end page");
                assert(r@ =~= item_fault(part@));
                r
            },
        }
    } else {
        match parse_page_number(&t) {
            None => concat("Invalid page number: ", shown.as_str()),
            Some(_) => "Page numbers must be positive (1-indexed)".to_owned(),
        }
    }
}

impl View for PageRange {
    type V = Seq<PageRangeItem>;

    closed spec fn view(&self) -> Seq<PageRangeItem> {
        self.ranges@
    }
}

impl PageRange {
    /// The page range that a text such as `1-5,10,15-20` writes.
    pub fn parse(s: &str) -> (r: Result<PageRange, PdfCatError>)
        ensures
            match r {
                Ok(range) => items_from(s@, 0) == Some(range@) && range@.len() >= 1,
                Err(e) => {
                    &&& items_from(s@, 0) is None
                    &&& e matches PdfCatError::Other { message } && fault_from(s@, 0) == Some(
                        message@,
                    )
                },
            },
    {
        let chars = chars_of(s);
        let mut ranges: Vec<PageRangeItem> = Vec::new();
        let mut pos: usize = 0;
        loop
            invariant
                chars@ == s@,
                pos <= chars@.len(),
                items_from(s@, 0) == match items_from(s@, pos as int) {
                    Some(rest) => Some(ranges@ + rest),
                    None => None,
                },
                fault_from(s@, 0) == fault_from(s@, pos as int),
            decreases chars@.len() - pos,
        {
            let end = find_sep(&chars, pos, ',');
            let part = slice_chars(&chars, pos, end);
            match parse_item(&part) {
                None => {
                    let message = item_fault_text(&part);
                    return Err(PdfCatError::Other { message });
                },
                Some(item) => {
                    let ghost before = ranges@;
                    ranges.push(item);
                    if end >= chars.len() {
                        assert(before + seq![item] =~= ranges@);
                        return Ok(PageRange { ranges });
                    }
                    proof {
                        match items_from(s@, end + 1) {
                            Some(rest) => {
                                assert(before + (seq![item] + rest) =~= ranges@ + rest);
                            },
                            None => {},
                        }
                    }
                    pos = end + 1;
                },
            }
        }
    }

    /// Whether the range covers a page.
    pub fn contains(&self, page: u32) -> (b: bool)
        ensures
            b == range_contains(self@, page),
    {
        let mut i: usize = 0;
        while i < self.ranges.len()
            invariant
                i <= self.ranges.len(),
                forall|j: int| 0 <= j < i ==> !item_contains(#[trigger] self@[j], page),
            decreases self.ranges.len() - i,
        {
            let hit = match self.ranges[i] {
                PageRangeItem::Single(p) => p == page,
                PageRangeItem::Range(start, end) => page >= start && page <= end,
            };
            if hit {
                return true;
            }
            i += 1;
        }
        false
    }

    /// The pages from 1 to `max_pages` that the range covers, ascending.
    pub fn to_pages(&self, max_pages: u32) -> (pages: Vec<u32>)
        ensures
            pages@ == pages_upto(self@, max_pages as nat),
    {
        let mut pages: Vec<u32> = Vec::new();
        let mut p: u32 = 0;
        while p < max_pages
            invariant
                p <= max_pages,
                pages@ == pages_upto(self@, p as nat),
            decreases max_pages - p,
        {
            p += 1;
            if self.contains(p) {
                pages.push(p);
            }
        }
        pages
    }

    /// The largest page number that the range names.
    pub fn max_page(&self) -> (m: u32)
        ensures
            m == last_page(self@),
    {
        let mut m: u32 = 0;
        let mut i: usize = 0;
        while i < self.ranges.len()
            invariant
                i <= self.ranges.len(),
                m == last_page(self@.subrange(0, i as int)),
            decreases self.ranges.len() - i,
        {
            let last = match self.ranges[i] {
                PageRangeItem::Single(p) => p,
                PageRangeItem::Range(_, end) => end,
            };
            proof {
                assert(self@.subrange(0, i + 1).drop_last() =~= self@.subrange(0, i as int));
            }
            if last > m {
                m = last;
            }
            i += 1;
        }
        assert(self@.subrange(0, i as int) =~= self@);
        m
    }

    /// The range as it is shown when debugging.
    pub fn debug_text(&self) -> (r: String)
        ensures
            r@ == range_debug(self@),
    {
        let mut r = "PageRange { ranges: [".to_owned();
        let ghost lead = r@;
        let mut i: usize = 0;
        while i < self.ranges.len()
            invariant
                i <= self.ranges.len(),
                r@ == lead + items_debug(self@.subrange(0, i as int)),
            decreases self.ranges.len() - i,
        {
            let ghost before = self@.subrange(0, i as int);
            let ghost after = self@.subrange(0, i + 1);
            proof {
                assert(after.drop_last() =~= before);
                assert(after.last() == self@[i as int]);
            }
            if i > 0 {
                r.append(", ");
            }
            match self.ranges[i] {
                PageRangeItem::Single(p) => {
                    r.append("Single(");
                    push_decimal(&mut r, p as u64);
                    r.append(")");
                },
                PageRangeItem::Range(a, b) => {
                    r.append("Range(");
                    push_decimal(&mut r, a as u64);
                    r.append(", ");
                    push_decimal(&mut r, b as u64);
                    r.append(")");
                },
            }
            assert(r@ =~= lead + items_debug(after)) by {
                if i == 0 {
                    assert(items_debug(before) =~= Seq::<char>::empty());
                    assert(after[0] == self@[0]);
                }
            }
            i += 1;
        }
        assert(self@.subrange(0, i as int) =~= self@);
        r.append("] }");
        r
    }
}

/// What a field of the document information holds after trimming: the text
/// without whitespace around it, or nothing where no character is left.
pub open spec fn trimmed_field(field: Option<String>) -> Option<Seq<char>> {
    match field {
        Some(s) => if trimmed(s@).len() > 0 {
            Some(trimmed(s@))
        } else {
            None
        },
        None => None,
    }
}

/// The text of a field, if it holds one.
pub open spec fn field_text(field: Option<String>) -> Option<Seq<char>> {
    match field {
        Some(s) => Some(s@),
        None => None,
    }
}

fn trim_field(field: Option<String>) -> (r: Option<String>)
    ensures
        field_text(r) == trimmed_field(field),
{
    match field {
        Some(s) => {
            let t = trim_chars(&chars_of(s.as_str()));
            if t.len() > 0 {
                Some(string_of(&t))
            } else {
                None
            }
        },
        None => None,
    }
}

impl Default for Metadata {
    fn default() -> (r: Self)
        ensures
            r.title is None,
            r.author is None,
            r.subject is None,
            r.keywords is None,
    {
        Metadata { title: None, author: None, subject: None, keywords: None }
    }
}

impl Metadata {
    /// Whether no field is set.
    pub open spec fn empty(&self) -> bool {
        self.title is None && self.author is None && self.subject is None && self.keywords is None
    }

    /// Whether no field is set.
    pub fn is_empty(&self) -> (b: bool)
        ensures
            b == self.empty(),
    {
        self.title.is_none() && self.author.is_none() && self.subject.is_none()
            && self.keywords.is_none()
    }

    /// Document information from optional texts: each is trimmed, and one
    /// that holds only whitespace counts as not given.
    pub fn new(
        title: Option<String>,
        author: Option<String>,
        subject: Option<String>,
        keywords: Option<String>,
    ) -> (m: Metadata)
        ensures
            field_text(m.title) == trimmed_field(title),
            field_text(m.author) == trimmed_field(author),
            field_text(m.subject) == trimmed_field(subject),
            field_text(m.keywords) == trimmed_field(keywords),
    {
        Metadata {
            title: trim_field(title),
            author: trim_field(author),
            subject: trim_field(subject),
            keywords: trim_field(keywords),
        }
    }
}

/// The first input that equals the output, if any.
pub open spec fn output_among_inputs(inputs: Seq<PathBuf>, output: PathBuf) -> bool {
    exists|i: int| 0 <= i < inputs.len() && paths_equal(#[trigger] inputs[i], output)
}

impl Config {
    /// What is wrong with the configuration, if anything: the first of the
    /// rules that it breaks.
    pub open spec fn fault(&self) -> Option<Seq<char>> {
        if self.inputs@.len() == 0 {
            Some("No input files specified"@)
        } else if self.verbose && self.quiet {
            Some("Cannot use both --verbose and --quiet"@)
        } else if self.jobs == Some(0usize) {
            Some("Number of jobs must be at least 1"@)
        } else if output_among_inputs(self.inputs@, self.output) {
            Some("Output file cannot be the same as an input file: "@ + path_text(self.output))
        } else {
            None
        }
    }

    /// The inputs, in merge order.
    pub fn inputs(&self) -> (r: &[PathBuf])
        ensures
            r@ == self.inputs@,
    {
        self.inputs.as_slice()
    }

    /// Checks the configuration: there are inputs, verbose and quiet are not
    /// both set, the number of jobs is not zero, and the output is none of
    /// the inputs.
    pub fn validate(&self) -> (r: Result<(), PdfCatError>)
        ensures
            match r {
                Ok(()) => self.fault() is None,
                Err(e) => e matches PdfCatError::Other { message } && self.fault() == Some(
                    message@,
                ),
            },
    {
        if self.inputs.len() == 0 {
            return Err(PdfCatError::other("No input files specified"));
        }
        if self.verbose && self.quiet {
            return Err(PdfCatError::other("Cannot use both --verbose and --quiet"));
        }
        match self.jobs {
            Some(jobs) => {
                if jobs == 0 {
                    return Err(PdfCatError::other("Number of jobs must be at least 1"));
                }
            },
            None => {},
        }
        let mut i: usize = 0;
        while i < self.inputs.len()
            invariant
                i <= self.inputs.len(),
                self.inputs@.len() != 0,
                !(self.verbose && self.quiet),
                self.jobs != Some(0usize),
                forall|j: int| 0 <= j < i ==> !paths_equal(#[trigger] self.inputs@[j], self.output),
            decreases self.inputs.len() - i,
        {
            if path_eq(&self.inputs[i], &self.output) {
                assert(paths_equal(self.inputs@[i as int], self.output));
                let shown = path_display(&self.output);
                let message = concat(
                    "Output file cannot be the same as an input file: ",
                    shown.as_str(),
                );
                return Err(PdfCatError::Other { message });
            }
            i += 1;
        }
        Ok(())
    }

    /// The number of parallel jobs: what was configured, or else the number
    /// that the machine offers, or 1 where that is unknown.
    pub fn effective_jobs(&self, available: Option<usize>) -> (n: usize)
        ensures
            n == match self.jobs {
                Some(jobs) => jobs,
                None => match available {
                    Some(a) => a,
                    None => 1,
                },
            },
    {
        match self.jobs {
            Some(jobs) => jobs,
            None => match available {
                Some(a) => a,
                None => 1,
            },
        }
    }

    /// Whether output is shown: always in a dry run, else unless quiet.
    pub fn should_print(&self) -> (b: bool)
        ensures
            b == (!self.quiet || self.dry_run),
    {
        !self.quiet || self.dry_run
    }
}

} // verus!
