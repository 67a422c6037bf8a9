//! Document information: the fields of the `Info` dictionary and the date
//! stamp.

use crate::config::{field_text, Metadata};
use crate::document::{objects_without, resolve, Document, DocumentView};
use crate::error::PdfCatError;
use crate::object::{
    has_name, lookup, name, with_entry, without_entry, Dictionary, Object, ObjectId, StringFormat,
    Value,
};
use crate::text::{padded, push_padded};
use crate::time::{duration_secs, nanos_of};
use std::time::{Duration, SystemTime};
use vstd::prelude::*;
use vstd::string::*;
use vstd::utf8::{decode_utf8, encode_utf8, valid_utf8};

verus! {

#[verifier::external_type_specification]
#[verifier::external_body]
pub struct ExSystemTime(std::time::SystemTime);

/// The span from the start of 1970 to a point in time, in nanoseconds;
/// `None` for a point before that.
pub uninterp spec fn since_epoch(t: SystemTime) -> Option<nat>;

/// The whole seconds from the start of 1970 to a point in time; 0 for a
/// point before that.
pub open spec fn seconds_since_epoch(t: SystemTime) -> nat {
    match since_epoch(t) {
        Some(nanos) => nanos / 1_000_000_000,
        None => 0,
    }
}

/// `SystemTime::now`: the time of the system clock. Nothing is stated of it.
#[verifier::external_body]
fn now() -> (t: SystemTime) {
    SystemTime::now()
}

/// `SystemTime::duration_since` the epoch: the span from the start of 1970
/// to the time, nothing where the time lies before it.
#[verifier::external_body]
fn duration_since_epoch(t: &SystemTime) -> (r: Option<Duration>)
    ensures
        match r {
            Some(d) => since_epoch(*t) == Some(nanos_of(d)),
            None => since_epoch(*t) is None,
        },
{
    t.duration_since(std::time::UNIX_EPOCH).ok()
}

/// The whole seconds from the start of 1970 to the time, 0 where the time
/// lies before it.
fn unix_seconds(t: &SystemTime) -> (secs: u64)
    ensures
        secs == seconds_since_epoch(*t),
{
    match duration_since_epoch(t) {
        Some(d) => duration_secs(&d),
        None => 0,
    }
}

/// The current time in whole seconds since the start of 1970.
pub fn current_seconds() -> (secs: u64) {
    let time = now();
    unix_seconds(&time)
}

/// `String::from_utf8`: the text that the bytes encode, `None` where they
/// are no valid UTF-8.
#[verifier::external_body]
fn utf8_text(bytes: &Vec<u8>) -> (r: Option<String>)
    ensures
        match r {
            Some(s) => valid_utf8(bytes@) && s@ == decode_utf8(bytes@),
            None => !valid_utf8(bytes@),
        },
{
    String::from_utf8(bytes.clone()).ok()
}

/// The year that the date stamp shows: years of 31 556 926 seconds from
/// 1970.
pub open spec fn stamp_year(secs: nat) -> nat {
    1970 + secs / 31_556_926
}

/// The month that the date stamp shows: months of 2 629 743 seconds,
/// at most 12.
pub open spec fn stamp_month(secs: nat) -> nat {
    let m = (secs % 31_556_926) / 2_629_743;
    1 + if m < 11 {
        m
    } else {
        11
    }
}

/// The day that the date stamp shows: days of 86 400 seconds, at most 31.
pub open spec fn stamp_day(secs: nat) -> nat {
    let d = ((secs % 31_556_926) % 2_629_743) / 86_400;
    1 + if d < 30 {
        d
    } else {
        30
    }
}

/// The seconds into the day that the date stamp shows.
pub open spec fn stamp_time(secs: nat) -> nat {
    ((secs % 31_556_926) % 2_629_743) % 86_400
}

/// The date stamp `D:YYYYMMDDHHMMSSZ` for a number of seconds since the
/// start of 1970, with years, months and days of fixed length.
pub open spec fn pdf_date(secs: nat) -> Seq<char> {
    "D:"@ + padded(stamp_year(secs), 4) + padded(stamp_month(secs), 2) + padded(
        stamp_day(secs),
        2,
    ) + padded(stamp_time(secs) / 3_600, 2) + padded((stamp_time(secs) % 3_600) / 60, 2) + padded(
        stamp_time(secs) % 60,
        2,
    ) + "Z"@
}

/// The date stamp for a number of seconds since the start of 1970.
pub fn format_pdf_date_seconds(secs: u64) -> (r: String)
    ensures
        r@ == pdf_date(secs as nat),
{
    let year: u64 = 1970 + secs / 31_556_926;
    let remainder: u64 = secs % 31_556_926;
    let m: u64 = remainder / 2_629_743;
    let month: u64 = 1 + if m < 11 {
        m
    } else {
        11
    };
    let day_remainder: u64 = remainder % 2_629_743;
    let d: u64 = day_remainder / 86_400;
    let day: u64 = 1 + if d < 30 {
        d
    } else {
        30
    };
    let time_remainder: u64 = day_remainder % 86_400;
    let hour: u64 = time_remainder / 3_600;
    let min: u64 = (time_remainder % 3_600) / 60;
    let sec: u64 = time_remainder % 60;
    let mut r = "D:".to_owned();
    push_padded(&mut r, year, 4);
    push_padded(&mut r, month, 2);
    push_padded(&mut r, day, 2);
    push_padded(&mut r, hour, 2);
    push_padded(&mut r, min, 2);
    push_padded(&mut r, sec, 2);
    r.append("Z");
    assert(r@ =~= pdf_date(secs as nat));
    r
}

/// The date stamp for a point in time.
pub fn format_pdf_date(time: SystemTime) -> (r: String)
    ensures
        r@ == pdf_date(seconds_since_epoch(time)),
{
    format_pdf_date_seconds(unix_seconds(&time))
}

/// The identifier that the trailer's `Info` entry refers to.
pub open spec fn info_ref(doc: DocumentView) -> Option<ObjectId> {
    match lookup(doc.trailer, name("Info")) {
        Some(Value::Reference(r)) => Some(r),
        _ => None,
    }
}

/// Whether the information dictionary can be written: the trailer refers to
/// one, or an identifier is left for a new one.
pub open spec fn can_set_metadata(doc: DocumentView) -> bool {
    info_ref(doc) is Some || doc.max_id < u32::MAX
}

/// The identifier of the information dictionary: what the trailer refers
/// to, or else the next fresh identifier.
pub open spec fn info_id(doc: DocumentView) -> ObjectId {
    match info_ref(doc) {
        Some(r) => r,
        None => ((doc.max_id + 1) as u32, 0u16),
    }
}

/// The document with an `Info` reference in its trailer: as it is where it
/// has one, else with a reference to a fresh identifier.
pub open spec fn with_info_ref(doc: DocumentView) -> DocumentView {
    match info_ref(doc) {
        Some(_) => doc,
        None => DocumentView {
            trailer: with_entry(doc.trailer, name("Info"), Value::Reference(info_id(doc))),
            max_id: info_id(doc).0,
            ..doc
        },
    }
}

/// Where the information dictionary is stored: where the `Info` reference
/// resolves to a dictionary, there; else under the identifier itself.
pub open spec fn info_place(doc: DocumentView) -> ObjectId {
    match doc.get(info_id(doc)) {
        Some(Value::Dict(_)) => resolve(doc.objects, info_id(doc))->0,
        _ => info_id(doc),
    }
}

/// The information dictionary as it is before writing: empty where there is
/// none.
pub open spec fn info_before(doc: DocumentView) -> Seq<(Seq<u8>, Value)> {
    match doc.get(info_id(doc)) {
        Some(Value::Dict(d)) => d,
        _ => Seq::empty(),
    }
}

/// A literal string object of a text.
pub open spec fn text_value(text: Seq<char>) -> Value {
    Value::Str(encode_utf8(text), StringFormat::Literal)
}

/// `d` with `field` stored under `key` where the field is set.
pub open spec fn with_field(d: Seq<(Seq<u8>, Value)>, key: Seq<u8>, field: Option<String>) -> Seq<
    (Seq<u8>, Value),
> {
    match field {
        Some(text) => with_entry(d, key, text_value(text@)),
        None => d,
    }
}

/// The information dictionary after writing: the fields that are set, then
/// creator and producer, then the two dates.
pub open spec fn info_after(d: Seq<(Seq<u8>, Value)>, m: Metadata, date: Seq<char>) -> Seq<
    (Seq<u8>, Value),
> {
    let fields = with_field(
        with_field(
            with_field(with_field(d, name("Title"), m.title), name("Author"), m.author),
            name("Subject"),
            m.subject,
        ),
        name("Keywords"),
        m.keywords,
    );
    with_entry(
        with_entry(
            with_entry(
                with_entry(fields, name("Creator"), text_value("pdfcat"@)),
                name("Producer"),
                text_value("pdfcat"@),
            ),
            name("CreationDate"),
            text_value(date),
        ),
        name("ModDate"),
        text_value(date),
    )
}

/// The document with the information written and stamped with `date`.
pub open spec fn with_metadata(doc: DocumentView, m: Metadata, date: Seq<char>) -> DocumentView {
    with_info_ref(doc).with_object(
        info_place(doc),
        Value::Dict(info_after(info_before(doc), m, date)),
    )
}

/// The text of a string object stored under `key`, where it is valid UTF-8.
pub open spec fn string_field(d: Seq<(Seq<u8>, Value)>, key: Seq<u8>) -> Option<Seq<char>> {
    match lookup(d, key) {
        Some(Value::Str(bytes, _)) => if valid_utf8(bytes) {
            Some(decode_utf8(bytes))
        } else {
            None
        },
        _ => None,
    }
}

/// The information dictionary that the trailer refers to.
pub open spec fn info_dict(doc: DocumentView) -> Option<Seq<(Seq<u8>, Value)>> {
    match info_ref(doc) {
        Some(r) => match doc.get(r) {
            Some(Value::Dict(d)) => Some(d),
            _ => None,
        },
        None => None,
    }
}

/// What a field holds after trimming.
pub open spec fn trimmed_text(text: Option<Seq<char>>) -> Option<Seq<char>> {
    match text {
        Some(t) => if crate::text::trimmed(t).len() > 0 {
            Some(crate::text::trimmed(t))
        } else {
            None
        },
        None => None,
    }
}

/// The document without its information: the object that the trailer's
/// `Info` entry refers to is deleted, and the entry with it.
pub open spec fn without_metadata(doc: DocumentView) -> DocumentView {
    match info_ref(doc) {
        Some(r) => DocumentView {
            objects: objects_without(doc.objects, r),
            trailer: without_entry(doc.trailer, name("Info")),
            ..doc
        },
        None => doc,
    }
}

/// Manager for the document information.
#[derive(Debug, Clone, Copy)]
pub struct MetadataManager;

impl Default for MetadataManager {
    fn default() -> (r: Self) {
        MetadataManager
    }
}

impl MetadataManager {
    /// A metadata manager.
    pub fn new() -> (r: Self) {
        MetadataManager
    }

    /// Writes the fields that are set into the information dictionary, and
    /// stamps it with this library's name and the current time.
    ///
    /// Does nothing where no field is set. Fails with `MetadataFailed`, and
    /// changes nothing, where a new dictionary is needed and no identifier
    /// is left.
    pub fn set_metadata(&self, doc: &mut Document, metadata: &Metadata) -> (r: Result<
        (),
        PdfCatError,
    >)
        ensures
            match r {
                Ok(()) => if metadata.empty() {
                    final(doc)@ == old(doc)@
                } else {
                    &&& can_set_metadata(old(doc)@)
                    &&& exists|secs: u64|
                        final(doc)@ == with_metadata(
                            old(doc)@,
                            *metadata,
                            #[trigger] pdf_date(secs as nat),
                        )
                },
                Err(e) => {
                    &&& e matches PdfCatError::MetadataFailed { .. }
                    &&& !metadata.empty()
                    &&& !can_set_metadata(old(doc)@)
                    &&& final(doc)@ == old(doc)@
                },
            },
    {
        if metadata.is_empty() {
            return Ok(());
        }
        let secs = current_seconds();
        let date = format_pdf_date_seconds(secs);
        self.set_metadata_dated(doc, metadata, date.as_str())
    }

    /// Writes the fields that are set into the information dictionary, and
    /// stamps it with this library's name and `date`.
    ///
    /// Does nothing where no field is set. Fails with `MetadataFailed`, and
    /// changes nothing, where a new dictionary is needed and no identifier
    /// is left.
    pub fn set_metadata_dated(&self, doc: &mut Document, metadata: &Metadata, date: &str) -> (r:
        Result<(), PdfCatError>)
        ensures
            match r {
                Ok(()) => if metadata.empty() {
                    final(doc)@ == old(doc)@
                } else {
                    &&& can_set_metadata(old(doc)@)
                    &&& final(doc)@ == with_metadata(old(doc)@, *metadata, date@)
                },
                Err(e) => {
                    &&& e matches PdfCatError::MetadataFailed { .. }
                    &&& !metadata.empty()
                    &&& !can_set_metadata(old(doc)@)
                    &&& final(doc)@ == old(doc)@
                },
            },
    {
        if metadata.is_empty() {
            return Ok(());
        }
        let ghost before = doc@;
        let existing: Option<ObjectId> = match doc.trailer().get("Info".as_bytes()) {
            Some(o) => o.as_reference(),
            None => None,
        };
        let (place, mut dict) = match existing {
            Some(id) => match doc.resolve_id(id) {
                Some(end) => match doc.get_direct(end) {
                    Some(o) => match o.as_dict() {
                        Some(d) => (end, d.clone()),
                        None => (id, Dictionary::new()),
                    },
                    None => (id, Dictionary::new()),
                },
                None => (id, Dictionary::new()),
            },
            None => {
                let id = match doc.new_object_id() {
                    Some(id) => id,
                    None => {
                        return Err(
                            PdfCatError::MetadataFailed {
                                reason: "Failed to create Info dictionary".to_owned(),
                            },
                        );
                    },
                };
                doc.trailer_set("Info".as_bytes_vec(), Object::Reference(id));
                (id, Dictionary::new())
            },
        };
        assert(place == info_place(before));
        assert(dict@ == info_before(before));
        assert(doc@ == with_info_ref(before));
        match &metadata.title {
            Some(text) => {
                dict.set("Title".as_bytes_vec(), Object::string_literal(text.as_str()));
            },
            None => {},
        }
        match &metadata.author {
            Some(text) => {
                dict.set("Author".as_bytes_vec(), Object::string_literal(text.as_str()));
            },
            None => {},
        }
        match &metadata.subject {
            Some(text) => {
                dict.set("Subject".as_bytes_vec(), Object::string_literal(text.as_str()));
            },
            None => {},
        }
        match &metadata.keywords {
            Some(text) => {
                dict.set("Keywords".as_bytes_vec(), Object::string_literal(text.as_str()));
            },
            None => {},
        }
        dict.set("Creator".as_bytes_vec(), Object::string_literal("pdfcat"));
        dict.set("Producer".as_bytes_vec(), Object::string_literal("pdfcat"));
        dict.set("CreationDate".as_bytes_vec(), Object::string_literal(date));
        dict.set("ModDate".as_bytes_vec(), Object::string_literal(date));
        doc.set_object(place, Object::Dictionary(dict));
        Ok(())
    }

    /// The fields of the information dictionary that hold text, trimmed.
    pub fn get_metadata(&self, doc: &Document) -> (m: Metadata)
        ensures
            match info_dict(doc@) {
                Some(d) => {
                    &&& field_text(m.title) == trimmed_text(string_field(d, name("Title")))
                    &&& field_text(m.author) == trimmed_text(string_field(d, name("Author")))
                    &&& field_text(m.subject) == trimmed_text(string_field(d, name("Subject")))
                    &&& field_text(m.keywords) == trimmed_text(
                        string_field(d, name("Keywords")),
                    )
                },
                None => m.empty(),
            },
    {
        let info = match doc.trailer().get("Info".as_bytes()) {
            Some(o) => match o.as_reference() {
                Some(id) => match doc.get_dictionary(id) {
                    Some(d) => d,
                    None => {
                        return Metadata::default();
                    },
                },
                None => {
                    return Metadata::default();
                },
            },
            None => {
                return Metadata::default();
            },
        };
        let title = Self::get_string_field(info, "Title".as_bytes());
        let author = Self::get_string_field(info, "Author".as_bytes());
        let subject = Self::get_string_field(info, "Subject".as_bytes());
        let keywords = Self::get_string_field(info, "Keywords".as_bytes());
        Metadata::new(title, author, subject, keywords)
    }

    /// The text of the string object stored under `key`.
    pub fn get_string_field(dict: &Dictionary, key: &[u8]) -> (r: Option<String>)
        ensures
            field_text(r) == string_field(dict@, key@),
    {
        match dict.get(key) {
            Some(o) => match o {
                Object::String(bytes, _) => utf8_text(bytes),
                _ => None,
            },
            None => None,
        }
    }

    /// Deletes the information dictionary that the trailer refers to, and
    /// the reference with it.
    pub fn clear_metadata(&self, doc: &mut Document) -> (r: Result<(), PdfCatError>)
        ensures
            r is Ok,
            final(doc)@ == without_metadata(old(doc)@),
    {
        let existing: Option<ObjectId> = match doc.trailer().get("Info".as_bytes()) {
            Some(o) => o.as_reference(),
            None => None,
        };
        match existing {
            Some(id) => {
                let _ = doc.remove_object(id);
                let _ = doc.trailer_remove("Info".as_bytes());
            },
            None => {},
        }
        Ok(())
    }

    /// Whether the trailer has an `Info` entry.
    pub fn has_metadata(&self, doc: &Document) -> (b: bool)
        ensures
            b == has_name(doc@.trailer, name("Info")),
    {
        doc.trailer().has("Info".as_bytes())
    }
}

} // verus!
