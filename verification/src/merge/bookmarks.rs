//! Outlines: one bookmark per merged file, linked into a chain under one
//! outline root that the catalog refers to.

use crate::document::{has_id, lemma_push_largest, objects_with, Document, DocumentView};
use crate::error::PdfCatError;
use crate::object::{
    array_view, has_name, name, with_entry, without_entry, Dictionary, Object, ObjectId, StringFormat, Value,
};
use crate::paths::{file_name_text, path_file_name, path_from_text};
use std::path::PathBuf;
use vstd::prelude::*;
use vstd::string::*;

verus! {

/// The title of the bookmark of a file: its file name, or `Unknown` where
/// the path has none that is text.
pub open spec fn title_of(path: PathBuf) -> Seq<char> {
    match path_file_name(path) {
        Some(t) => t,
        None => "Unknown"@,
    }
}

/// How many pages lie between the bookmarks of two files that follow each
/// other: the pages shared out evenly over the files.
pub open spec fn pages_per_file(pages: nat, files: nat) -> nat {
    if files > 1 {
        pages / files
    } else {
        pages
    }
}

/// The titled destinations of the bookmarks for `paths`: file `i` gets the
/// page at position `i * pages_per_file`.
pub open spec fn bookmark_targets(pages: Seq<ObjectId>, paths: Seq<PathBuf>) -> Seq<
    (Seq<char>, ObjectId),
> {
    Seq::new(
        paths.len(),
        |i: int|
            (title_of(paths[i]), pages[i * pages_per_file(pages.len(), paths.len())]),
    )
}

/// The titles and pages of a list of bookmarks.
pub open spec fn titled(items: Seq<(String, ObjectId)>) -> Seq<(Seq<char>, ObjectId)> {
    Seq::new(items.len(), |i: int| (items[i].0@, items[i].1))
}

/// The identifier of the outline root that is added to `doc`.
pub open spec fn outline_root_id(doc: DocumentView) -> ObjectId {
    ((doc.max_id + 1) as u32, 0u16)
}

/// The identifier of outline item `i` that is added to `doc`.
pub open spec fn outline_item_id(doc: DocumentView, i: int) -> ObjectId {
    ((doc.max_id + 2 + i) as u32, 0u16)
}

/// The destination of a bookmark: the page, shown at its place and zoom.
pub open spec fn destination(page: ObjectId) -> Value {
    Value::Array(
        seq![
            Value::Reference(page),
            Value::Name(name("XYZ")),
            Value::Null,
            Value::Null,
            Value::Null,
        ],
    )
}

/// Outline item `i` of `count`: title, parent and destination, then the
/// links to the item before and to the item after, where there is one.
pub open spec fn outline_item(
    doc: DocumentView,
    title: Seq<char>,
    page: ObjectId,
    i: int,
    count: int,
) -> Seq<(Seq<u8>, Value)> {
    let base = with_entry(
        with_entry(
            with_entry(
                Seq::empty(),
                name("Title"),
                Value::Str(vstd::utf8::encode_utf8(title), StringFormat::Literal),
            ),
            name("Parent"),
            Value::Reference(outline_root_id(doc)),
        ),
        name("Dest"),
        destination(page),
    );
    let linked = if i > 0 {
        with_entry(base, name("Prev"), Value::Reference(outline_item_id(doc, i - 1)))
    } else {
        base
    };
    if i < count - 1 {
        with_entry(linked, name("Next"), Value::Reference(outline_item_id(doc, i + 1)))
    } else {
        linked
    }
}

/// The outline root over `count` items: their number, and the first and the
/// last of them where there is any.
pub open spec fn outline_root(doc: DocumentView, count: int) -> Seq<(Seq<u8>, Value)> {
    let base = with_entry(
        with_entry(Seq::empty(), name("Type"), Value::Name(name("Outlines"))),
        name("Count"),
        Value::Integer(count as i64),
    );
    if count > 0 {
        with_entry(
            with_entry(base, name("First"), Value::Reference(outline_item_id(doc, 0))),
            name("Last"),
            Value::Reference(outline_item_id(doc, count - 1)),
        )
    } else {
        base
    }
}

/// The objects that an outline adds: the root, then the items in order.
pub open spec fn outline_objects(doc: DocumentView, items: Seq<(Seq<char>, ObjectId)>) -> Seq<
    (ObjectId, Value),
> {
    Seq::new(
        (items.len() + 1) as nat,
        |k: int|
            if k == 0 {
                (outline_root_id(doc), Value::Dict(outline_root(doc, items.len() as int)))
            } else {
                (
                    outline_item_id(doc, k - 1),
                    Value::Dict(
                        outline_item(doc, items[k - 1].0, items[k - 1].1, k - 1, items.len() as int),
                    ),
                )
            },
    )
}

/// Whether an outline of `count` items can be added: the document has a
/// catalog, and the identifiers above its watermark suffice.
pub open spec fn can_add_outline(doc: DocumentView, count: nat) -> bool {
    &&& doc.catalog() is Some
    &&& doc.max_id + 1 + count <= u32::MAX
}

/// The document with the outline for `items` added: the catalog refers to
/// the outline root under `Outlines`, and the root and the items follow the
/// objects that were there.
pub open spec fn with_outline(doc: DocumentView, items: Seq<(Seq<char>, ObjectId)>) -> DocumentView {
    DocumentView {
        objects: objects_with(
            doc.objects,
            doc.catalog_id()->0,
            Value::Dict(
                with_entry(
                    doc.catalog()->0,
                    name("Outlines"),
                    Value::Reference(outline_root_id(doc)),
                ),
            ),
        ) + outline_objects(doc, items),
        max_id: (doc.max_id + 1 + items.len()) as u32,
        ..doc
    }
}

/// Whether the catalog has an `Outlines` entry.
pub open spec fn has_outlines(doc: DocumentView) -> bool {
    match doc.catalog() {
        Some(cat) => has_name(cat, name("Outlines")),
        None => false,
    }
}

/// The document with the `Outlines` entry taken out of the catalog.
pub open spec fn without_outlines(doc: DocumentView) -> DocumentView {
    match doc.catalog() {
        Some(cat) => doc.with_object(
            doc.catalog_id()->0,
            Value::Dict(without_entry(cat, name("Outlines"))),
        ),
        None => doc,
    }
}

/// Sharing the pages out over the files never points past the last page.
pub proof fn lemma_target_in_range(pages: nat, files: nat, i: nat)
    requires
        pages > 0,
        i < files,
    ensures
        i * pages_per_file(pages, files) < pages,
{
    if files > 1 {
        let share = pages / files;
        assert(files * share <= pages) by (nonlinear_arith)
            requires
                share == pages / files,
                files > 0,
        ;
        assert(i * share < pages) by (nonlinear_arith)
            requires
                files * share <= pages,
                i < files,
                pages > 0,
                share >= 0,
        ;
    } else {
        assert(i * pages == 0) by (nonlinear_arith)
            requires
                i == 0,
        ;
    }
}

/// Manager for the outline of a document.
#[derive(Debug, Clone, Copy)]
pub struct BookmarkManager;

impl Default for BookmarkManager {
    fn default() -> (r: Self) {
        BookmarkManager
    }
}

impl BookmarkManager {
    /// A bookmark manager.
    pub fn new() -> (r: Self) {
        BookmarkManager
    }

    /// Adds one bookmark for each file, titled by the file's name. File `i`
    /// of `n` points at the page at position `i * (pages / n)`.
    ///
    /// Does nothing where there are no files or no pages. Fails with
    /// `BookmarkFailed`, and changes nothing, where the document has no
    /// catalog or no identifiers are left.
    pub fn add_bookmarks_for_files(&self, doc: &mut Document, file_paths: &Vec<PathBuf>) -> (r:
        Result<(), PdfCatError>)
        ensures
            match r {
                Ok(()) => if file_paths@.len() == 0 || old(doc)@.pages().len() == 0 {
                    final(doc)@ == old(doc)@
                } else {
                    &&& can_add_outline(old(doc)@, file_paths@.len())
                    &&& final(doc)@ == with_outline(
                        old(doc)@,
                        bookmark_targets(old(doc)@.pages(), file_paths@),
                    )
                },
                Err(e) => {
                    &&& e matches PdfCatError::BookmarkFailed { .. }
                    &&& file_paths@.len() > 0
                    &&& old(doc)@.pages().len() > 0
                    &&& !can_add_outline(old(doc)@, file_paths@.len())
                    &&& final(doc)@ == old(doc)@
                },
            },
    {
        if file_paths.len() == 0 {
            return Ok(());
        }
        let pages = doc.get_pages();
        if pages.len() == 0 {
            return Ok(());
        }
        let share: usize = if file_paths.len() > 1 {
            pages.len() / file_paths.len()
        } else {
            pages.len()
        };
        let mut outline_items: Vec<(String, ObjectId)> = Vec::new();
        let mut i: usize = 0;
        while i < file_paths.len()
            invariant
                i <= file_paths.len(),
                pages@.len() > 0,
                share == pages_per_file(pages@.len(), file_paths@.len()),
                outline_items@.len() == i,
                forall|j: int|
                    0 <= j < i ==> (#[trigger] outline_items@[j]).0@ == title_of(file_paths@[j])
                        && outline_items@[j].1 == pages@[j * pages_per_file(
                        pages@.len(),
                        file_paths@.len(),
                    )],
            decreases file_paths.len() - i,
        {
            proof {
                lemma_target_in_range(pages@.len(), file_paths@.len(), i as nat);
                assert(i * share == (i as nat) * pages_per_file(
                    pages@.len(),
                    file_paths@.len(),
                ));
                assert(i * share < pages.len());
            }
            let page_idx: usize = i * share;
            let title = match file_name_text(&file_paths[i]) {
                Some(t) => t,
                None => "Unknown".to_owned(),
            };
            outline_items.push((title, pages[page_idx]));
            i += 1;
        }
        assert(titled(outline_items@) =~= bookmark_targets(pages@, file_paths@));
        self.create_outline_structure(doc, &outline_items)
    }

    /// Adds an outline with one item for each of `items`, in order, and
    /// makes the catalog refer to it.
    ///
    /// Fails with `BookmarkFailed`, and changes nothing, where the document
    /// has no catalog or no identifiers are left.
    pub fn create_outline_structure(
        &self,
        doc: &mut Document,
        items: &Vec<(String, ObjectId)>,
    ) -> (r: Result<(), PdfCatError>)
        ensures
            match r {
                Ok(()) => {
                    &&& can_add_outline(old(doc)@, items@.len())
                    &&& final(doc)@ == with_outline(old(doc)@, titled(items@))
                },
                Err(e) => {
                    &&& e matches PdfCatError::BookmarkFailed { .. }
                    &&& !can_add_outline(old(doc)@, items@.len())
                    &&& final(doc)@ == old(doc)@
                },
            },
    {
        let ghost before = doc@;
        let ghost targets = titled(items@);
        let catalog_id = match doc.catalog_id() {
            Some(id) => id,
            None => {
                return Err(no_catalog());
            },
        };
        let mut catalog = match doc.catalog() {
            Some(cat) => cat.clone(),
            None => {
                return Err(no_catalog());
            },
        };
        let base: u32 = doc.max_id();
        let count: usize = items.len();
        if base == u32::MAX || ((u32::MAX - base - 1) as u64) < count as u64 {
            return Err(
                PdfCatError::BookmarkFailed {
                    path: path_from_text("document"),
                    reason: "No identifier left".to_owned(),
                },
            );
        }
        let outline_id: ObjectId = (base + 1, 0);
        doc.is_well_formed();
        catalog.set("Outlines".as_bytes_vec(), Object::Reference(outline_id));
        doc.set_object(catalog_id, Object::Dictionary(catalog));
        let ghost with_catalog = doc@.objects;
        proof {
            assert(has_id(before.objects, catalog_id));
            assert(doc@.max_id == before.max_id);
        }

        let mut root = Dictionary::new();
        root.set("Type".as_bytes_vec(), Object::name("Outlines"));
        root.set("Count".as_bytes_vec(), Object::Integer(count as i64));
        if count > 0 {
            root.set("First".as_bytes_vec(), Object::Reference((base + 2, 0)));
            root.set("Last".as_bytes_vec(), Object::Reference((base + 1 + count as u32, 0)));
        }
        doc.is_well_formed();
        proof {
            lemma_push_largest(doc@.objects, outline_id, Value::Dict(root@));
        }
        doc.set_object(outline_id, Object::Dictionary(root));
        assert(doc@.objects =~= with_catalog + outline_objects(before, targets).subrange(0, 1));

        let mut i: usize = 0;
        while i < count
            invariant
                i <= count,
                count == items@.len(),
                base == before.max_id,
                base + 1 + count <= u32::MAX,
                outline_id == outline_root_id(before),
                targets == titled(items@),
                doc@.max_id == base + 1 + i,
                doc@.trailer == before.trailer,
                doc@.version == before.version,
                doc@.objects == with_catalog + outline_objects(before, targets).subrange(
                    0,
                    1 + i,
                ),
            decreases count - i,
        {
            let item_id: ObjectId = (base + 2 + i as u32, 0);
            let mut dest: Vec<Object> = Vec::new();
            dest.push(Object::Reference(items[i].1));
            dest.push(Object::name("XYZ"));
            dest.push(Object::Null);
            dest.push(Object::Null);
            dest.push(Object::Null);
            assert(array_view(dest) =~= seq![
                Value::Reference(items@[i as int].1),
                Value::Name(name("XYZ")),
                Value::Null,
                Value::Null,
                Value::Null,
            ]);
            let dest_object = Object::Array(dest);
            let mut item = Dictionary::new();
            item.set("Title".as_bytes_vec(), Object::string_literal(items[i].0.as_str()));
            item.set("Parent".as_bytes_vec(), Object::Reference(outline_id));
            item.set("Dest".as_bytes_vec(), dest_object);
            if i > 0 {
                item.set("Prev".as_bytes_vec(), Object::Reference((base + 1 + i as u32, 0)));
            }
            if i < count - 1 {
                item.set("Next".as_bytes_vec(), Object::Reference((base + 3 + i as u32, 0)));
            }
            assert(item@ == outline_item(
                before,
                targets[i as int].0,
                targets[i as int].1,
                i as int,
                count as int,
            ));
            doc.is_well_formed();
            proof {
                lemma_push_largest(doc@.objects, item_id, Value::Dict(item@));
            }
            let ghost prior = doc@.objects;
            doc.set_object(item_id, Object::Dictionary(item));
            assert(doc@.objects =~= with_catalog + outline_objects(before, targets).subrange(
                0,
                2 + i,
            ));
            i += 1;
        }
        assert(outline_objects(before, targets).subrange(0, 1 + count) =~= outline_objects(
            before,
            targets,
        ));
        Ok(())
    }

    /// Whether the catalog of the document has an `Outlines` entry.
    pub fn has_bookmarks(&self, doc: &Document) -> (b: bool)
        ensures
            b == has_outlines(doc@),
    {
        match doc.catalog() {
            Some(cat) => cat.has("Outlines".as_bytes()),
            None => false,
        }
    }

    /// Takes the `Outlines` entry out of the catalog. The objects of the
    /// outline stay where they are.
    pub fn remove_bookmarks(&self, doc: &mut Document) -> (r: Result<(), PdfCatError>)
        ensures
            r is Ok,
            final(doc)@ == without_outlines(old(doc)@),
    {
        let catalog_id = match doc.catalog_id() {
            Some(id) => id,
            None => {
                return Ok(());
            },
        };
        let mut catalog = match doc.catalog() {
            Some(cat) => cat.clone(),
            None => {
                return Ok(());
            },
        };
        let _ = catalog.remove("Outlines".as_bytes());
        doc.set_object(catalog_id, Object::Dictionary(catalog));
        Ok(())
    }
}

/// The error for a document without a catalog.
fn no_catalog() -> (e: PdfCatError)
    ensures
        e matches PdfCatError::BookmarkFailed { .. },
{
    PdfCatError::BookmarkFailed {
        path: path_from_text("document"),
        reason: "Failed to get catalog".to_owned(),
    }
}

} // verus!
