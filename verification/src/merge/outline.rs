//! The outline of a merged document: a root and a chain of items, one for
//! each file, each pointing at a page of the result.

use crate::config::{CompressionLevel, Config};
use crate::document::{
    has_id, lemma_index_unique, lemma_objects_with, object_at, objects_with, DocumentView,
};
use crate::merge::bookmarks::{
    bookmark_targets, can_add_outline, destination, lemma_target_in_range, outline_item,
    outline_item_id, outline_objects, outline_root, outline_root_id, pages_per_file, title_of,
    with_outline,
};
use crate::merge::closure::{lemma_object_at_position, sound};
use crate::merge::counting::{
    lemma_renumbered_lookup, lemma_renumbered_object, lemma_renumbered_pages,
};
use crate::merge::keeping::{
    combined_pages, law_renumbering_keeps_every_object, lemma_combined_order,
    lemma_finishing_keeps_pages,
};
use crate::merge::laws::{law_bookmarks_added_then_removed, lemma_outline_order};
use crate::merge::merger::{assembled, combined, merge_plan, range_items};
use crate::merge::paging::lemma_compressed_pages;
use crate::merge::renumber::{can_renumber, ids_of, renumbered, renumbered_id, renumbered_value};
use crate::names::lemma_outline_names_differ;
use crate::object::{
    lemma_with_entry, lookup, name, names_distinct, with_entry, ObjectId, StringFormat, Value,
};
use std::path::PathBuf;
use vstd::prelude::*;

verus! {

/// What an outline item holds: its title, its parent and its destination,
/// the item before it unless it is the first, and the item after it unless
/// it is the last.
pub proof fn law_outline_item_is_linked(
    doc: DocumentView,
    title: Seq<char>,
    page: ObjectId,
    i: int,
    count: int,
)
    ensures
        names_distinct(outline_item(doc, title, page, i, count)),
        lookup(outline_item(doc, title, page, i, count), name("Title")) == Some(
            Value::Str(vstd::utf8::encode_utf8(title), StringFormat::Literal),
        ),
        lookup(outline_item(doc, title, page, i, count), name("Parent")) == Some(
            Value::Reference(outline_root_id(doc)),
        ),
        lookup(outline_item(doc, title, page, i, count), name("Dest")) == Some(destination(page)),
        lookup(outline_item(doc, title, page, i, count), name("Prev")) == if i > 0 {
            Some(Value::Reference(outline_item_id(doc, i - 1)))
        } else {
            None
        },
        lookup(outline_item(doc, title, page, i, count), name("Next")) == if i < count - 1 {
            Some(Value::Reference(outline_item_id(doc, i + 1)))
        } else {
            None
        },
{
    lemma_outline_names_differ();
    let empty = Seq::<(Seq<u8>, Value)>::empty();
    let text = Value::Str(vstd::utf8::encode_utf8(title), StringFormat::Literal);
    let a = with_entry(empty, name("Title"), text);
    let b = with_entry(a, name("Parent"), Value::Reference(outline_root_id(doc)));
    let base = with_entry(b, name("Dest"), destination(page));
    lemma_with_entry(empty, name("Title"), text);
    lemma_with_entry(a, name("Parent"), Value::Reference(outline_root_id(doc)));
    lemma_with_entry(b, name("Dest"), destination(page));
    assert(lookup(empty, name("Prev")) is None);
    assert(lookup(empty, name("Next")) is None);
    let linked = if i > 0 {
        with_entry(base, name("Prev"), Value::Reference(outline_item_id(doc, i - 1)))
    } else {
        base
    };
    if i > 0 {
        lemma_with_entry(base, name("Prev"), Value::Reference(outline_item_id(doc, i - 1)));
    }
    if i < count - 1 {
        lemma_with_entry(linked, name("Next"), Value::Reference(outline_item_id(doc, i + 1)));
    }
}

/// What an outline root holds: the number of its items, and the first and
/// the last of them where there is any.
pub proof fn law_outline_root_is_linked(doc: DocumentView, count: int)
    ensures
        names_distinct(outline_root(doc, count)),
        lookup(outline_root(doc, count), name("Count")) == Some(Value::Integer(count as i64)),
        lookup(outline_root(doc, count), name("First")) == if count > 0 {
            Some(Value::Reference(outline_item_id(doc, 0)))
        } else {
            None
        },
        lookup(outline_root(doc, count), name("Last")) == if count > 0 {
            Some(Value::Reference(outline_item_id(doc, count - 1)))
        } else {
            None
        },
{
    lemma_outline_names_differ();
    let empty = Seq::<(Seq<u8>, Value)>::empty();
    let a = with_entry(empty, name("Type"), Value::Name(name("Outlines")));
    let base = with_entry(a, name("Count"), Value::Integer(count as i64));
    lemma_with_entry(empty, name("Type"), Value::Name(name("Outlines")));
    lemma_with_entry(a, name("Count"), Value::Integer(count as i64));
    assert(lookup(empty, name("First")) is None);
    assert(lookup(empty, name("Last")) is None);
    if count > 0 {
        let c = with_entry(base, name("First"), Value::Reference(outline_item_id(doc, 0)));
        lemma_with_entry(base, name("First"), Value::Reference(outline_item_id(doc, 0)));
        lemma_with_entry(c, name("Last"), Value::Reference(outline_item_id(doc, count - 1)));
    }
}

/// The identifier of the outline root in the document that a merge gives.
pub open spec fn merged_outline_root(
    sources: Seq<DocumentView>,
    files: Seq<PathBuf>,
    config: Config,
    date: Seq<char>,
) -> ObjectId {
    renumbered_id(
        ids_of(assembled(sources, files, config, date)->0.objects),
        1,
        outline_root_id(combined(sources, range_items(config.page_range), config.rotation)->0),
    )
}

/// The identifier of outline item `i` in the document that a merge gives.
pub open spec fn merged_outline_item(
    sources: Seq<DocumentView>,
    files: Seq<PathBuf>,
    config: Config,
    date: Seq<char>,
    i: int,
) -> ObjectId {
    renumbered_id(
        ids_of(assembled(sources, files, config, date)->0.objects),
        1,
        outline_item_id(combined(sources, range_items(config.page_range), config.rotation)->0, i),
    )
}

/// A destination with its page renumbered is the destination of the
/// renumbered page.
proof fn lemma_destination_renumbered(ids: Seq<ObjectId>, start: u32, page: ObjectId)
    ensures
        renumbered_value(ids, start, destination(page)) == destination(
            renumbered_id(ids, start, page),
        ),
{
    reveal_with_fuel(renumbered_value, 3);
    let before = destination(page)->Array_0;
    let after = renumbered_value(ids, start, destination(page))->Array_0;
    assert(before.len() == 5);
    assert(after =~= destination(renumbered_id(ids, start, page))->Array_0);
}

/// What is assembled in a merge with bookmarks that writes no information
/// and prunes nothing: the combined document with its outline. Its catalog
/// refers to the outline root, and the root and the items are stored in it
/// as the outline holds them.
proof fn lemma_outline_assembled(
    sources: Seq<DocumentView>,
    files: Seq<PathBuf>,
    config: Config,
    date: Seq<char>,
)
    requires
        forall|k: int|
            0 <= k < sources.len() ==> sound(#[trigger] sources[k]) && sources[k].kids() is Some,
        merge_plan(sources, files, config, date) is Some,
        config.bookmarks,
        config.metadata.empty(),
        config.compression != CompressionLevel::Maximum,
        combined_pages(sources, range_items(config.page_range), config.rotation).len() > 0,
        files.len() > 0,
    ensures
        ({
            let whole = combined(sources, range_items(config.page_range), config.rotation)->0;
            let items = bookmark_targets(whole.pages(), files);
            let built = assembled(sources, files, config, date)->0;
            &&& assembled(sources, files, config, date) is Some
            &&& sound(built)
            &&& built.kids() is Some
            &&& built.pages() == whole.pages()
            &&& whole.pages().len() > 0
            &&& can_renumber(built, 1)
            &&& merge_plan(sources, files, config, date) == Some(renumbered(built, 1))
            &&& can_add_outline(whole, files.len())
            &&& names_distinct(whole.catalog()->0)
            &&& built.catalog() == Some(
                with_entry(
                    whole.catalog()->0,
                    name("Outlines"),
                    Value::Reference(outline_root_id(whole)),
                ),
            )
            &&& forall|k: int|
                0 <= k <= files.len() ==> has_id(
                    built.objects,
                    (#[trigger] outline_objects(whole, items)[k]).0,
                ) && object_at(built.objects, outline_objects(whole, items)[k].0) == Some(
                    outline_objects(whole, items)[k].1,
                )
        }),
{
    let range = range_items(config.page_range);
    lemma_combined_order(sources, range, config.rotation);
    let whole = combined(sources, range, config.rotation)->0;
    lemma_finishing_keeps_pages(whole, files, config, date);
    let n = files.len() as int;
    let items = bookmark_targets(whole.pages(), files);
    let marked = with_outline(whole, items);
    let built = assembled(sources, files, config, date)->0;
    let cid = whole.catalog_id()->0;
    let cat = whole.catalog()->0;
    let new_cat = with_entry(cat, name("Outlines"), Value::Reference(outline_root_id(whole)));
    let stored = objects_with(whole.objects, cid, Value::Dict(new_cat));
    let extra = outline_objects(whole, items);
    let m = whole.objects.len() as int;
    law_bookmarks_added_then_removed(whole, items);
    lemma_outline_order(whole, items);
    lemma_objects_with(whole.objects, cid, Value::Dict(new_cat));
    assert(stored.len() == m);
    if config.compression == CompressionLevel::Standard {
        lemma_compressed_pages(marked);
    }
    assert forall|k: int| 0 <= k <= n implies has_id(built.objects, (#[trigger] extra[k]).0)
        && object_at(built.objects, extra[k].0) == Some(extra[k].1) by {
        assert(marked.objects[m + k] == extra[k]);
        assert(built.objects[m + k] == extra[k]);
        lemma_index_unique(built.objects, extra[k].0, m + k);
        lemma_object_at_position(built.objects, extra[k].0);
    }
}

/// The outline root after renumbering: the catalog refers to it, and it
/// counts the items and refers to the first and to the last of them, each
/// under its new identifier.
proof fn lemma_root_renumbered(whole: DocumentView, built: DocumentView, n: int)
    requires
        sound(built),
        built.kids() is Some,
        can_renumber(built, 1),
        n > 0,
        names_distinct(whole.catalog()->0),
        built.catalog() == Some(
            with_entry(
                whole.catalog()->0,
                name("Outlines"),
                Value::Reference(outline_root_id(whole)),
            ),
        ),
        has_id(built.objects, outline_root_id(whole)),
        object_at(built.objects, outline_root_id(whole)) == Some(
            Value::Dict(outline_root(whole, n)),
        ),
    ensures
        ({
            let plan = renumbered(built, 1);
            let ids = ids_of(built.objects);
            let root = renumbered_id(ids, 1, outline_root_id(whole));
            &&& plan.catalog() is Some
            &&& lookup(plan.catalog()->0, name("Outlines")) == Some(Value::Reference(root))
            &&& object_at(plan.objects, root) is Some
            &&& object_at(plan.objects, root)->0 is Dict
            &&& lookup(object_at(plan.objects, root)->0->Dict_0, name("Count")) == Some(
                Value::Integer(n as i64),
            )
            &&& lookup(object_at(plan.objects, root)->0->Dict_0, name("First")) == Some(
                Value::Reference(renumbered_id(ids, 1, outline_item_id(whole, 0))),
            )
            &&& lookup(object_at(plan.objects, root)->0->Dict_0, name("Last")) == Some(
                Value::Reference(renumbered_id(ids, 1, outline_item_id(whole, n - 1))),
            )
        }),
{
    let ids = ids_of(built.objects);
    let cat = whole.catalog()->0;
    let new_cat = with_entry(cat, name("Outlines"), Value::Reference(outline_root_id(whole)));
    lemma_with_entry(cat, name("Outlines"), Value::Reference(outline_root_id(whole)));
    lemma_renumbered_pages(built, 1);
    lemma_renumbered_lookup(ids, 1, new_cat, name("Outlines"));
    lemma_renumbered_object(built, 1, outline_root_id(whole));
    let root_dict = outline_root(whole, n);
    law_outline_root_is_linked(whole, n);
    lemma_renumbered_lookup(ids, 1, root_dict, name("Count"));
    lemma_renumbered_lookup(ids, 1, root_dict, name("First"));
    lemma_renumbered_lookup(ids, 1, root_dict, name("Last"));
}

/// An outline item after renumbering: it holds its title, and refers to
/// its parent, to its page and to the items beside it, each under its new
/// identifier.
proof fn lemma_item_renumbered(
    whole: DocumentView,
    built: DocumentView,
    title: Seq<char>,
    at: int,
    i: int,
    n: int,
)
    requires
        sound(built),
        built.kids() is Some,
        can_renumber(built, 1),
        0 <= at < built.pages().len(),
        has_id(built.objects, outline_item_id(whole, i)),
        object_at(built.objects, outline_item_id(whole, i)) == Some(
            Value::Dict(outline_item(whole, title, built.pages()[at], i, n)),
        ),
    ensures
        ({
            let plan = renumbered(built, 1);
            let ids = ids_of(built.objects);
            let item = renumbered_id(ids, 1, outline_item_id(whole, i));
            &&& plan.pages().len() == built.pages().len()
            &&& object_at(plan.objects, item) is Some
            &&& object_at(plan.objects, item)->0 is Dict
            &&& lookup(object_at(plan.objects, item)->0->Dict_0, name("Title")) == Some(
                Value::Str(vstd::utf8::encode_utf8(title), StringFormat::Literal),
            )
            &&& lookup(object_at(plan.objects, item)->0->Dict_0, name("Parent")) == Some(
                Value::Reference(renumbered_id(ids, 1, outline_root_id(whole))),
            )
            &&& lookup(object_at(plan.objects, item)->0->Dict_0, name("Dest")) == Some(
                destination(plan.pages()[at]),
            )
            &&& lookup(object_at(plan.objects, item)->0->Dict_0, name("Prev")) == if i > 0 {
                Some(Value::Reference(renumbered_id(ids, 1, outline_item_id(whole, i - 1))))
            } else {
                None
            }
            &&& lookup(object_at(plan.objects, item)->0->Dict_0, name("Next")) == if i < n - 1 {
                Some(Value::Reference(renumbered_id(ids, 1, outline_item_id(whole, i + 1))))
            } else {
                None
            }
        }),
{
    let ids = ids_of(built.objects);
    let plan = renumbered(built, 1);
    let page = built.pages()[at];
    lemma_renumbered_pages(built, 1);
    lemma_renumbered_object(built, 1, outline_item_id(whole, i));
    let item_dict = outline_item(whole, title, page, i, n);
    law_outline_item_is_linked(whole, title, page, i, n);
    lemma_renumbered_lookup(ids, 1, item_dict, name("Title"));
    lemma_renumbered_lookup(ids, 1, item_dict, name("Parent"));
    lemma_renumbered_lookup(ids, 1, item_dict, name("Dest"));
    lemma_renumbered_lookup(ids, 1, item_dict, name("Prev"));
    lemma_renumbered_lookup(ids, 1, item_dict, name("Next"));
    lemma_destination_renumbered(ids, 1, page);
    assert(plan.pages()[at] == renumbered_id(ids, 1, built.pages()[at]));
}

/// The outline root in the document that a merge gives.
proof fn lemma_merged_root(
    sources: Seq<DocumentView>,
    files: Seq<PathBuf>,
    config: Config,
    date: Seq<char>,
)
    requires
        forall|k: int|
            0 <= k < sources.len() ==> sound(#[trigger] sources[k]) && sources[k].kids() is Some,
        merge_plan(sources, files, config, date) is Some,
        config.bookmarks,
        config.metadata.empty(),
        config.compression != CompressionLevel::Maximum,
        combined_pages(sources, range_items(config.page_range), config.rotation).len() > 0,
        files.len() > 0,
    ensures
        ({
            let plan = merge_plan(sources, files, config, date)->0;
            let n = files.len() as int;
            let root = merged_outline_root(sources, files, config, date);
            &&& plan.catalog() is Some
            &&& lookup(plan.catalog()->0, name("Outlines")) == Some(Value::Reference(root))
            &&& object_at(plan.objects, root) is Some
            &&& object_at(plan.objects, root)->0 is Dict
            &&& lookup(object_at(plan.objects, root)->0->Dict_0, name("Count")) == Some(
                Value::Integer(n as i64),
            )
            &&& lookup(object_at(plan.objects, root)->0->Dict_0, name("First")) == Some(
                Value::Reference(merged_outline_item(sources, files, config, date, 0)),
            )
            &&& lookup(object_at(plan.objects, root)->0->Dict_0, name("Last")) == Some(
                Value::Reference(merged_outline_item(sources, files, config, date, n - 1)),
            )
        }),
{
    lemma_outline_assembled(sources, files, config, date);
    let whole = combined(sources, range_items(config.page_range), config.rotation)->0;
    let items = bookmark_targets(whole.pages(), files);
    let built = assembled(sources, files, config, date)->0;
    assert(outline_objects(whole, items)[0].0 == outline_root_id(whole));
    assert(outline_objects(whole, items)[0].1 == Value::Dict(
        outline_root(whole, files.len() as int),
    ));
    lemma_root_renumbered(whole, built, files.len() as int);
}

/// An outline item in the document that a merge gives.
proof fn lemma_merged_item(
    sources: Seq<DocumentView>,
    files: Seq<PathBuf>,
    config: Config,
    date: Seq<char>,
    i: int,
)
    requires
        forall|k: int|
            0 <= k < sources.len() ==> sound(#[trigger] sources[k]) && sources[k].kids() is Some,
        merge_plan(sources, files, config, date) is Some,
        config.bookmarks,
        config.metadata.empty(),
        config.compression != CompressionLevel::Maximum,
        combined_pages(sources, range_items(config.page_range), config.rotation).len() > 0,
        0 <= i < files.len(),
    ensures
        ({
            let plan = merge_plan(sources, files, config, date)->0;
            let n = files.len() as int;
            let root = merged_outline_root(sources, files, config, date);
            let item = merged_outline_item(sources, files, config, date, i);
            let share = pages_per_file(plan.pages().len(), files.len());
            &&& object_at(plan.objects, item) is Some
            &&& object_at(plan.objects, item)->0 is Dict
            &&& lookup(object_at(plan.objects, item)->0->Dict_0, name("Title")) == Some(
                Value::Str(vstd::utf8::encode_utf8(title_of(files[i])), StringFormat::Literal),
            )
            &&& lookup(object_at(plan.objects, item)->0->Dict_0, name("Parent")) == Some(
                Value::Reference(root),
            )
            &&& 0 <= i * share < plan.pages().len()
            &&& lookup(object_at(plan.objects, item)->0->Dict_0, name("Dest")) == Some(
                destination(plan.pages()[i * share]),
            )
            &&& lookup(object_at(plan.objects, item)->0->Dict_0, name("Prev")) == if i > 0 {
                Some(Value::Reference(merged_outline_item(sources, files, config, date, i - 1)))
            } else {
                None
            }
            &&& lookup(object_at(plan.objects, item)->0->Dict_0, name("Next")) == if i < n - 1 {
                Some(Value::Reference(merged_outline_item(sources, files, config, date, i + 1)))
            } else {
                None
            }
        }),
{
    lemma_outline_assembled(sources, files, config, date);
    let whole = combined(sources, range_items(config.page_range), config.rotation)->0;
    let n = files.len() as int;
    let items = bookmark_targets(whole.pages(), files);
    let built = assembled(sources, files, config, date)->0;
    assert(outline_objects(whole, items)[i + 1].0 == outline_item_id(whole, i));
    assert(outline_objects(whole, items)[i + 1].1 == Value::Dict(
        outline_item(whole, items[i].0, items[i].1, i, n),
    ));
    let share = pages_per_file(whole.pages().len(), files.len());
    lemma_target_in_range(whole.pages().len(), files.len(), i as nat);
    assert(items[i].1 == whole.pages()[i * share]);
    lemma_item_renumbered(whole, built, items[i].0, i * share, i, n);
}

/// Different outline items come under different identifiers in the
/// document that a merge gives.
proof fn lemma_merged_items_differ(
    sources: Seq<DocumentView>,
    files: Seq<PathBuf>,
    config: Config,
    date: Seq<char>,
    i: int,
    j: int,
)
    requires
        forall|k: int|
            0 <= k < sources.len() ==> sound(#[trigger] sources[k]) && sources[k].kids() is Some,
        merge_plan(sources, files, config, date) is Some,
        config.bookmarks,
        config.metadata.empty(),
        config.compression != CompressionLevel::Maximum,
        combined_pages(sources, range_items(config.page_range), config.rotation).len() > 0,
        0 <= i < files.len(),
        0 <= j < files.len(),
        i != j,
    ensures
        merged_outline_item(sources, files, config, date, j) != merged_outline_item(
            sources,
            files,
            config,
            date,
            i,
        ),
{
    lemma_outline_assembled(sources, files, config, date);
    let whole = combined(sources, range_items(config.page_range), config.rotation)->0;
    let items = bookmark_targets(whole.pages(), files);
    let built = assembled(sources, files, config, date)->0;
    assert(outline_objects(whole, items)[i + 1].0 == outline_item_id(whole, i));
    assert(outline_objects(whole, items)[j + 1].0 == outline_item_id(whole, j));
    law_renumbering_keeps_every_object(
        built,
        1,
        outline_item_id(whole, j),
        outline_item_id(whole, i),
    );
}

/// The outline of a merge with bookmarks, in the document that the merge
/// gives (stated for a merge that writes no information and prunes
/// nothing). The catalog refers to the outline root. The root counts the
/// files and refers to the first item and to the last. Item `i` carries the
/// name of file `i` as its title, refers to the root as its parent, to the
/// item before it unless it is the first and to the item after it unless it
/// is the last, and points at the page of the result at position
/// `i * (pages / files)`. Different items have different identifiers.
pub proof fn law_merge_keeps_the_outline(
    sources: Seq<DocumentView>,
    files: Seq<PathBuf>,
    config: Config,
    date: Seq<char>,
    i: int,
)
    requires
        forall|k: int|
            0 <= k < sources.len() ==> sound(#[trigger] sources[k]) && sources[k].kids() is Some,
        merge_plan(sources, files, config, date) is Some,
        config.bookmarks,
        config.metadata.empty(),
        config.compression != CompressionLevel::Maximum,
        combined_pages(sources, range_items(config.page_range), config.rotation).len() > 0,
        0 <= i < files.len(),
    ensures
        ({
            let plan = merge_plan(sources, files, config, date)->0;
            let n = files.len() as int;
            let root = merged_outline_root(sources, files, config, date);
            let item = merged_outline_item(sources, files, config, date, i);
            let share = pages_per_file(plan.pages().len(), files.len());
            &&& plan.catalog() is Some
            &&& lookup(plan.catalog()->0, name("Outlines")) == Some(Value::Reference(root))
            &&& object_at(plan.objects, root) is Some
            &&& object_at(plan.objects, root)->0 is Dict
            &&& lookup(object_at(plan.objects, root)->0->Dict_0, name("Count")) == Some(
                Value::Integer(n as i64),
            )
            &&& lookup(object_at(plan.objects, root)->0->Dict_0, name("First")) == Some(
                Value::Reference(merged_outline_item(sources, files, config, date, 0)),
            )
            &&& lookup(object_at(plan.objects, root)->0->Dict_0, name("Last")) == Some(
                Value::Reference(merged_outline_item(sources, files, config, date, n - 1)),
            )
            &&& object_at(plan.objects, item) is Some
            &&& object_at(plan.objects, item)->0 is Dict
            &&& lookup(object_at(plan.objects, item)->0->Dict_0, name("Title")) == Some(
                Value::Str(vstd::utf8::encode_utf8(title_of(files[i])), StringFormat::Literal),
            )
            &&& lookup(object_at(plan.objects, item)->0->Dict_0, name("Parent")) == Some(
                Value::Reference(root),
            )
            &&& 0 <= i * share < plan.pages().len()
            &&& lookup(object_at(plan.objects, item)->0->Dict_0, name("Dest")) == Some(
                destination(plan.pages()[i * share]),
            )
            &&& lookup(object_at(plan.objects, item)->0->Dict_0, name("Prev")) == if i > 0 {
                Some(Value::Reference(merged_outline_item(sources, files, config, date, i - 1)))
            } else {
                None
            }
            &&& lookup(object_at(plan.objects, item)->0->Dict_0, name("Next")) == if i < n - 1 {
                Some(Value::Reference(merged_outline_item(sources, files, config, date, i + 1)))
            } else {
                None
            }
            &&& forall|j: int|
                0 <= j < n && j != i ==> #[trigger] merged_outline_item(
                    sources,
                    files,
                    config,
                    date,
                    j,
                ) != item
        }),
{
    lemma_merged_root(sources, files, config, date);
    lemma_merged_item(sources, files, config, date, i);
    assert forall|j: int| 0 <= j < files.len() && j != i implies #[trigger] merged_outline_item(
        sources,
        files,
        config,
        date,
        j,
    ) != merged_outline_item(sources, files, config, date, i) by {
        lemma_merged_items_differ(sources, files, config, date, i, j);
    }
}

} // verus!
