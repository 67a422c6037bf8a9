use pdfcat::config::{CompressionLevel, Config, Metadata, OverwriteMode};
use pdfcat::document::Document;
use pdfcat::io::reader::LoadedPdf;
use pdfcat::merge::compact::{compress, prune_objects};
use pdfcat::merge::merger::Merger;
use pdfcat::merge::renumber::{renumber_objects, renumber_objects_with};
use pdfcat::object::{Dictionary, Object, Stream, StringFormat};
use std::path::PathBuf;
use std::time::Duration;

fn object_from(object: &lopdf::Object) -> Object {
    match object {
        lopdf::Object::Null => Object::Null,
        lopdf::Object::Boolean(b) => Object::Boolean(*b),
        lopdf::Object::Integer(i) => Object::Integer(*i),
        lopdf::Object::Real(r) => Object::Real(r.to_bits()),
        lopdf::Object::Name(n) => Object::Name(n.clone()),
        lopdf::Object::String(s, lopdf::StringFormat::Literal) => {
            Object::String(s.clone(), StringFormat::Literal)
        }
        lopdf::Object::String(s, lopdf::StringFormat::Hexadecimal) => {
            Object::String(s.clone(), StringFormat::Hexadecimal)
        }
        lopdf::Object::Array(items) => Object::Array(items.iter().map(object_from).collect()),
        lopdf::Object::Dictionary(d) => Object::Dictionary(dictionary_from(d)),
        lopdf::Object::Stream(s) => Object::Stream(Stream {
            dict: dictionary_from(&s.dict),
            content: s.content.clone(),
            allows_compression: s.allows_compression,
        }),
        lopdf::Object::Reference(id) => Object::Reference(*id),
    }
}

fn dictionary_from(dictionary: &lopdf::Dictionary) -> Dictionary {
    let mut out = Dictionary::new();
    for (key, value) in dictionary.iter() {
        out.set(key.clone(), object_from(value));
    }
    out
}

fn object_into(object: &Object) -> lopdf::Object {
    match object {
        Object::Null => lopdf::Object::Null,
        Object::Boolean(b) => lopdf::Object::Boolean(*b),
        Object::Integer(i) => lopdf::Object::Integer(*i),
        Object::Real(bits) => lopdf::Object::Real(f32::from_bits(*bits)),
        Object::Name(n) => lopdf::Object::Name(n.clone()),
        Object::String(s, StringFormat::Literal) => {
            lopdf::Object::String(s.clone(), lopdf::StringFormat::Literal)
        }
        Object::String(s, StringFormat::Hexadecimal) => {
            lopdf::Object::String(s.clone(), lopdf::StringFormat::Hexadecimal)
        }
        Object::Array(items) => lopdf::Object::Array(items.iter().map(object_into).collect()),
        Object::Dictionary(d) => lopdf::Object::Dictionary(dictionary_into(d)),
        Object::Stream(s) => lopdf::Object::Stream(lopdf::Stream {
            dict: dictionary_into(&s.dict),
            content: s.content.clone(),
            allows_compression: s.allows_compression,
            start_position: None,
        }),
        Object::Reference(id) => lopdf::Object::Reference(*id),
    }
}

fn dictionary_into(dictionary: &Dictionary) -> lopdf::Dictionary {
    let mut out = lopdf::Dictionary::new();
    for i in 0..dictionary.len() {
        out.set(dictionary.key_at(i).clone(), object_into(dictionary.value_at(i)));
    }
    out
}

fn document_from(document: &lopdf::Document) -> Document {
    let mut out = Document::with_version(&document.version);
    for (id, object) in &document.objects {
        out.set_object(*id, object_from(object));
    }
    for (key, value) in document.trailer.iter() {
        out.trailer_set(key.clone(), object_from(value));
    }
    out.raise_max_id(document.max_id);
    out
}

/// Whether the two documents hold the same objects under the same
/// identifiers, the same trailer and the same watermark.
fn assert_same(ours: &Document, theirs: &lopdf::Document) {
    let ids: Vec<(u32, u16)> = (0..ours.object_count()).map(|i| ours.id_at(i)).collect();
    let their_ids: Vec<(u32, u16)> = theirs.objects.keys().copied().collect();
    assert_eq!(ids, their_ids);
    for i in 0..ours.object_count() {
        let id = ours.id_at(i);
        assert!(
            object_into(ours.object_at(i)) == theirs.objects[&id],
            "object {id:?} differs: {:?} and {:?}",
            ours.object_at(i),
            theirs.objects[&id]
        );
    }
    assert!(dictionary_into(ours.trailer()) == theirs.trailer);
    assert_eq!(ours.max_id(), theirs.max_id);
}

fn name(text: &str) -> lopdf::Object {
    lopdf::Object::Name(text.as_bytes().to_vec())
}

/// A document of `lopdf` with pages, each with a content stream, and a few
/// objects that nothing refers to.
fn sample(pages: usize, fill: u8) -> lopdf::Document {
    let mut doc = lopdf::Document::with_version("1.5");
    let catalog_id = doc.new_object_id();
    let pages_id = doc.new_object_id();
    let mut kids = Vec::new();
    for k in 0..pages {
        let page_id = doc.new_object_id();
        let content_id = doc.new_object_id();
        let content: Vec<u8> = std::iter::repeat(fill.wrapping_add(k as u8)).take(600).collect();
        doc.objects.insert(
            content_id,
            lopdf::Object::Stream(lopdf::Stream::new(lopdf::Dictionary::new(), content)),
        );
        let mut page = lopdf::Dictionary::new();
        page.set("Type", name("Page"));
        page.set("Parent", lopdf::Object::Reference(pages_id));
        page.set("Contents", lopdf::Object::Reference(content_id));
        page.set(
            "MediaBox",
            lopdf::Object::Array(vec![
                lopdf::Object::Integer(0),
                lopdf::Object::Integer(0),
                lopdf::Object::Real(612.0),
                lopdf::Object::Real(792.0),
            ]),
        );
        doc.objects.insert(page_id, lopdf::Object::Dictionary(page));
        kids.push(lopdf::Object::Reference(page_id));
    }
    let mut catalog = lopdf::Dictionary::new();
    catalog.set("Type", name("Catalog"));
    catalog.set("Pages", lopdf::Object::Reference(pages_id));
    let mut tree = lopdf::Dictionary::new();
    tree.set("Type", name("Pages"));
    tree.set("Kids", lopdf::Object::Array(kids));
    tree.set("Count", lopdf::Object::Integer(pages as i64));
    doc.objects.insert(catalog_id, lopdf::Object::Dictionary(catalog));
    doc.objects.insert(pages_id, lopdf::Object::Dictionary(tree));
    doc.trailer.set("Root", lopdf::Object::Reference(catalog_id));
    // Loose objects, with a gap in the numbers before them.
    doc.objects.insert((40, 0), lopdf::Object::Integer(7));
    doc.objects.insert(
        (41, 3),
        lopdf::Object::String(b"loose".to_vec(), lopdf::StringFormat::Hexadecimal),
    );
    doc.max_id = 41;
    doc
}

#[test]
fn test_pages_agree_with_lopdf() {
    for pages in [0usize, 1, 2, 7] {
        let theirs = sample(pages, 1);
        let ours = document_from(&theirs);
        let their_pages: Vec<(u32, u16)> = theirs.get_pages().into_values().collect();
        assert_eq!(ours.get_pages(), their_pages);
    }
}

#[test]
fn test_conversion_keeps_everything() {
    let theirs = sample(3, 9);
    assert_same(&document_from(&theirs), &theirs);
}

#[test]
fn test_renumbering_agrees_with_lopdf() {
    for start in [1u32, 50, 1000] {
        let mut theirs = sample(3, 1);
        // lopdf rewrites the references that the trailer reaches; so that
        // every reference is among them, the loose objects are taken out.
        theirs.prune_objects();
        let mut ours = document_from(&theirs);
        theirs.renumber_objects_with(start);
        renumber_objects_with(&mut ours, start);
        assert_same(&ours, &theirs);
    }
    let mut theirs = sample(2, 1);
    let mut ours = document_from(&theirs);
    theirs.renumber_objects();
    renumber_objects(&mut ours);
    assert_same(&ours, &theirs);
}

#[test]
fn test_pruning_agrees_with_lopdf() {
    let mut theirs = sample(4, 1);
    // A pair that refers to each other but is not referred to.
    theirs.objects.insert((50, 0), lopdf::Object::Reference((51, 0)));
    theirs.objects.insert(
        (51, 0),
        lopdf::Object::Array(vec![lopdf::Object::Reference((50, 0))]),
    );
    theirs.max_id = 51;
    let mut ours = document_from(&theirs);
    theirs.prune_objects();
    prune_objects(&mut ours);
    assert_same(&ours, &theirs);
    assert_eq!(ours.object_count(), 10);
}

#[test]
fn test_compression_agrees_with_lopdf() {
    let mut theirs = sample(3, 1);
    // A stream that is too short to gain, one that may not be compressed,
    // and one that is filtered already.
    theirs.objects.insert(
        (60, 0),
        lopdf::Object::Stream(lopdf::Stream::new(lopdf::Dictionary::new(), vec![1, 2, 3])),
    );
    theirs.objects.insert(
        (61, 0),
        lopdf::Object::Stream(
            lopdf::Stream::new(lopdf::Dictionary::new(), vec![0; 500]).with_compression(false),
        ),
    );
    let mut filtered = lopdf::Dictionary::new();
    filtered.set("Filter", name("ASCIIHexDecode"));
    theirs.objects.insert(
        (62, 0),
        lopdf::Object::Stream(lopdf::Stream::new(filtered, vec![b'0'; 500])),
    );
    theirs.max_id = 62;
    let mut ours = document_from(&theirs);
    theirs.compress();
    compress(&mut ours);
    assert_same(&ours, &theirs);
    let packed = match ours.get_direct((4, 0)) {
        Some(Object::Stream(s)) => s,
        other => panic!("unexpected: {other:?}"),
    };
    assert!(packed.content.len() < 600);
    assert!(packed.dict.has(b"Filter"));
}

/// The steps of a merge, made with the operations of `lopdf`.
fn merged_with_lopdf(sources: &[lopdf::Document], level: CompressionLevel) -> lopdf::Document {
    let mut merged = sources[0].clone();
    let mut max_id = merged.max_id;
    for source in &sources[1..] {
        let mut doc = source.clone();
        doc.renumber_objects_with(max_id + 1);
        max_id = doc.max_id;
        let doc_pages: Vec<(u32, u16)> = doc.get_pages().into_values().collect();
        merged.objects.extend(doc.objects);
        merged.max_id = max_id;
        let pages_id = merged
            .catalog()
            .unwrap()
            .get(b"Pages")
            .unwrap()
            .as_reference()
            .unwrap();
        let tree = merged.get_dictionary_mut(pages_id).unwrap();
        let count = tree.get(b"Count").unwrap().as_i64().unwrap();
        tree.get_mut(b"Kids")
            .unwrap()
            .as_array_mut()
            .unwrap()
            .extend(doc_pages.iter().map(|id| lopdf::Object::Reference(*id)));
        tree.set("Count", lopdf::Object::Integer(count + doc_pages.len() as i64));
    }
    match level {
        CompressionLevel::Uncompressed => {}
        CompressionLevel::Standard => merged.compress(),
        CompressionLevel::Maximum => {
            merged.compress();
            merged.prune_objects();
        }
    }
    merged.renumber_objects();
    merged
}

#[test]
fn test_merge_agrees_with_the_steps_made_with_lopdf() {
    for level in [
        CompressionLevel::Uncompressed,
        CompressionLevel::Standard,
        CompressionLevel::Maximum,
    ] {
        let mut sources = vec![sample(2, 1), sample(3, 100), sample(1, 200)];
        for source in sources.iter_mut() {
            // Every reference is reached from the trailer, as the
            // renumbering of lopdf needs it.
            source.prune_objects();
        }
        let theirs = merged_with_lopdf(&sources, level);
        let loaded: Vec<LoadedPdf> = sources
            .iter()
            .enumerate()
            .map(|(i, source)| {
                LoadedPdf::new(
                    document_from(source),
                    PathBuf::from(format!("{i}.pdf")),
                    Duration::ZERO,
                    0,
                )
            })
            .collect();
        let config = Config {
            inputs: vec![],
            output: PathBuf::from("out.pdf"),
            dry_run: false,
            verbose: false,
            overwrite_mode: OverwriteMode::Force,
            quiet: true,
            bookmarks: false,
            compression: level,
            metadata: Metadata::default(),
            continue_on_error: false,
            jobs: None,
            page_range: None,
            rotation: None,
        };
        let mut theirs = theirs;
        let mut ours = Merger::new().merge_documents(&loaded, &config).unwrap();
        assert_eq!(ours.get_pages().len(), 6);
        let their_pages: Vec<(u32, u16)> = theirs.get_pages().into_values().collect();
        assert_eq!(ours.get_pages(), their_pages);
        assert_eq!(ours.object_count(), theirs.objects.len());
        // Inside an object that the trailer does not reach lopdf leaves the
        // references as they were, and the library rewrites them: the two
        // are held together on what the trailer reaches.
        theirs.prune_objects();
        prune_objects(&mut ours);
        assert_same(&ours, &theirs);
    }
}

#[test]
fn test_pages_of_a_nested_tree_are_written_into_the_root() {
    // Two branches under the root, with two pages and one page.
    let mut theirs = lopdf::Document::with_version("1.5");
    let catalog_id = theirs.new_object_id();
    let root_id = theirs.new_object_id();
    let mut branches = Vec::new();
    for leaves in [2usize, 1] {
        let branch_id = theirs.new_object_id();
        let mut kids = Vec::new();
        for _ in 0..leaves {
            let page_id = theirs.new_object_id();
            let mut page = lopdf::Dictionary::new();
            page.set("Type", name("Page"));
            page.set("Parent", lopdf::Object::Reference(branch_id));
            theirs.objects.insert(page_id, lopdf::Object::Dictionary(page));
            kids.push(lopdf::Object::Reference(page_id));
        }
        let mut branch = lopdf::Dictionary::new();
        branch.set("Type", name("Pages"));
        branch.set("Parent", lopdf::Object::Reference(root_id));
        branch.set("Kids", lopdf::Object::Array(kids));
        branch.set("Count", lopdf::Object::Integer(leaves as i64));
        theirs.objects.insert(branch_id, lopdf::Object::Dictionary(branch));
        branches.push(lopdf::Object::Reference(branch_id));
    }
    let mut root = lopdf::Dictionary::new();
    root.set("Type", name("Pages"));
    root.set("Kids", lopdf::Object::Array(branches));
    root.set("Count", lopdf::Object::Integer(3));
    theirs.objects.insert(root_id, lopdf::Object::Dictionary(root));
    let mut catalog = lopdf::Dictionary::new();
    catalog.set("Type", name("Catalog"));
    catalog.set("Pages", lopdf::Object::Reference(root_id));
    theirs.objects.insert(catalog_id, lopdf::Object::Dictionary(catalog));
    theirs.trailer.set("Root", lopdf::Object::Reference(catalog_id));

    let their_pages: Vec<(u32, u16)> = theirs.get_pages().into_values().collect();
    assert_eq!(their_pages, vec![(4, 0), (5, 0), (7, 0)]);
    let mut ours = document_from(&theirs);
    // The library reads the root alone: the two branches.
    assert_eq!(ours.get_pages(), vec![(3, 0), (6, 0)]);
    pdfcat::merge::pages::PageExtractor::new()
        .update_page_tree(&mut ours, &their_pages)
        .unwrap();
    assert_eq!(ours.get_pages(), their_pages);
    let tree = ours.get_dictionary(root_id).unwrap();
    assert_eq!(tree.get(b"Count").and_then(|o| o.as_i64()), Some(3));
}
