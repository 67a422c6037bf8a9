//! The names that the merge engine reads and writes, and that they differ.

use crate::object::name;
use vstd::prelude::*;
use vstd::string::*;

verus! {

/// The names of the page tree and of the catalog are pairwise different.
pub proof fn lemma_tree_names_differ()
    ensures
        name("Pages") != name("Kids"),
        name("Pages") != name("Count"),
        name("Kids") != name("Count"),
        name("Outlines") != name("Pages"),
        name("Outlines") != name("Kids"),
        name("Outlines") != name("Count"),
        name("Rotate") != name("Kids"),
        name("Rotate") != name("Count"),
        name("Rotate") != name("Pages"),
        name("Rotate") != name("Outlines"),
{
    reveal_strlit("Pages");
    reveal_strlit("Kids");
    reveal_strlit("Count");
    reveal_strlit("Outlines");
    reveal_strlit("Rotate");
    is_ascii_spec_bytes("Pages");
    is_ascii_spec_bytes("Kids");
    is_ascii_spec_bytes("Count");
    is_ascii_spec_bytes("Outlines");
    is_ascii_spec_bytes("Rotate");
    assert(name("Pages").len() == 5 && name("Pages")[0] == 80u8);
    assert(name("Kids").len() == 4);
    assert(name("Count").len() == 5 && name("Count")[0] == 67u8);
    assert(name("Outlines").len() == 8);
    assert(name("Rotate").len() == 6);
}

/// The names of the information dictionary differ from the names that lead
/// to the pages, and `Info` differs from `Root`.
pub proof fn lemma_info_names_differ()
    ensures
        name("Info") != name("Root"),
        name("Title") != name("Pages"),
        name("Title") != name("Kids"),
        name("Author") != name("Pages"),
        name("Author") != name("Kids"),
        name("Subject") != name("Pages"),
        name("Subject") != name("Kids"),
        name("Keywords") != name("Pages"),
        name("Keywords") != name("Kids"),
        name("Creator") != name("Pages"),
        name("Creator") != name("Kids"),
        name("Producer") != name("Pages"),
        name("Producer") != name("Kids"),
        name("CreationDate") != name("Pages"),
        name("CreationDate") != name("Kids"),
        name("ModDate") != name("Pages"),
        name("ModDate") != name("Kids"),
        name("Filter") != name("Pages"),
        name("Filter") != name("Kids"),
        name("Length") != name("Pages"),
        name("Length") != name("Kids"),
{
    reveal_strlit("Info");
    reveal_strlit("Root");
    reveal_strlit("Pages");
    reveal_strlit("Kids");
    reveal_strlit("Title");
    reveal_strlit("Author");
    reveal_strlit("Subject");
    reveal_strlit("Keywords");
    reveal_strlit("Creator");
    reveal_strlit("Producer");
    reveal_strlit("CreationDate");
    reveal_strlit("ModDate");
    reveal_strlit("Filter");
    reveal_strlit("Length");
    is_ascii_spec_bytes("Info");
    is_ascii_spec_bytes("Root");
    is_ascii_spec_bytes("Pages");
    is_ascii_spec_bytes("Kids");
    is_ascii_spec_bytes("Title");
    is_ascii_spec_bytes("Author");
    is_ascii_spec_bytes("Subject");
    is_ascii_spec_bytes("Keywords");
    is_ascii_spec_bytes("Creator");
    is_ascii_spec_bytes("Producer");
    is_ascii_spec_bytes("CreationDate");
    is_ascii_spec_bytes("ModDate");
    is_ascii_spec_bytes("Filter");
    is_ascii_spec_bytes("Length");
    assert(name("Info")[0] == 73u8 && name("Root")[0] == 82u8);
    assert(name("Pages").len() == 5 && name("Pages")[0] == 80u8 && name("Pages")[1] == 97u8);
    assert(name("Kids").len() == 4 && name("Kids")[0] == 75u8);
    assert(name("Title").len() == 5 && name("Title")[0] == 84u8);
    assert(name("Author").len() == 6);
    assert(name("Subject").len() == 7);
    assert(name("Keywords").len() == 8);
    assert(name("Creator").len() == 7);
    assert(name("Producer").len() == 8);
    assert(name("CreationDate").len() == 12);
    assert(name("ModDate").len() == 7);
    assert(name("Filter").len() == 6);
    assert(name("Length").len() == 6);
}

/// The names of an outline item are pairwise different, and so are those
/// of an outline root.
pub proof fn lemma_outline_names_differ()
    ensures
        name("Title") != name("Parent"),
        name("Title") != name("Dest"),
        name("Title") != name("Prev"),
        name("Title") != name("Next"),
        name("Parent") != name("Dest"),
        name("Parent") != name("Prev"),
        name("Parent") != name("Next"),
        name("Dest") != name("Prev"),
        name("Dest") != name("Next"),
        name("Prev") != name("Next"),
        name("Type") != name("Count"),
        name("Type") != name("First"),
        name("Type") != name("Last"),
        name("Count") != name("First"),
        name("Count") != name("Last"),
        name("First") != name("Last"),
{
    reveal_strlit("Title");
    reveal_strlit("Parent");
    reveal_strlit("Dest");
    reveal_strlit("Prev");
    reveal_strlit("Next");
    reveal_strlit("Type");
    reveal_strlit("Count");
    reveal_strlit("First");
    reveal_strlit("Last");
    is_ascii_spec_bytes("Title");
    is_ascii_spec_bytes("Parent");
    is_ascii_spec_bytes("Dest");
    is_ascii_spec_bytes("Prev");
    is_ascii_spec_bytes("Next");
    is_ascii_spec_bytes("Type");
    is_ascii_spec_bytes("Count");
    is_ascii_spec_bytes("First");
    is_ascii_spec_bytes("Last");
    assert(name("Title").len() == 5 && name("Title")[0] == 84u8);
    assert(name("Parent").len() == 6);
    assert(name("Dest").len() == 4 && name("Dest")[0] == 68u8);
    assert(name("Prev").len() == 4 && name("Prev")[0] == 80u8);
    assert(name("Next").len() == 4 && name("Next")[0] == 78u8);
    assert(name("Type").len() == 4 && name("Type")[0] == 84u8);
    assert(name("Count").len() == 5 && name("Count")[0] == 67u8);
    assert(name("First").len() == 5 && name("First")[0] == 70u8);
    assert(name("Last").len() == 4 && name("Last")[0] == 76u8);
}

} // verus!
