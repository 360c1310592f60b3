//! What the server decides when it starts.

use crate::text::{ends_with, starts_with};
use vstd::prelude::*;

verus! {

/// An entry of a listing that makes the notes directory count as holding
/// notes: one whose name does not start with `.`, and that is a directory
/// (`Some(true)`) or a `.md` file (`Some(false)`); an entry whose type could
/// not be read (`None`) does not count.
pub open spec fn counts_as_note(name: Seq<char>, is_dir: Option<bool>) -> bool {
    &&& !"."@.is_prefix_of(name)
    &&& (is_dir == Some(true) || (is_dir == Some(false) && ".md"@.is_suffix_of(name)))
}

/// None of the entries of a listing counts as a note.
pub open spec fn holds_no_notes(entries: Seq<(Seq<char>, Option<bool>)>) -> bool {
    forall|i: int| 0 <= i < entries.len() ==> !counts_as_note((#[trigger] entries[i]).0, entries[i].1)
}

/// Whether the notes directory has no notes yet: no `.md` file and no
/// directory that is not hidden. A directory that could not be listed
/// (`None`) is not empty.
pub fn notes_dir_is_empty(listing: Option<&Vec<(String, Option<bool>)>>) -> (b: bool)
    ensures
        listing is None ==> !b,
        listing matches Some(l) ==> (b <==> holds_no_notes(l.deep_view())),
{
    let entries = match listing {
        None => return false,
        Some(l) => l,
    };
    let ghost all = entries.deep_view();
    assert(listing == Some(entries));
    let mut i: usize = 0;
    while i < entries.len()
        invariant
            i <= entries.len(),
            all == entries.deep_view(),
            all.len() == entries.len(),
            listing == Some(entries),
            forall|j: int| 0 <= j < i ==> !counts_as_note((#[trigger] all[j]).0, all[j].1),
        decreases entries.len() - i,
    {
        let (name, is_dir) = (&entries[i].0, entries[i].1);
        assert(all[i as int] == (name@, is_dir));
        let hidden = starts_with(name.as_str(), ".");
        if !hidden {
            match is_dir {
                Some(true) => {
                    assert(counts_as_note(all[i as int].0, all[i as int].1));
                    assert(!holds_no_notes(all));
                    return false;
                },
                Some(false) => {
                    if ends_with(name.as_str(), ".md") {
                        assert(counts_as_note(all[i as int].0, all[i as int].1));
                        assert(!holds_no_notes(all));
                        return false;
                    }
                },
                None => {},
            }
        }
        i = i + 1;
    }
    true
}

} // verus!
