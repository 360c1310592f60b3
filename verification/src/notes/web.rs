//! The rules of the web UI: what its forms carry, the URL prefix, which
//! notes the home page lists, the embedded static files, and how a saved
//! note is written.

use crate::notes::utils::{new_note_target, new_note_target_spec, note_views};
use crate::text::{strip_start, push_str, replace_all, replace_all_spec, same_text, starts_with, strip_both, strip_end, trim_class, trim_end_class, CharClass};
use crate::types::{NoteItem, NoteItemView};
use vstd::prelude::*;

verus! {

/// The query of the home page: a category to list and a search query.
pub struct Info {
    pub category: Option<String>,
    pub q: Option<String>,
}

/// The form that creates a note: its path and its text.
pub struct CreateNote {
    pub note_path: String,
    pub body: String,
}

/// The form that saves an edited note.
pub struct EditNote {
    pub note: String,
}

/// The URL prefix the UI is served under, from the configured `raw` prefix:
/// `/` when it is only slashes (or empty), `/prefix/` otherwise.
pub open spec fn url_prefix_spec(raw: Seq<char>) -> Seq<char> {
    let t = strip_both(raw, CharClass::Exactly('/'));
    if t.len() == 0 {
        "/"@
    } else {
        seq!['/'] + t + seq!['/']
    }
}

/// The URL prefix the UI is served under, from the configured prefix.
pub fn get_url_prefix(raw: &str) -> (p: String)
    ensures
        p@ == url_prefix_spec(raw@),
{
    let t = trim_class(raw, CharClass::Exactly('/'));
    if t.as_str().is_empty() {
        "/".to_string()
    } else {
        let mut p = String::from_str("/");
        push_str(&mut p, t.as_str());
        push_str(&mut p, "/");
        proof { reveal_strlit("/"); }
        p
    }
}

/// The URL of the note at `path` (relative to the notes directory).
pub fn note_url(prefix: &str, path: &str) -> (u: String)
    ensures
        u@ == prefix@ + path@,
{
    let mut u = String::from_str(prefix);
    push_str(&mut u, path);
    u
}

/// The URL of the page that edits the note at `path`.
pub fn edit_url(prefix: &str, path: &str) -> (u: String)
    ensures
        u@ == prefix@ + "edit/"@ + path@,
{
    let mut u = String::from_str(prefix);
    push_str(&mut u, "edit/");
    push_str(&mut u, path);
    u
}

/// Whether a note of the category `root_dir` is listed for `category`: all
/// are when the category is empty or `_all`; otherwise the notes of that
/// category and of its subcategories.
pub open spec fn in_category(root_dir: Seq<char>, category: Seq<char>) -> bool {
    ||| category.len() == 0
    ||| category == "_all"@
    ||| root_dir == category
    ||| (category + "/"@).is_prefix_of(root_dir)
}

/// The notes of `notes` listed for `category`, in their order.
pub open spec fn notes_in_category(notes: Seq<NoteItemView>, category: Seq<char>) -> Seq<NoteItemView>
    decreases notes.len(),
{
    if notes.len() == 0 {
        notes
    } else {
        let pre = notes_in_category(notes.drop_last(), category);
        if in_category(notes.last().root_dir, category) {
            pre.push(notes.last())
        } else {
            pre
        }
    }
}

/// Whether a note of the category `root_dir` is listed for `category`.
pub fn category_matches(root_dir: &str, category: &str) -> (b: bool)
    ensures
        b == in_category(root_dir@, category@),
{
    if category.is_empty() || same_text(category, "_all") || same_text(root_dir, category) {
        return true;
    }
    let mut with_slash = String::from_str(category);
    push_str(&mut with_slash, "/");
    starts_with(root_dir, with_slash.as_str())
}

/// The notes of `notes` listed for `category`, in their order.
pub fn filter_by_category(notes: Vec<NoteItem>, category: &str) -> (r: Vec<NoteItem>)
    ensures
        note_views(r@) == notes_in_category(note_views(notes@), category@),
{
    let ghost all = note_views(notes@);
    let n = notes.len();
    let mut rest = notes;
    let mut r: Vec<NoteItem> = Vec::new();
    let mut i: usize = 0;
    while rest.len() > 0
        invariant
            i <= all.len(),
            all.len() == n,
            rest.len() + i == all.len(),
            note_views(rest@) == all.skip(i as int),
            note_views(r@) == notes_in_category(all.take(i as int), category@),
        decreases rest.len(),
    {
        let ghost old_rest = rest@;
        let item = rest.remove(0);
        assert(note_views(old_rest)[0] == all.skip(i as int)[0]);
        assert(item@ == all[i as int]);
        assert forall|k: int| 0 <= k < rest@.len() implies #[trigger] note_views(rest@)[k] == all.skip(i + 1)[k] by {
            assert(rest@[k] == old_rest[k + 1]);
            assert(note_views(old_rest)[k + 1] == all.skip(i as int)[k + 1]);
        }
        assert(note_views(rest@) =~= all.skip(i + 1));
        assert(all.take(i + 1).drop_last() == all.take(i as int));
        if category_matches(item.root_dir.as_str(), category) {
            let ghost before = note_views(r@);
            let ghost v = item@;
            r.push(item);
            assert(note_views(r@) =~= before.push(v));
        }
        i = i + 1;
    }
    assert(all.take(i as int) == all);
    r
}

/// Whether the home page lists search hits rather than the latest notes: it
/// does when a search found notes, or when the query (or the message that
/// replaced it) is not empty.
pub fn lists_search_hits(hits: &Vec<String>, q: &str) -> (b: bool)
    ensures
        b == (hits@.len() > 0 || q@.len() > 0),
{
    hits.len() > 0 || !q.is_empty()
}

/// How many notes the home page lists when not searching: the 37 most recent,
/// or all of them once a query or a category is given.
pub fn home_fetch_limit(q: &str, category: &str) -> (limit: usize)
    ensures
        limit == (if q@.len() > 0 || category@.len() > 0 { 0usize } else { 37usize }),
{
    if !q.is_empty() || !category.is_empty() {
        0
    } else {
        37
    }
}

/// The text saved for an edited note: without carriage returns, without
/// trailing whitespace, and ended by one line break.
pub open spec fn saved_note_spec(note: Seq<char>) -> Seq<char> {
    strip_end(replace_all_spec(note, "\r"@, Seq::<char>::empty()), CharClass::Whitespace).push('\n')
}

/// The text saved for an edited note.
pub fn edit_note_body(note: &str) -> (data: String)
    ensures
        data@ == saved_note_spec(note@),
{
    proof { reveal_strlit("\r"); reveal_strlit(""); reveal_strlit("\n"); }
    let without_cr = replace_all(note, "\r", "");
    let mut data = trim_end_class(without_cr.as_str(), CharClass::Whitespace);
    let ghost trimmed = data@;
    assert(""@ =~= Seq::<char>::empty());
    push_str(&mut data, "\n");
    assert(trimmed + "\n"@ == trimmed.push('\n'));
    data
}

/// Where the note created by the form for `md_path` goes, relative to the
/// notes directory: `category/name`.
pub fn new_note_relative_path(md_path: &str) -> (r: Result<String, String>)
    ensures
        match (r, new_note_target_spec(md_path@)) {
            (Ok(p), Ok((c, n))) => p@ == c + "/"@ + n,
            (Err(m), Err(e)) => m@ == e,
            _ => false,
        },
{
    match new_note_target(md_path) {
        Ok((category, name)) => {
            let mut p = category;
            push_str(&mut p, "/");
            push_str(&mut p, name.as_str());
            Ok(p)
        },
        Err(m) => Err(m),
    }
}

/// A static file built into the server.
#[derive(Clone, Copy, Debug, PartialEq, Eq)]
pub enum StaticAsset {
    NotesCss,
    PureMinCss,
    PygmentsCss,
    SyntectCss,
    NotesJs,
    RustyNotesPng,
}

/// The built-in file served for the path `rel` under `/stc/`.
pub open spec fn embedded_static_spec(rel: Seq<char>) -> Option<StaticAsset> {
    if rel == "css/notes.css"@ {
        Some(StaticAsset::NotesCss)
    } else if rel == "css/pure-min.css"@ {
        Some(StaticAsset::PureMinCss)
    } else if rel == "css/pygments.css"@ {
        Some(StaticAsset::PygmentsCss)
    } else if rel == "css/syntect.css"@ {
        Some(StaticAsset::SyntectCss)
    } else if rel == "js/notes.js"@ {
        Some(StaticAsset::NotesJs)
    } else if rel == "img/rusty-notes.png"@ {
        Some(StaticAsset::RustyNotesPng)
    } else {
        None
    }
}

/// The content type a built-in file is served with.
pub open spec fn content_type_spec(a: StaticAsset) -> Seq<char> {
    match a {
        StaticAsset::NotesJs => "application/javascript"@,
        StaticAsset::RustyNotesPng => "image/png"@,
        _ => "text/css"@,
    }
}

/// The built-in file served for the path `rel` under `/stc/`, with its
/// content type, when no file of the notes directory overrides it.
pub fn embedded_static(rel: &str) -> (r: Option<(StaticAsset, &'static str)>)
    ensures
        match r {
            Some((a, ct)) => embedded_static_spec(rel@) == Some(a) && ct@ == content_type_spec(a),
            None => embedded_static_spec(rel@) is None,
        },
{
    if same_text(rel, "css/notes.css") {
        Some((StaticAsset::NotesCss, "text/css"))
    } else if same_text(rel, "css/pure-min.css") {
        Some((StaticAsset::PureMinCss, "text/css"))
    } else if same_text(rel, "css/pygments.css") {
        Some((StaticAsset::PygmentsCss, "text/css"))
    } else if same_text(rel, "css/syntect.css") {
        Some((StaticAsset::SyntectCss, "text/css"))
    } else if same_text(rel, "js/notes.js") {
        Some((StaticAsset::NotesJs, "application/javascript"))
    } else if same_text(rel, "img/rusty-notes.png") {
        Some((StaticAsset::RustyNotesPng, "image/png"))
    } else {
        None
    }
}

// ---------------------------------------------------------------------------
// Laws
// ---------------------------------------------------------------------------

/// The URL prefix starts and ends with `/`, and deriving it again from
/// itself gives it back.
pub proof fn law_url_prefix(raw: Seq<char>)
    ensures
        url_prefix_spec(raw).len() > 0,
        url_prefix_spec(raw)[0] == '/',
        url_prefix_spec(raw).last() == '/',
        url_prefix_spec(url_prefix_spec(raw)) == url_prefix_spec(raw),
{
    let cls = CharClass::Exactly('/');
    let t = strip_both(raw, cls);
    crate::text::law_strip_both(raw, cls);
    reveal_strlit("/");
    let p = url_prefix_spec(raw);
    if t.len() == 0 {
        assert(p == seq!['/']);
        assert(strip_start(p, cls) == strip_start(p.drop_first(), cls));
        assert(p.drop_first().len() == 0);
        assert(strip_both(p, cls).len() == 0);
    } else {
        assert(p[0] == '/');
        assert(p[1] == t[0]);
        crate::text::lemma_strip_start_at(p, cls, 1);
        let w = p.skip(1);
        assert(w == t + seq!['/']);
        assert(w[t.len() - 1] == t.last());
        crate::text::lemma_strip_end_at(w, cls, t.len() as int);
        assert(w.take(t.len() as int) == t);
    }
}

/// A saved note ends with a line break and holds no carriage return, and
/// saving it again changes nothing.
pub proof fn law_saved_note(note: Seq<char>)
    ensures
        saved_note_spec(note).last() == '\n',
        !saved_note_spec(note).contains('\r'),
        saved_note_spec(saved_note_spec(note)) == saved_note_spec(note),
{
    reveal_strlit("\r");
    let ws = CharClass::Whitespace;
    assert("\r"@ == seq!['\r']);
    let z = replace_all_spec(note, "\r"@, Seq::<char>::empty());
    crate::text::law_delete_char(note, '\r');
    let y = strip_end(z, ws);
    let k = crate::text::lemma_strip_end_shape(z, ws);
    assert(y == z.take(k));
    assert(!y.contains('\r')) by {
        if y.contains('\r') {
            let j = choose|j: int| 0 <= j < y.len() && y[j] == '\r';
            assert(z[j] == '\r');
        }
    }
    let saved = y.push('\n');
    assert(!saved.contains('\r')) by {
        if saved.contains('\r') {
            let j = choose|j: int| 0 <= j < saved.len() && saved[j] == '\r';
            assert(j < y.len());
            assert(y[j] == '\r');
        }
    }
    assert forall|j: int| 0 <= j implies !crate::text::occurs_at(saved, "\r"@, j) by {
        if crate::text::occurs_at(saved, "\r"@, j) {
            assert(saved.subrange(j, j + 1)[0] == saved[j]);
        }
    }
    assert(!crate::text::contains_spec(saved, "\r"@));
    crate::text::law_replace_absent(saved, "\r"@, Seq::<char>::empty());
    crate::text::lemma_strip_end_push(y, '\n', ws);
    crate::text::law_strip_end(z, ws);
}

/// Listing the category `_all`, or no category, lists every note.
pub proof fn law_all_categories(notes: Seq<NoteItemView>, category: Seq<char>)
    requires
        category.len() == 0 || category == "_all"@,
    ensures
        notes_in_category(notes, category) == notes,
    decreases notes.len(),
{
    if notes.len() > 0 {
        law_all_categories(notes.drop_last(), category);
        assert(notes.drop_last().push(notes.last()) == notes);
    }
}

/// The notes listed for a category are notes of that category (or of one of
/// its subcategories), taken from the notes given.
pub proof fn law_category_filter(notes: Seq<NoteItemView>, category: Seq<char>)
    ensures
        forall|i: int|
            0 <= i < notes_in_category(notes, category).len() ==> notes.contains(
                #[trigger] notes_in_category(notes, category)[i],
            ) && in_category(notes_in_category(notes, category)[i].root_dir, category),
        notes_in_category(notes, category).len() <= notes.len(),
    decreases notes.len(),
{
    if notes.len() > 0 {
        let t = notes.drop_last();
        law_category_filter(t, category);
        let pre = notes_in_category(t, category);
        assert forall|i: int| 0 <= i < pre.len() implies notes.contains(#[trigger] pre[i]) by {
            let j = choose|j: int| 0 <= j < t.len() && t[j] == pre[i];
            assert(notes[j] == t[j]);
        }
        assert(notes[notes.len() - 1] == notes.last());
    }
}

/// The path each built-in file is served under (below `/stc/`).
pub open spec fn asset_path(a: StaticAsset) -> Seq<char> {
    match a {
        StaticAsset::NotesCss => "css/notes.css"@,
        StaticAsset::PureMinCss => "css/pure-min.css"@,
        StaticAsset::PygmentsCss => "css/pygments.css"@,
        StaticAsset::SyntectCss => "css/syntect.css"@,
        StaticAsset::NotesJs => "js/notes.js"@,
        StaticAsset::RustyNotesPng => "img/rusty-notes.png"@,
    }
}

/// Every built-in file is served: under its path, the lookup finds it; and
/// the lookup finds a built-in file under no other path.
pub proof fn law_every_asset_served(a: StaticAsset, rel: Seq<char>)
    ensures
        embedded_static_spec(asset_path(a)) == Some(a),
        embedded_static_spec(rel) == Some(a) ==> rel == asset_path(a),
{
    reveal_strlit("css/notes.css");
    reveal_strlit("css/pure-min.css");
    reveal_strlit("css/pygments.css");
    reveal_strlit("css/syntect.css");
    reveal_strlit("js/notes.js");
    reveal_strlit("img/rusty-notes.png");
    assert("css/notes.css"@ != "css/pure-min.css"@) by { assert("css/notes.css"@.len() != "css/pure-min.css"@.len()); }
    assert("css/notes.css"@ != "css/pygments.css"@) by { assert("css/notes.css"@.len() != "css/pygments.css"@.len()); }
    assert("css/notes.css"@ != "css/syntect.css"@) by { assert("css/notes.css"@[4] != "css/syntect.css"@[4]); }
    assert("css/notes.css"@ != "js/notes.js"@) by { assert("css/notes.css"@.len() != "js/notes.js"@.len()); }
    assert("css/notes.css"@ != "img/rusty-notes.png"@) by { assert("css/notes.css"@.len() != "img/rusty-notes.png"@.len()); }
    assert("css/pure-min.css"@ != "css/pygments.css"@) by { assert("css/pure-min.css"@[5] != "css/pygments.css"@[5]); }
    assert("css/pure-min.css"@ != "css/syntect.css"@) by { assert("css/pure-min.css"@.len() != "css/syntect.css"@.len()); }
    assert("css/pure-min.css"@ != "js/notes.js"@) by { assert("css/pure-min.css"@.len() != "js/notes.js"@.len()); }
    assert("css/pure-min.css"@ != "img/rusty-notes.png"@) by { assert("css/pure-min.css"@.len() != "img/rusty-notes.png"@.len()); }
    assert("css/pygments.css"@ != "css/syntect.css"@) by { assert("css/pygments.css"@.len() != "css/syntect.css"@.len()); }
    assert("css/pygments.css"@ != "js/notes.js"@) by { assert("css/pygments.css"@.len() != "js/notes.js"@.len()); }
    assert("css/pygments.css"@ != "img/rusty-notes.png"@) by { assert("css/pygments.css"@.len() != "img/rusty-notes.png"@.len()); }
    assert("css/syntect.css"@ != "js/notes.js"@) by { assert("css/syntect.css"@.len() != "js/notes.js"@.len()); }
    assert("css/syntect.css"@ != "img/rusty-notes.png"@) by { assert("css/syntect.css"@.len() != "img/rusty-notes.png"@.len()); }
    assert("js/notes.js"@ != "img/rusty-notes.png"@) by { assert("js/notes.js"@.len() != "img/rusty-notes.png"@.len()); }
}

} // verus!
