//! Note listings: titles, modification order, categories, new notes and
//! rendering.

use crate::cache::{
    cache_delete, cache_get, cache_set_1h, entries_after_store, lookup_allows, order_after_store,
    without_key, Cache,
};
use crate::highlighter::{highlight_html_checked, highlight_succeeds, highlighted};
use crate::patterns::{
    is_literal_char, is_literal_pattern, is_name_char, named_replacement, one_match_then,
    regex_replace_all, regex_replaced, single_capture_pattern,
};
use crate::text::{
    contains, contains_spec, ends_with, push_str, replace_all_spec, replace_first,
    replace_first_spec, split_char, split_spec, strip_both, strip_start, trim, trim_class,
    trim_spec, trim_start_class, CharClass,
};
use crate::types::{
    modified_text, title_cache_key, NoteItem, NoteItemView, DISPLAY_OFFSET_SECS, MAX_TIMESTAMP,
    MIN_TIMESTAMP,
};
use vstd::prelude::*;

verus! {

broadcast use vstd::seq_lib::group_to_multiset_ensures;

// ---------------------------------------------------------------------------
// Titles
// ---------------------------------------------------------------------------

/// The title of a note whose first line is `line`: the line without its
/// leading `#`s (kept when the line is nothing but `#`s), trimmed.
pub open spec fn title_spec(line: Seq<char>) -> Seq<char> {
    let rest = strip_start(line, CharClass::Exactly('#'));
    trim_spec(if rest.len() == 0 { line } else { rest })
}

/// The title for what reading the first line gave: nothing when it failed.
pub open spec fn title_of_read(first_line: Option<Seq<char>>) -> Seq<char> {
    match first_line {
        Some(line) => title_spec(line),
        None => Seq::<char>::empty(),
    }
}

/// The title of a note from its first line (as read, with its line ending),
/// or an empty title when the line could not be read.
pub fn title_string(first_line: Option<&str>) -> (t: String)
    ensures
        t@ == title_of_read(match first_line { Some(l) => Some(l@), None => None }),
{
    match first_line {
        None => String::new(),
        Some(line) => {
            let rest = trim_start_class(line, CharClass::Exactly('#'));
            if rest.as_str().is_empty() {
                trim(line)
            } else {
                trim(rest.as_str())
            }
        },
    }
}

/// The title cached for `note`, if any is still fresh.
pub fn lookup_note_title(cache: &Cache, note: &NoteItem) -> (t: Option<String>)
    ensures
        lookup_allows(cache@, title_cache_key(note.file_path@), match t { Some(v) => Some(v@), None => None }),
{
    let key = note.get_cache_key_for_title();
    cache_get(cache, key.as_str())
}

/// The title of `note` from its first line, kept in the cache for an hour.
pub fn store_note_title(cache: &mut Cache, note: &NoteItem, first_line: Option<&str>) -> (t: String)
    requires
        old(cache).wf(),
    ensures
        final(cache).wf(),
        t@ == title_of_read(match first_line { Some(l) => Some(l@), None => None }),
        final(cache)@ == entries_after_store(
            old(cache)@,
            old(cache).recency(),
            title_cache_key(note.file_path@),
            t@,
        ),
        final(cache).recency() == order_after_store(old(cache).recency(), title_cache_key(note.file_path@)),
{
    let key = note.get_cache_key_for_title();
    let title = title_string(first_line);
    cache_set_1h(cache, key.as_str(), title.as_str());
    title
}

/// Forgets the cached title of the note at `file_path`.
pub fn reset_note_title_cache(cache: &mut Cache, file_path: &str)
    requires
        old(cache).wf(),
    ensures
        final(cache).wf(),
        final(cache)@ == old(cache)@.remove(title_cache_key(file_path@)),
        final(cache).recency() == without_key(old(cache).recency(), title_cache_key(file_path@)),
{
    let note = NoteItem::new(file_path);
    let key = note.get_cache_key_for_title();
    cache_delete(cache, key.as_str());
}

// ---------------------------------------------------------------------------
// Listings in modification order
// ---------------------------------------------------------------------------

/// The plain values of a sequence of notes.
pub open spec fn note_views(s: Seq<NoteItem>) -> Seq<NoteItemView> {
    s.map_values(|n: NoteItem| n@)
}

/// A timestamp whose time in UTC+8 `time` can show.
pub open spec fn timestamp_in_range(ts: i64) -> bool {
    MIN_TIMESTAMP <= ts && ts + DISPLAY_OFFSET_SECS <= MAX_TIMESTAMP
}

/// A note freshly listed for `path`, modified at `ts`.
pub open spec fn listed_note(path: Seq<char>, ts: i64) -> NoteItemView {
    NoteItemView {
        file_path: path,
        root_dir: Seq::<char>::empty(),
        title: Seq::<char>::empty(),
        file_name: Seq::<char>::empty(),
        modified_ts: ts,
        modified_str: modified_text(ts),
    }
}

/// `s` with `x` inserted after the last note at least as recent as `x`
/// (the step of a stable sort, newest first).
pub open spec fn insert_by_modified(s: Seq<NoteItemView>, x: NoteItemView) -> Seq<NoteItemView>
    decreases s.len(),
{
    if s.len() == 0 || s.last().modified_ts >= x.modified_ts {
        s.push(x)
    } else {
        insert_by_modified(s.drop_last(), x).push(s.last())
    }
}

/// `s` stably sorted newest first (`sort_by` on `modified_ts`, descending).
pub open spec fn sort_by_modified(s: Seq<NoteItemView>) -> Seq<NoteItemView>
    decreases s.len(),
{
    if s.len() == 0 {
        s
    } else {
        insert_by_modified(sort_by_modified(s.drop_last()), s.last())
    }
}

/// Newest first.
pub open spec fn newest_first(s: Seq<NoteItemView>) -> bool {
    forall|i: int, j: int| 0 <= i < j < s.len() ==> s[i].modified_ts >= s[j].modified_ts
}

/// At most `limit` notes, where a `limit` of zero means all of them.
pub open spec fn limited(s: Seq<NoteItemView>, limit: usize) -> Seq<NoteItemView> {
    if limit > 0 && limit < s.len() {
        s.take(limit as int)
    } else {
        s
    }
}

proof fn lemma_insert_by_modified(s: Seq<NoteItemView>, x: NoteItemView)
    ensures
        insert_by_modified(s, x).to_multiset() == s.to_multiset().insert(x),
        newest_first(s) ==> newest_first(insert_by_modified(s, x)),
        insert_by_modified(s, x).len() == s.len() + 1,
        forall|k: int|
            0 <= k < insert_by_modified(s, x).len() ==> #[trigger] insert_by_modified(s, x)[k] == x
                || s.contains(insert_by_modified(s, x)[k]),
    decreases s.len(),
{
    if s.len() == 0 || s.last().modified_ts >= x.modified_ts {
        assert forall|k: int| 0 <= k < s.len() implies s.contains(#[trigger] s[k]) by {}
    } else {
        let t = s.drop_last();
        lemma_insert_by_modified(t, x);
        let r = insert_by_modified(t, x);
        assert(s == t.push(s.last()));
        assert(r.push(s.last()).to_multiset() == r.to_multiset().insert(s.last()));
        assert(t.push(s.last()).to_multiset() == t.to_multiset().insert(s.last()));
        assert(r.push(s.last()).to_multiset() =~= s.to_multiset().insert(x));
        assert forall|k: int|
            0 <= k < r.push(s.last()).len() implies #[trigger] r.push(s.last())[k] == x || s.contains(
            r.push(s.last())[k],
        ) by {
            if k < r.len() {
                if r[k] != x {
                    let j = choose|j: int| 0 <= j < t.len() && t[j] == r[k];
                    assert(s[j] == t[j]);
                }
            } else {
                assert(s[s.len() - 1] == s.last());
            }
        }
        if newest_first(s) {
            assert forall|i: int, j: int|
                0 <= i < j < r.push(s.last()).len() implies r.push(s.last())[i].modified_ts
                >= r.push(s.last())[j].modified_ts by {
                if j == r.len() {
                    let e = r[i];
                    if e != x {
                        let m = choose|m: int| 0 <= m < t.len() && t[m] == e;
                        assert(s[m] == t[m]);
                    }
                }
            }
        }
    }
}

/// The stable sort gives the same notes, newest first.
pub proof fn law_sort_by_modified(s: Seq<NoteItemView>)
    ensures
        sort_by_modified(s).to_multiset() == s.to_multiset(),
        newest_first(sort_by_modified(s)),
        sort_by_modified(s).len() == s.len(),
    decreases s.len(),
{
    if s.len() > 0 {
        let t = s.drop_last();
        law_sort_by_modified(t);
        lemma_insert_by_modified(sort_by_modified(t), s.last());
        assert(s == t.push(s.last()));
    }
}

proof fn lemma_insert_at(s: Seq<NoteItemView>, x: NoteItemView, p: int)
    requires
        0 <= p <= s.len(),
        forall|j: int| p <= j < s.len() ==> (#[trigger] s[j]).modified_ts < x.modified_ts,
        p == 0 || s[p - 1].modified_ts >= x.modified_ts,
    ensures
        insert_by_modified(s, x) == s.insert(p, x),
    decreases s.len() - p,
{
    if p == s.len() {
        assert(s.push(x) == s.insert(p, x));
    } else {
        let t = s.drop_last();
        assert(s.last() == s[s.len() - 1]);
        lemma_insert_at(t, x, p);
        assert(t.insert(p, x).push(s.last()) == s.insert(p, x));
    }
}

/// Inserts `item` after the last note of `list` at least as recent as it.
fn insert_note_by_modified(list: &mut Vec<NoteItem>, item: NoteItem)
    ensures
        note_views(final(list)@) == insert_by_modified(note_views(old(list)@), item@),
{
    let ts = item.modified_ts;
    let mut p = list.len();
    while p > 0 && list[p - 1].modified_ts < ts
        invariant
            p <= list.len(),
            forall|j: int| p <= j < list.len() ==> (#[trigger] list@[j]).modified_ts < ts,
        decreases p,
    {
        p = p - 1;
    }
    let ghost before = note_views(list@);
    proof {
        assert forall|j: int| p <= j < before.len() implies (#[trigger] before[j]).modified_ts < ts by {
            assert(before[j] == list@[j]@);
        }
        if p > 0 {
            assert(before[p - 1] == list@[p - 1]@);
        }
        lemma_insert_at(before, item@, p as int);
    }
    let ghost item_view = item@;
    list.insert(p, item);
    assert(note_views(list@) =~= before.insert(p as int, item_view));
}

/// The notes listed for `stats` (paths with their modification times).
pub open spec fn listed_notes(stats: Seq<(Seq<char>, i64)>) -> Seq<NoteItemView> {
    stats.map_values(|e: (Seq<char>, i64)| listed_note(e.0, e.1))
}

/// The notes for the files `stats` (each path with its modification time),
/// newest first, at most `limit` of them (all when `limit` is zero); paths,
/// times and their text filled in, the rest left empty.
pub fn fetch_all_notes(stats: &Vec<(String, i64)>, limit: usize) -> (notes: Vec<NoteItem>)
    requires
        forall|i: int| 0 <= i < stats.len() ==> timestamp_in_range(#[trigger] stats@[i].1),
    ensures
        note_views(notes@) == limited(sort_by_modified(listed_notes(stats.deep_view())), limit),
{
    let mut notes: Vec<NoteItem> = Vec::new();
    let ghost all = listed_notes(stats.deep_view());
    let mut i: usize = 0;
    while i < stats.len()
        invariant
            i <= stats.len(),
            all == listed_notes(stats.deep_view()),
            forall|i: int| 0 <= i < stats.len() ==> timestamp_in_range(#[trigger] stats@[i].1),
            note_views(notes@) == sort_by_modified(all.take(i as int)),
        decreases stats.len() - i,
    {
        let mut item = NoteItem::new(stats[i].0.as_str());
        item.set_modified(stats[i].1);
        assert(item@ == all[i as int]);
        insert_note_by_modified(&mut notes, item);
        assert(all.take(i + 1).drop_last() == all.take(i as int));
        i = i + 1;
    }
    assert(all.take(stats.len() as int) == all);
    if limit > 0 {
        let ghost before = note_views(notes@);
        notes.truncate(limit);
        assert(note_views(notes@) =~= limited(before, limit));
    }
    notes
}

/// The notes listed for `stats`, skipping the files whose metadata could
/// not be read (`None`).
pub open spec fn present_notes(stats: Seq<(Seq<char>, Option<i64>)>) -> Seq<NoteItemView>
    decreases stats.len(),
{
    if stats.len() == 0 {
        Seq::<NoteItemView>::empty()
    } else {
        let pre = present_notes(stats.drop_last());
        match stats.last().1 {
            Some(ts) => pre.push(listed_note(stats.last().0, ts)),
            None => pre,
        }
    }
}

/// The notes for the files `stats`, in the given order, skipping each file
/// whose metadata could not be read (`None`); paths, times and their text
/// filled in, the rest left empty.
pub fn note_path_to_items(stats: &Vec<(String, Option<i64>)>) -> (notes: Vec<NoteItem>)
    requires
        forall|i: int|
            0 <= i < stats.len() ==> (#[trigger] stats@[i].1 matches Some(ts) ==> timestamp_in_range(ts)),
    ensures
        note_views(notes@) == present_notes(stats.deep_view()),
{
    let mut notes: Vec<NoteItem> = Vec::new();
    let ghost all = stats.deep_view();
    let mut i: usize = 0;
    while i < stats.len()
        invariant
            i <= stats.len(),
            all == stats.deep_view(),
            forall|i: int|
                0 <= i < stats.len() ==> (#[trigger] stats@[i].1 matches Some(ts) ==> timestamp_in_range(ts)),
            note_views(notes@) == present_notes(all.take(i as int)),
        decreases stats.len() - i,
    {
        assert(all.take(i + 1).drop_last() == all.take(i as int));
        assert(all[i as int] == (stats@[i as int].0@, stats@[i as int].1));
        match stats[i].1 {
            Some(ts) => {
                let mut item = NoteItem::new(stats[i].0.as_str());
                item.set_modified(ts);
                let ghost before = note_views(notes@);
                notes.push(item);
                assert(note_views(notes@) =~= before.push(item@));
            },
            None => {},
        }
        i = i + 1;
    }
    assert(all.take(stats.len() as int) == all);
    notes
}

// ---------------------------------------------------------------------------
// Where a note sits
// ---------------------------------------------------------------------------

/// What `std::path::Path::parent` gives for the path `p`.
pub uninterp spec fn path_parent_of(p: Seq<char>) -> Option<Seq<char>>;

/// What `std::path::Path::file_name` gives for the path `p`.
pub uninterp spec fn path_file_name_of(p: Seq<char>) -> Option<Seq<char>>;

/// A path of one plain component: not empty, without `/`, and neither `.`
/// nor `..`.
pub open spec fn is_plain_name(p: Seq<char>) -> bool {
    p.len() > 0 && !p.contains('/') && p != "."@ && p != ".."@
}

/// A path made of plain components joined by single `/`s, with or without a
/// leading `/` and without a trailing one (such as `/home/u/notes/a.md`).
pub open spec fn is_simple_path(p: Seq<char>) -> bool {
    let pieces = split_spec(p, '/');
    &&& p.len() > 0
    &&& forall|k: int|
        0 <= k < pieces.len() ==> (k == 0 && p[0] == '/') || is_plain_name(#[trigger] pieces[k])
}

/// The last component of a simple path.
pub open spec fn simple_file_name(p: Seq<char>) -> Seq<char> {
    split_spec(p, '/').last()
}

/// A simple path without its last component: the empty path for a single
/// component, the root `/` for a single component under it, and otherwise
/// everything before the last `/`.
pub open spec fn simple_parent(p: Seq<char>) -> Seq<char> {
    let pieces = split_spec(p, '/');
    if pieces.len() == 1 {
        Seq::<char>::empty()
    } else if pieces.len() == 2 && p[0] == '/' {
        "/"@
    } else {
        p.take(p.len() - pieces.last().len() - 1)
    }
}

/// `Path::new(p).parent()`, as a string. As std documents it ("the path
/// without its final component"), a simple path's parent is everything
/// before its last `/`, the root for a component right under it, and the
/// empty path for a single component; other paths go by std's component
/// rules, which are not stated here.
#[verifier::external_body]
fn path_parent(p: &str) -> (r: Option<String>)
    ensures
        r.deep_view() == path_parent_of(p@),
        is_simple_path(p@) ==> r.deep_view() == Some(simple_parent(p@)),
{
    match std::path::Path::new(p).parent() {
        Some(d) => Some(d.to_string_lossy().into_owned()),
        None => None,
    }
}

/// `Path::new(p).file_name()`, as a string. As std documents it ("the final
/// component of the path"), a simple path's file name is its last
/// component; other paths go by std's component rules, which are not stated
/// here.
#[verifier::external_body]
fn path_file_name(p: &str) -> (r: Option<String>)
    ensures
        r.deep_view() == path_file_name_of(p@),
        is_simple_path(p@) ==> r.deep_view() == Some(simple_file_name(p@)),
{
    match std::path::Path::new(p).file_name() {
        Some(n) => Some(n.to_string_lossy().into_owned()),
        None => None,
    }
}

/// The category of a note in the directory `parent`: `parent` without the
/// first occurrence of `strip_prefix` (its surrounding `/`s trimmed), then
/// without leading `/`s.
pub open spec fn root_dir_spec(parent: Seq<char>, strip_prefix: Seq<char>) -> Seq<char> {
    strip_start(
        replace_first_spec(parent, strip_both(strip_prefix, CharClass::Exactly('/')), Seq::<char>::empty()),
        CharClass::Exactly('/'),
    )
}

/// The category of a note in the directory `parent`.
pub fn root_dir_of(parent: &str, strip_prefix: &str) -> (r: String)
    ensures
        r@ == root_dir_spec(parent@, strip_prefix@),
{
    let prefix = trim_class(strip_prefix, CharClass::Exactly('/'));
    let rest = replace_first(parent, prefix.as_str(), "");
    proof { reveal_strlit(""); }
    trim_start_class(rest.as_str(), CharClass::Exactly('/'))
}

/// The file name shown for a note at `path`: its last component, or
/// `no-name` when it has none.
pub open spec fn file_name_spec(path: Seq<char>) -> Seq<char> {
    match path_file_name_of(path) {
        Some(n) => n,
        None => "no-name"@,
    }
}

/// A listed note `n` once its category, file name and title are filled in.
pub open spec fn described_note(n: NoteItemView, strip_prefix: Seq<char>, title: Seq<char>) -> NoteItemView {
    NoteItemView {
        root_dir: match path_parent_of(n.file_path) {
            Some(d) => root_dir_spec(d, strip_prefix),
            None => n.root_dir,
        },
        file_name: file_name_spec(n.file_path),
        title,
        ..n
    }
}

/// Fills in the category (from the note's directory, relative to
/// `strip_prefix`), the file name and the title of a listed note.
pub fn describe_note(note: &mut NoteItem, strip_prefix: &str, title: &str)
    ensures
        final(note)@ == described_note(old(note)@, strip_prefix@, title@),
        is_simple_path(old(note).file_path@) ==> final(note).root_dir@ == root_dir_spec(
            simple_parent(old(note).file_path@),
            strip_prefix@,
        ) && final(note).file_name@ == simple_file_name(old(note).file_path@),
{
    let parent = path_parent(note.file_path.as_str());
    let file_name = match path_file_name(note.file_path.as_str()) {
        Some(n) => n,
        None => "no-name".to_string(),
    };
    match parent {
        Some(d) => {
            let root_dir = root_dir_of(d.as_str(), strip_prefix);
            note.set_root_dir(root_dir.as_str());
        },
        None => {},
    }
    note.set_file_name(file_name.as_str());
    note.set_title(title);
}

// ---------------------------------------------------------------------------
// Walking the notes directory
// ---------------------------------------------------------------------------

/// The paths a walk of the notes directory keeps: each entry is a path with
/// whether it exists (a dangling link does not), and the walk stops at the
/// first entry it could not read (`None`). Kept are the existing paths that
/// end with `suffix` and do not lie under a `/subusers/` directory.
pub open spec fn walked_paths(entries: Seq<Option<(Seq<char>, bool)>>, suffix: Seq<char>) -> Seq<Seq<char>>
    decreases entries.len(),
{
    if entries.len() == 0 {
        Seq::<Seq<char>>::empty()
    } else {
        match entries[0] {
            None => Seq::<Seq<char>>::empty(),
            Some((path, exists)) => {
                let rest = walked_paths(entries.drop_first(), suffix);
                if suffix.is_suffix_of(path) && exists && !contains_spec(path, "/subusers/"@) {
                    seq![path] + rest
                } else {
                    rest
                }
            },
        }
    }
}

/// The paths a walk of the notes directory keeps (see `walked_paths`).
pub fn select_walked_paths(entries: &Vec<Option<(String, bool)>>, suffix: &str) -> (paths: Vec<String>)
    ensures
        paths.deep_view() == walked_paths(entries.deep_view(), suffix@),
{
    let mut paths: Vec<String> = Vec::new();
    let ghost all = entries.deep_view();
    let mut i: usize = 0;
    assert(all.skip(0) == all);
    assert(paths.deep_view() + walked_paths(all, suffix@) == walked_paths(all, suffix@));
    while i < entries.len()
        invariant
            i <= entries.len(),
            all == entries.deep_view(),
            forall|j: int| 0 <= j < i ==> (#[trigger] all[j]) is Some,
            paths.deep_view() + walked_paths(all.skip(i as int), suffix@) == walked_paths(all, suffix@),
        decreases entries.len() - i,
    {
        assert(all.skip(i as int).drop_first() == all.skip(i + 1));
        assert(all.skip(i as int)[0] == all[i as int]);
        match &entries[i] {
            None => {
                assert(paths.deep_view() + Seq::<Seq<char>>::empty() == paths.deep_view());
                return paths;
            },
            Some((path, exists)) => {
                let keep = ends_with(path.as_str(), suffix) && *exists && !contains(
                    path.as_str(),
                    "/subusers/",
                );
                if keep {
                    let ghost before = paths.deep_view();
                    paths.push(path.clone());
                    assert(paths.deep_view() == before.push(path@));
                    assert(before + (seq![path@] + walked_paths(all.skip(i + 1), suffix@)) == before.push(path@) + walked_paths(all.skip(i + 1), suffix@));
                }
            },
        }
        i = i + 1;
    }
    assert(all.skip(entries.len() as int) == Seq::<Option<(Seq<char>, bool)>>::empty());
    assert(paths.deep_view() + Seq::<Seq<char>>::empty() == paths.deep_view());
    paths
}

// ---------------------------------------------------------------------------
// New notes and searches
// ---------------------------------------------------------------------------

/// Where a note asked for as `md_path` goes: `name` alone goes to the
/// `notes` category, `category/name` to `category`, and a deeper path is
/// refused; `.md` is added to a name that lacks it.
pub open spec fn new_note_target_spec(md_path: Seq<char>) -> Result<(Seq<char>, Seq<char>), Seq<char>> {
    let parts = split_spec(md_path, '/');
    if parts.len() > 2 {
        Err("only one level supported"@)
    } else {
        let category = if parts.len() == 1 { "notes"@ } else { parts[0] };
        let name = if parts.len() == 1 { parts[0] } else { parts[1] };
        Ok((category, if ".md"@.is_suffix_of(name) { name } else { name + ".md"@ }))
    }
}

/// Where a note asked for as `md_path` goes: its category and file name, or
/// the message that refuses it.
pub fn new_note_target(md_path: &str) -> (r: Result<(String, String), String>)
    ensures
        match (r, new_note_target_spec(md_path@)) {
            (Ok((c, n)), Ok((sc, sn))) => c@ == sc && n@ == sn,
            (Err(m), Err(sm)) => m@ == sm,
            _ => false,
        },
{
    let parts = split_char(md_path, '/');
    proof { crate::text::lemma_split_join(md_path@, '/'); }
    if parts.len() > 2 {
        return Err("only one level supported".to_string());
    }
    let (category, name) = if parts.len() == 1 {
        ("notes".to_string(), parts[0].clone())
    } else {
        (parts[0].clone(), parts[1].clone())
    };
    assert(parts.deep_view()[0] == parts@[0]@);
    if parts.len() == 2 {
        assert(parts.deep_view()[1] == parts@[1]@);
    }
    if ends_with(name.as_str(), ".md") {
        Ok((category, name))
    } else {
        let mut file_name = name;
        push_str(&mut file_name, ".md");
        Ok((category, file_name))
    }
}

/// The note that a `touch::` query asks for: the part after its last `:`.
pub open spec fn touched_path(q: Seq<char>) -> Seq<char> {
    split_spec(q, ':').last()
}

/// What a search box query asks for.
pub enum SearchAction {
    /// `touch::name` or `touch::category/name`: create that note.
    CreateNote { category: String, file_name: String },
    /// A query that cannot be served, with the message to show.
    Reply(String),
    /// Any other query: search the notes for it.
    Search,
}

/// What the query `q` asks for: a query starting with `touch::` creates the
/// note named after its last `:`, any other query is a search.
pub fn get_notes_by_search(q: &str) -> (a: SearchAction)
    ensures
        !"touch::"@.is_prefix_of(q@) ==> a is Search,
        "touch::"@.is_prefix_of(q@) ==> match (a, new_note_target_spec(touched_path(q@))) {
            (SearchAction::CreateNote { category, file_name }, Ok((c, n))) => category@ == c
                && file_name@ == n,
            (SearchAction::Reply(m), Err(e)) => m@ == e,
            _ => false,
        },
{
    if !crate::text::starts_with(q, "touch::") {
        return SearchAction::Search;
    }
    let parts = split_char(q, ':');
    proof { crate::text::lemma_split_join(q@, ':'); }
    let last = parts.len() - 1;
    assert(parts.deep_view()[last as int] == parts@[last as int]@);
    match new_note_target(parts[last].as_str()) {
        Ok((category, file_name)) => SearchAction::CreateNote { category, file_name },
        Err(m) => SearchAction::Reply(m),
    }
}

// ---------------------------------------------------------------------------
// Rendering
// ---------------------------------------------------------------------------

/// The pattern of an opening `<collapse title="...">` tag.
pub open spec fn collapse_open_pattern() -> Seq<char> {
    "<collapse title=\"(?P<title>[^\"]+)\">"@
}

/// What an opening `<collapse>` tag becomes: a collapsed section headed by
/// its title.
pub open spec fn collapse_open_html() -> Seq<char> {
    "<div class=\"collap\"> <div class=\"collap-header\"> <summary> <b>${title}</b> </summary> </div> <div class=\"collap-content\" style=\"display: none;\">"@
}

/// `html` with its `<collapse title="...">` tags turned into collapsible
/// sections and its `</collapse>` tags into the two `</div>` that close them.
pub open spec fn expand_collapse_spec(html: Seq<char>) -> Seq<char> {
    let opened = match regex_replaced(collapse_open_pattern(), html, collapse_open_html()) {
        Some(h) => h,
        None => html,
    };
    replace_all_spec(opened, "</collapse>"@, "</div></div>"@)
}

/// An opening `<collapse>` tag with the title `t`.
pub open spec fn collapse_tag(t: Seq<char>) -> Seq<char> {
    "<collapse title=\""@ + t + "\">"@
}

/// The start of the collapsible section headed by the title `t`.
pub open spec fn collapse_section_start(t: Seq<char>) -> Seq<char> {
    "<div class=\"collap\"> <div class=\"collap-header\"> <summary> <b>"@ + t
        + "</b> </summary> </div> <div class=\"collap-content\" style=\"display: none;\">"@
}

/// A page that starts with an opening `<collapse>` tag titled `t`.
pub open spec fn opens_collapse(t: Seq<char>, rest: Seq<char>) -> Seq<char> {
    collapse_tag(t) + rest
}

/// Turns the `<collapse title="...">...</collapse>` tags of rendered notes
/// into collapsible sections. A page that opens with a `<collapse>` tag whose
/// title is any non-empty text without `"` (and holds no other opening tag)
/// gets that tag replaced by the start of a section headed by that title.
pub fn expand_collapse_tags(html: &str) -> (r: String)
    ensures
        r@ == expand_collapse_spec(html@),
        forall|t: Seq<char>, rest: Seq<char>|
            #![trigger opens_collapse(t, rest)]
            html@ == opens_collapse(t, rest) && t.len() > 0 && !t.contains('"') && !contains_spec(
                rest,
                "<collapse title=\""@,
            ) ==> r@ == replace_all_spec(
                collapse_section_start(t) + rest,
                "</collapse>"@,
                "</div></div>"@,
            ),
{
    proof {
        let l1 = "<collapse title=\""@;
        let l2 = "\">"@;
        let name = "title"@;
        let r1 = "<div class=\"collap\"> <div class=\"collap-header\"> <summary> <b>"@;
        let r2 = "</b> </summary> </div> <div class=\"collap-content\" style=\"display: none;\">"@;
        reveal_strlit("<collapse title=\"");
        reveal_strlit("\">");
        reveal_strlit("title");
        reveal_strlit("(?P<");
        reveal_strlit(">[^");
        reveal_strlit("]+)");
        reveal_strlit("${");
        reveal_strlit("}");
        reveal_strlit("<div class=\"collap\"> <div class=\"collap-header\"> <summary> <b>");
        reveal_strlit("</b> </summary> </div> <div class=\"collap-content\" style=\"display: none;\">");
        reveal_strlit("<collapse title=\"(?P<title>[^\"]+)\">");
        reveal_strlit("<div class=\"collap\"> <div class=\"collap-header\"> <summary> <b>${title}</b> </summary> </div> <div class=\"collap-content\" style=\"display: none;\">");
        assert(collapse_open_pattern() =~= l1 + "(?P<"@ + name + ">[^"@ + seq!['"'] + "]+)"@ + l2);
        assert forall|i: int| 0 <= i < l1.len() implies is_literal_char(#[trigger] l1[i]) by {}
        assert forall|i: int| 0 <= i < l2.len() implies is_literal_char(#[trigger] l2[i]) by {}
        assert forall|i: int| 0 <= i < name.len() implies is_name_char(#[trigger] name[i]) by {}
        assert(single_capture_pattern(collapse_open_pattern(), l1, name, '"', l2));
        assert(collapse_open_html() =~= r1 + "${"@ + name + "}"@ + r2);
        assert(!r1.contains('$')) by {
            if r1.contains('$') {
                let i = choose|i: int| 0 <= i < r1.len() && r1[i] == '$';
            }
        }
        assert(!r2.contains('$')) by {
            if r2.contains('$') {
                let i = choose|i: int| 0 <= i < r2.len() && r2[i] == '$';
            }
        }
        assert(named_replacement(collapse_open_html(), name, r1, r2));
    }
    let opened = match regex_replace_all(
        "<collapse title=\"(?P<title>[^\"]+)\">",
        html,
        "<div class=\"collap\"> <div class=\"collap-header\"> <summary> <b>${title}</b> </summary> </div> <div class=\"collap-content\" style=\"display: none;\">",
    ) {
        Some(h) => h,
        None => html.to_string(),
    };
    proof {
        reveal_strlit("</collapse>");
        reveal_strlit("</div></div>");
        assert(is_literal_char('<') && is_literal_char('/') && is_literal_char('c')
            && is_literal_char('o') && is_literal_char('l') && is_literal_char('a')
            && is_literal_char('p') && is_literal_char('s') && is_literal_char('e')
            && is_literal_char('>'));
        assert(is_literal_pattern("</collapse>"@));
        assert(!"</div></div>"@.contains('$')) by {
            if "</div></div>"@.contains('$') {
                let i = choose|i: int| 0 <= i < "</div></div>"@.len() && "</div></div>"@[i] == '$';
            }
        }
    }
    let r = match regex_replace_all("</collapse>", opened.as_str(), "</div></div>") {
        Some(h) => h,
        None => opened,
    };
    proof {
        let l1 = "<collapse title=\""@;
        let l2 = "\">"@;
        let name = "title"@;
        let r1 = "<div class=\"collap\"> <div class=\"collap-header\"> <summary> <b>"@;
        let r2 = "</b> </summary> </div> <div class=\"collap-content\" style=\"display: none;\">"@;
        assert forall|t: Seq<char>, rest: Seq<char>|
            #![trigger opens_collapse(t, rest)]
            html@ == opens_collapse(t, rest) && t.len() > 0 && !t.contains('"') && !contains_spec(
                rest,
                l1,
            ) implies r@ == replace_all_spec(
                collapse_section_start(t) + rest,
                "</collapse>"@,
                "</div></div>"@,
            ) by {
            assert(html@ == one_match_then(l1, t, l2, rest));
            assert(r1 + t + r2 + rest == collapse_section_start(t) + rest);
        }
    }
    r
}

/// The page text for a note: the HTML rendered from its Markdown, with its
/// code blocks highlighted and its collapse tags expanded; a not-found
/// message when the note does not exist (`None`). The result is `None` where
/// highlighting does not go through (`highlight_succeeds`): a code block in a
/// language `syntect` knows whose entities do not decode or whose rendering
/// fails.
pub fn render_doc(rendered: Option<&str>) -> (html: Option<String>)
    ensures
        match rendered {
            Some(h) => (html is Some <==> highlight_succeeds(h@)) && (html matches Some(p) ==> p@
                == expand_collapse_spec(highlighted(h@))),
            None => html matches Some(p) && p@ == "404 - no such note"@,
        },
{
    match rendered {
        None => Some("404 - no such note".to_string()),
        Some(h) => match highlight_html_checked(h) {
            Some(coloured) => Some(expand_collapse_tags(coloured.as_str())),
            None => None,
        },
    }
}

// ---------------------------------------------------------------------------
// Laws
// ---------------------------------------------------------------------------

/// Once a note's title is forgotten, looking it up finds nothing.
pub proof fn law_reset_title_forgets(cache_before: Map<Seq<char>, Seq<char>>, file_path: Seq<char>, r: Option<Seq<char>>)
    requires
        lookup_allows(cache_before.remove(title_cache_key(file_path)), title_cache_key(file_path), r),
    ensures
        r is None,
{
}

/// A note created from any path gets a file name ending with `.md`, and
/// neither its category nor its file name holds a `/`: notes sit one level
/// deep at most.
pub proof fn law_new_note_is_markdown(md_path: Seq<char>)
    ensures
        new_note_target_spec(md_path) matches Ok((c, n)) ==> ".md"@.is_suffix_of(n) && !c.contains('/')
            && !n.contains('/'),
{
    reveal_strlit(".md");
    reveal_strlit("notes");
    let parts = split_spec(md_path, '/');
    crate::text::lemma_split_join(md_path, '/');
    if parts.len() <= 2 {
        let name = if parts.len() == 1 { parts[0] } else { parts[1] };
        let category = if parts.len() == 1 { "notes"@ } else { parts[0] };
        assert(!name.contains('/'));
        assert(!category.contains('/')) by {
            if category.contains('/') {
                let i = choose|i: int| 0 <= i < category.len() && category[i] == '/';
                if parts.len() == 1 {
                    assert("notes"@[i] != '/');
                }
            }
        }
        if !".md"@.is_suffix_of(name) {
            let n = name + ".md"@;
            assert(n.subrange(n.len() - 3, n.len() as int) == ".md"@);
            assert(!n.contains('/')) by {
                if n.contains('/') {
                    let i = choose|i: int| 0 <= i < n.len() && n[i] == '/';
                    if i < name.len() {
                        assert(name[i] == '/');
                    } else {
                        assert(".md"@[i - name.len()] == '/');
                    }
                }
            }
        }
    }
}

/// A title has no whitespace at either end.
pub proof fn law_title_trimmed(first_line: Option<Seq<char>>)
    ensures
        trim_spec(title_of_read(first_line)) == title_of_read(first_line),
{
    match first_line {
        Some(line) => {
            let rest = strip_start(line, CharClass::Exactly('#'));
            crate::text::law_trim(if rest.len() == 0 { line } else { rest });
        },
        None => {
            assert(trim_spec(Seq::<char>::empty()) == Seq::<char>::empty());
        },
    }
}

/// Every path a walk keeps ends with the suffix, exists, and does not lie
/// under `/subusers/`.
pub proof fn law_walked_paths(entries: Seq<Option<(Seq<char>, bool)>>, suffix: Seq<char>)
    ensures
        forall|i: int|
            0 <= i < walked_paths(entries, suffix).len() ==> suffix.is_suffix_of(
                #[trigger] walked_paths(entries, suffix)[i],
            ) && !contains_spec(walked_paths(entries, suffix)[i], "/subusers/"@),
        walked_paths(entries, suffix).len() <= entries.len(),
    decreases entries.len(),
{
    if entries.len() > 0 {
        law_walked_paths(entries.drop_first(), suffix);
        let rest = walked_paths(entries.drop_first(), suffix);
        match entries[0] {
            None => {},
            Some((path, exists)) => {
                if suffix.is_suffix_of(path) && exists && !contains_spec(path, "/subusers/"@) {
                    let out = seq![path] + rest;
                    assert forall|i: int| 0 <= i < out.len() implies suffix.is_suffix_of(
                        #[trigger] out[i],
                    ) && !contains_spec(out[i], "/subusers/"@) by {
                        if i > 0 {
                            assert(out[i] == rest[i - 1]);
                        }
                    }
                }
            },
        }
    }
}

/// A listing holds at most `limit` notes (all when `limit` is zero), newest
/// first, each taken from the files listed.
pub proof fn law_fetch_all_notes(stats: Seq<(Seq<char>, i64)>, limit: usize)
    ensures
        newest_first(limited(sort_by_modified(listed_notes(stats)), limit)),
        limit > 0 ==> limited(sort_by_modified(listed_notes(stats)), limit).len() <= limit,
        limited(sort_by_modified(listed_notes(stats)), limit).len() <= stats.len(),
        forall|i: int|
            0 <= i < limited(sort_by_modified(listed_notes(stats)), limit).len()
                ==> listed_notes(stats).contains(
                #[trigger] limited(sort_by_modified(listed_notes(stats)), limit)[i],
            ),
{
    let all = listed_notes(stats);
    let sorted = sort_by_modified(all);
    law_sort_by_modified(all);
    let out = limited(sorted, limit);
    assert forall|i: int| 0 <= i < out.len() implies all.contains(#[trigger] out[i]) by {
        assert(out[i] == sorted[i]);
        assert(sorted.to_multiset().count(sorted[i]) > 0);
    }
}

/// Where a new note goes, in terms of the path asked for: the category is
/// `notes` for a bare name and the part before the `/` otherwise; the file
/// name is the part after the last `/`, as it is when it already ends with
/// `.md` and with `.md` added when it does not; and the path is refused
/// exactly when it holds more than one `/`.
pub proof fn law_new_note_target(md_path: Seq<char>)
    ensures
        new_note_target_spec(md_path) is Ok <==> crate::text::count_char(md_path, '/') <= 1,
        new_note_target_spec(md_path) is Err ==> new_note_target_spec(md_path) == Err::<(Seq<char>, Seq<char>), Seq<char>>(
            "only one level supported"@,
        ),
        new_note_target_spec(md_path) matches Ok((c, n)) ==> {
            let last = split_spec(md_path, '/').last();
            &&& c == (if crate::text::count_char(md_path, '/') == 0 {
                "notes"@
            } else {
                split_spec(md_path, '/')[0]
            })
            &&& ".md"@.is_suffix_of(last) ==> n == last
            &&& !".md"@.is_suffix_of(last) ==> n == last + ".md"@
        },
{
    crate::text::lemma_split_join(md_path, '/');
}

} // verus!
