use rusty_notes::cache::{cache_delete, cache_get, cache_set_1h, Cache};
use rusty_notes::notes::utils::{
    describe_note, expand_collapse_tags, fetch_all_notes, get_notes_by_search, lookup_note_title,
    new_note_target, note_path_to_items, render_doc, reset_note_title_cache, root_dir_of,
    select_walked_paths, store_note_title, title_string, SearchAction,
};
use rusty_notes::types::NoteItem;

#[test]
fn note_titles_from_first_line() {
    assert_eq!(title_string(Some("# Hello World\n")), "Hello World");
    assert_eq!(title_string(Some("### Deep  \r\n")), "Deep");
    assert_eq!(title_string(Some("No hashes\n")), "No hashes");
    assert_eq!(title_string(Some("###")), "###");
    assert_eq!(title_string(Some("##\n")), "");
    assert_eq!(title_string(Some("# #tag\n")), "#tag");
    assert_eq!(title_string(Some("")), "");
    assert_eq!(title_string(None), "");
}

#[test]
fn titles_are_trimmed() {
    for line in ["#  a b  \n", "x", "## \t y\t\n", "  z"] {
        let t = title_string(Some(line));
        assert_eq!(t, t.trim());
    }
}

#[test]
fn cache_stores_reads_and_forgets() {
    let mut cache = Cache::new();
    assert_eq!(cache_get(&cache, "k"), None);
    cache_set_1h(&mut cache, "k", "v");
    assert_eq!(cache_get(&cache, "k"), Some("v".to_string()));
    cache_set_1h(&mut cache, "other", "w");
    cache_set_1h(&mut cache, "k", "v2");
    assert_eq!(cache_get(&cache, "k"), Some("v2".to_string()));
    assert_eq!(cache_get(&cache, "other"), Some("w".to_string()));
    cache_delete(&mut cache, "k");
    assert_eq!(cache_get(&cache, "k"), None);
    assert_eq!(cache_get(&cache, "other"), Some("w".to_string()));
}

#[test]
fn cache_keeps_at_most_a_thousand_entries() {
    let mut cache = Cache::new();
    for i in 0..1001 {
        cache_set_1h(&mut cache, &format!("k{}", i), "v");
    }
    assert_eq!(cache_get(&cache, "k0"), None);
    assert_eq!(cache_get(&cache, "k1"), Some("v".to_string()));
    assert_eq!(cache_get(&cache, "k1000"), Some("v".to_string()));
}

#[test]
fn full_cache_drops_the_entry_stored_longest_ago() {
    let mut cache = Cache::new();
    for i in 0..1000 {
        cache_set_1h(&mut cache, &format!("k{}", i), "v");
    }
    // storing k0 again makes k1 the oldest
    cache_set_1h(&mut cache, "k0", "again");
    cache_set_1h(&mut cache, "new", "n");
    assert_eq!(cache_get(&cache, "k1"), None);
    assert_eq!(cache_get(&cache, "k0"), Some("again".to_string()));
    assert_eq!(cache_get(&cache, "k2"), Some("v".to_string()));
    assert_eq!(cache_get(&cache, "new"), Some("n".to_string()));
}

#[test]
fn note_title_cache_round_trip() {
    let mut cache = Cache::new();
    let note = NoteItem::new("/notes/a.md");
    assert_eq!(lookup_note_title(&cache, &note), None);
    let t = store_note_title(&mut cache, &note, Some("# Title\n"));
    assert_eq!(t, "Title");
    assert_eq!(lookup_note_title(&cache, &note), Some("Title".to_string()));
    reset_note_title_cache(&mut cache, "/notes/a.md");
    assert_eq!(lookup_note_title(&cache, &note), None);
}

#[test]
fn cache_key_for_title() {
    let note = NoteItem::new("/x/y.md");
    assert_eq!(note.get_cache_key_for_title(), "rusty-notes-title-/x/y.md");
    let other = NoteItem::new("/x/z.md");
    assert_ne!(note.get_cache_key_for_title(), other.get_cache_key_for_title());
}

#[test]
fn modified_time_shown_in_utc_plus_8() {
    let mut n = NoteItem::new("a.md");
    n.set_modified(0);
    assert_eq!(n.modified_ts, 0);
    assert_eq!(n.modified_str, "1970-01-01 08:00");
    n.set_modified(1_546_300_800);
    assert_eq!(n.modified_str, "2019-01-01 08:00");
    n.set_modified(1_700_000_000);
    assert_eq!(n.modified_str, "2023-11-15 06:13");
    assert_eq!(n.file_path, "a.md");
    assert_eq!(n.title, "");
}

#[test]
fn setters_fill_one_field() {
    let mut n = NoteItem::new("p.md");
    n.set_title("T");
    n.set_file_name("F");
    n.set_root_dir("R");
    assert_eq!((n.title.as_str(), n.file_name.as_str(), n.root_dir.as_str()), ("T", "F", "R"));
    assert_eq!(n.file_path, "p.md");
}

#[test]
fn listing_is_newest_first_and_limited() {
    let stats = vec![
        ("a.md".to_string(), 10),
        ("b.md".to_string(), 30),
        ("c.md".to_string(), 10),
        ("d.md".to_string(), 20),
    ];
    let all: Vec<String> = fetch_all_notes(&stats, 0).into_iter().map(|n| n.file_path).collect();
    assert_eq!(all, vec!["b.md", "d.md", "a.md", "c.md"]);
    let two: Vec<String> = fetch_all_notes(&stats, 2).into_iter().map(|n| n.file_path).collect();
    assert_eq!(two, vec!["b.md", "d.md"]);
    let many = fetch_all_notes(&stats, 37);
    assert_eq!(many.len(), 4);
    for w in many.windows(2) {
        assert!(w[0].modified_ts >= w[1].modified_ts);
    }
    assert!(fetch_all_notes(&Vec::new(), 3).is_empty());
}

#[test]
fn listing_skips_unreadable_files() {
    let stats = vec![
        ("a.md".to_string(), Some(5)),
        ("b.md".to_string(), None),
        ("c.md".to_string(), Some(1)),
    ];
    let notes = note_path_to_items(&stats);
    let paths: Vec<&str> = notes.iter().map(|n| n.file_path.as_str()).collect();
    assert_eq!(paths, vec!["a.md", "c.md"]);
    assert_eq!(notes[0].modified_ts, 5);
}

#[test]
fn category_and_file_name_of_a_note() {
    let mut n = NoteItem::new("/home/u/rusty-notes/cat/sub/a.md");
    describe_note(&mut n, "/home/u/rusty-notes/", "Title");
    assert_eq!(n.root_dir, "cat/sub");
    assert_eq!(n.file_name, "a.md");
    assert_eq!(n.title, "Title");
    let mut top = NoteItem::new("/home/u/rusty-notes/a.md");
    describe_note(&mut top, "/home/u/rusty-notes", "");
    assert_eq!(top.root_dir, "");
    let mut bare = NoteItem::new("..");
    describe_note(&mut bare, "/", "");
    assert_eq!(bare.file_name, "no-name");
    let mut plain = NoteItem::new("a.md");
    describe_note(&mut plain, "/n", "");
    assert_eq!(plain.file_name, "a.md");
    assert_eq!(plain.root_dir, "");
    for path in ["/a/b/c.md", "a/b.md", "/c.md", "c.md", "/home/u/rusty-notes/x/y/z.md"] {
        let mut n = NoteItem::new(path);
        describe_note(&mut n, "", "");
        let p = std::path::Path::new(path);
        assert_eq!(n.file_name, p.file_name().unwrap().to_string_lossy());
        let parent = p.parent().unwrap().to_string_lossy().into_owned();
        assert_eq!(n.root_dir, parent.trim_start_matches('/'));
    }
    assert_eq!(root_dir_of("x/notes/y", "/notes/"), "x//y");
    assert_eq!(root_dir_of("/a/b", "/"), "a/b");
}

#[test]
fn walk_keeps_markdown_outside_subusers() {
    let entries = vec![
        Some(("/n/a.md".to_string(), true)),
        Some(("/n/b.txt".to_string(), true)),
        Some(("/n/gone.md".to_string(), false)),
        Some(("/n/subusers/c.md".to_string(), true)),
        Some(("/n/d.md".to_string(), true)),
        None,
        Some(("/n/e.md".to_string(), true)),
    ];
    assert_eq!(select_walked_paths(&entries, ".md"), vec!["/n/a.md", "/n/d.md"]);
}

#[test]
fn new_note_targets() {
    assert_eq!(new_note_target("foo"), Ok(("notes".to_string(), "foo.md".to_string())));
    assert_eq!(new_note_target("foo.md"), Ok(("notes".to_string(), "foo.md".to_string())));
    assert_eq!(new_note_target("cat/foo"), Ok(("cat".to_string(), "foo.md".to_string())));
    assert_eq!(new_note_target("a/b/c"), Err("only one level supported".to_string()));
}

#[test]
fn search_queries() {
    match get_notes_by_search("touch::cat/x") {
        SearchAction::CreateNote { category, file_name } => {
            assert_eq!(category, "cat");
            assert_eq!(file_name, "x.md");
        }
        _ => panic!("expected a note to create"),
    }
    match get_notes_by_search("touch::a/b/c") {
        SearchAction::Reply(m) => assert_eq!(m, "only one level supported"),
        _ => panic!("expected a refusal"),
    }
    match get_notes_by_search("touch::x:y.md") {
        SearchAction::CreateNote { category, file_name } => {
            assert_eq!(category, "notes");
            assert_eq!(file_name, "y.md");
        }
        _ => panic!("expected a note to create"),
    }
    assert!(matches!(get_notes_by_search("rust"), SearchAction::Search));
    assert!(matches!(get_notes_by_search("touch:x"), SearchAction::Search));
}

#[test]
fn collapse_tags_expand() {
    let html = "<collapse title=\"More\">hidden</collapse>";
    assert_eq!(
        expand_collapse_tags(html),
        "<div class=\"collap\"> <div class=\"collap-header\"> <summary> <b>More</b> </summary> </div> <div class=\"collap-content\" style=\"display: none;\">hidden</div></div>"
    );
    assert_eq!(expand_collapse_tags("<p>plain</p>"), "<p>plain</p>");
}

#[test]
fn render_doc_of_missing_note() {
    assert_eq!(render_doc(None), Some("404 - no such note".to_string()));
    assert_eq!(render_doc(Some("<p>hi</p>\n")), Some("<p>hi</p>\n".to_string()));
}
