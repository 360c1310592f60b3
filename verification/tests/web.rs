use rusty_notes::config::{path_join, Config};
use rusty_notes::notes::search::{collect_search_hits, rg_pipeline};
use rusty_notes::notes::web::{
    category_matches, edit_note_body, edit_url, embedded_static, filter_by_category,
    get_url_prefix, home_fetch_limit, lists_search_hits, new_note_relative_path, note_url, StaticAsset,
};
use rusty_notes::startup::notes_dir_is_empty;
use rusty_notes::types::NoteItem;

#[test]
fn url_prefixes() {
    assert_eq!(get_url_prefix("/"), "/");
    assert_eq!(get_url_prefix(""), "/");
    assert_eq!(get_url_prefix("notes"), "/notes/");
    assert_eq!(get_url_prefix("/notes/"), "/notes/");
    assert_eq!(get_url_prefix("//a/b//"), "/a/b/");
    for raw in ["", "/", "notes", "/x/y/"] {
        let p = get_url_prefix(raw);
        assert_eq!(get_url_prefix(&p), p);
    }
    assert_eq!(note_url("/notes/", "cat/a.md"), "/notes/cat/a.md");
    assert_eq!(edit_url("/", "cat/a.md"), "/edit/cat/a.md");
}

#[test]
fn default_config() {
    let c = Config::default_for_home("/home/u");
    assert_eq!(c.rusty_server_addr, "127.0.0.1:7777");
    assert_eq!(c.rusty_notes_dir, "/home/u/rusty-notes");
    assert_eq!(c.rusty_url_prefix, "/");
    assert_eq!(Config::default_for_home("/home/u/").rusty_notes_dir, "/home/u/rusty-notes");
    assert_eq!(path_join("", "x"), "x");
    assert_eq!(
        path_join("/a", "b"),
        std::path::Path::new("/a").join("b").to_string_lossy()
    );
}

fn note_in(root_dir: &str) -> NoteItem {
    let mut n = NoteItem::new(&format!("{}/x.md", root_dir));
    n.set_root_dir(root_dir);
    n
}

#[test]
fn categories() {
    assert!(category_matches("cat", "cat"));
    assert!(category_matches("cat/sub", "cat"));
    assert!(!category_matches("category", "cat"));
    assert!(category_matches("anything", "_all"));
    assert!(category_matches("anything", ""));
    let notes = vec![note_in("cat"), note_in("category"), note_in("cat/sub"), note_in("dog")];
    let kept: Vec<String> = filter_by_category(notes, "cat").into_iter().map(|n| n.root_dir).collect();
    assert_eq!(kept, vec!["cat", "cat/sub"]);
    let all = filter_by_category(vec![note_in("a"), note_in("b")], "_all");
    assert_eq!(all.len(), 2);
    assert_eq!(home_fetch_limit("", ""), 37);
    assert_eq!(home_fetch_limit("q", ""), 0);
    assert_eq!(home_fetch_limit("", "cat"), 0);
}

#[test]
fn saved_note_text() {
    assert_eq!(edit_note_body("line1\r\nline2\r\n\r\n  "), "line1\nline2\n");
    assert_eq!(edit_note_body(""), "\n");
    let once = edit_note_body("a\r\nb  \n\n");
    assert_eq!(edit_note_body(&once), once);
    assert!(!once.contains('\r'));
    assert!(once.ends_with('\n'));
}

#[test]
fn new_note_paths() {
    assert_eq!(new_note_relative_path("cat/new"), Ok("cat/new.md".to_string()));
    assert_eq!(new_note_relative_path("new.md"), Ok("notes/new.md".to_string()));
    assert_eq!(new_note_relative_path("a/b/c.md"), Err("only one level supported".to_string()));
}

#[test]
fn built_in_static_files() {
    assert_eq!(embedded_static("css/notes.css"), Some((StaticAsset::NotesCss, "text/css")));
    assert_eq!(embedded_static("js/notes.js"), Some((StaticAsset::NotesJs, "application/javascript")));
    assert_eq!(embedded_static("img/rusty-notes.png"), Some((StaticAsset::RustyNotesPng, "image/png")));
    assert_eq!(embedded_static("css/pure-min.css"), Some((StaticAsset::PureMinCss, "text/css")));
    assert_eq!(embedded_static("css/other.css"), None);
}

#[test]
fn search_hits_join_the_list() {
    let mut list = vec!["/n/a.md".to_string()];
    collect_search_hits("/n/a.md\n/n/b.md\n\n/n/c.txt\n/n/b.md\r\n  /n/d.md\n", &mut list);
    assert_eq!(list, vec!["/n/a.md", "/n/b.md", "/n/d.md"]);
    let mut empty = Vec::new();
    collect_search_hits("", &mut empty);
    assert!(empty.is_empty());
}

#[test]
fn rg_pipelines() {
    assert_eq!(
        rg_pipeline("foo bar", "/n"),
        vec!["rg --follow -j1 -t md -il 'foo' '/n'", "xargs rg -j1 -il 'bar'"]
    );
    assert_eq!(rg_pipeline("", "/n"), vec!["rg --follow -j1 -t md -il '' '/n'"]);
}

#[test]
fn empty_notes_directory() {
    assert!(notes_dir_is_empty(Some(&vec![])));
    assert!(notes_dir_is_empty(Some(&vec![
        (".git".to_string(), Some(true)),
        ("readme.txt".to_string(), Some(false)),
        ("x.md".to_string(), None),
    ])));
    assert!(!notes_dir_is_empty(Some(&vec![("cat".to_string(), Some(true))])));
    assert!(!notes_dir_is_empty(Some(&vec![("a.md".to_string(), Some(false))])));
    assert!(!notes_dir_is_empty(None));
}

#[test]
fn search_or_latest_notes() {
    assert!(lists_search_hits(&vec!["a.md".to_string()], ""));
    assert!(lists_search_hits(&Vec::new(), "newly-created"));
    assert!(!lists_search_hits(&Vec::new(), ""));
}
