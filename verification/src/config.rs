//! Settings: where the server listens, where the notes live, and the URL
//! prefix the UI is served under.

use crate::text::{chars_of, push_str, string_of};
use vstd::prelude::*;

verus! {

pub struct Config {
    pub rusty_server_addr: String,
    pub rusty_notes_dir: String,
    pub rusty_url_prefix: String,
}

/// `base` joined with the relative path `rel`, as `Path::join` does it: a
/// `'/'` goes between them unless `base` is empty or already ends with one.
pub open spec fn path_join_spec(base: Seq<char>, rel: Seq<char>) -> Seq<char> {
    if base.len() == 0 || base.last() == '/' {
        base + rel
    } else {
        base.push('/') + rel
    }
}

/// `Path::new(base).join(rel)` for a relative `rel`.
pub fn path_join(base: &str, rel: &str) -> (r: String)
    requires
        rel@.len() == 0 || rel@[0] != '/',
    ensures
        r@ == path_join_spec(base@, rel@),
{
    let v = chars_of(base);
    let mut r = string_of(&v);
    if v.len() > 0 && v[v.len() - 1] != '/' {
        push_str(&mut r, "/");
        proof { reveal_strlit("/"); }
    }
    push_str(&mut r, rel);
    r
}

/// The default settings for a user whose home directory is `home`: listen on
/// `127.0.0.1:7777`, keep the notes in `$HOME/rusty-notes`, serve under `/`.
pub open spec fn default_config(home: Seq<char>) -> (Seq<char>, Seq<char>, Seq<char>) {
    ("127.0.0.1:7777"@, path_join_spec(home, "rusty-notes"@), "/"@)
}

impl Config {
    /// The default settings, given the home directory.
    pub fn default_for_home(home: &str) -> (c: Config)
        ensures
            (c.rusty_server_addr@, c.rusty_notes_dir@, c.rusty_url_prefix@) == default_config(home@),
    {
        proof { reveal_strlit("rusty-notes"); }
        Config {
            rusty_server_addr: "127.0.0.1:7777".to_string(),
            rusty_notes_dir: path_join(home, "rusty-notes"),
            rusty_url_prefix: "/".to_string(),
        }
    }
}

/// A joined path ends with the path joined to it, and starts with the base.
pub proof fn law_path_join(base: Seq<char>, rel: Seq<char>)
    ensures
        rel.is_suffix_of(path_join_spec(base, rel)),
        base.is_prefix_of(path_join_spec(base, rel)),
{
    let j = path_join_spec(base, rel);
    if base.len() == 0 || base.last() == '/' {
        assert(j.subrange(j.len() - rel.len(), j.len() as int) == rel);
        assert(j.subrange(0, base.len() as int) == base);
    } else {
        assert(j.subrange(j.len() - rel.len(), j.len() as int) == rel);
        assert(j.subrange(0, base.len() as int) == base);
    }
}

} // verus!
