//! A note as the listings show it.

use crate::text::push_str;
use vstd::prelude::*;

verus! {

/// A note: its file, the category it sits in, its title and file name, and
/// when it was last modified (seconds since the Unix epoch, and as text).
pub struct NoteItem {
    pub file_path: String,
    pub root_dir: String,
    pub title: String,
    pub file_name: String,
    pub modified_ts: i64,
    pub modified_str: String,
}

/// The plain value of a `NoteItem`.
pub struct NoteItemView {
    pub file_path: Seq<char>,
    pub root_dir: Seq<char>,
    pub title: Seq<char>,
    pub file_name: Seq<char>,
    pub modified_ts: i64,
    pub modified_str: Seq<char>,
}

impl View for NoteItem {
    type V = NoteItemView;

    open spec fn view(&self) -> NoteItemView {
        NoteItemView {
            file_path: self.file_path@,
            root_dir: self.root_dir@,
            title: self.title@,
            file_name: self.file_name@,
            modified_ts: self.modified_ts,
            modified_str: self.modified_str@,
        }
    }
}

/// The text that `time` renders for the instant `ts` (seconds since the Unix
/// epoch) seen at the UTC offset `offset_secs`, by the format description
/// `description`; `None` where `time` refuses any of the three.
pub uninterp spec fn unix_time_formatted(ts: int, offset_secs: int, description: Seq<char>) -> Option<Seq<char>>;

/// Formats a timestamp with `time`: `UtcOffset::from_whole_seconds`,
/// `OffsetDateTime::from_unix_timestamp`, `checked_to_offset`,
/// `format_description::parse` and `OffsetDateTime::format`, with any error
/// turned into `None`. Its result is named as a whole; what `time` renders is
/// not stated here.
#[verifier::external_body]
fn format_unix_time(ts: i64, offset_secs: i32, description: &str) -> (r: Option<String>)
    ensures
        r.deep_view() == unix_time_formatted(ts as int, offset_secs as int, description@),
{
    let offset = time::UtcOffset::from_whole_seconds(offset_secs).ok()?;
    let dt = time::OffsetDateTime::from_unix_timestamp(ts).ok()?.checked_to_offset(offset)?;
    let format = time::format_description::parse(description).ok()?;
    dt.format(&format).ok()
}

/// The offset from UTC, in seconds, at which modification times are shown (UTC+8).
pub const DISPLAY_OFFSET_SECS: i32 = 28800;

/// The earliest timestamp `time` represents: -9999-01-01 00:00:00 UTC.
pub const MIN_TIMESTAMP: i64 = -377705116800;

/// The latest timestamp `time` represents: 9999-12-31 23:59:59 UTC.
pub const MAX_TIMESTAMP: i64 = 253402300799;

/// How modification times are shown: `YYYY-mm-dd HH:MM`.
pub open spec fn modified_description() -> Seq<char> {
    "[year]-[month]-[day] [hour repr:24]:[minute]"@
}

/// The text shown for a modification time `ts`.
pub open spec fn modified_text(ts: i64) -> Seq<char> {
    match unix_time_formatted(ts as int, DISPLAY_OFFSET_SECS as int, modified_description()) {
        Some(s) => s,
        None => Seq::<char>::empty(),
    }
}

/// The cache key under which the title of the note at `path` is kept.
pub open spec fn title_cache_key(path: Seq<char>) -> Seq<char> {
    "rusty-notes-title-"@ + path
}

impl NoteItem {
    /// A note for `file_path`, with everything else empty and time zero.
    pub fn new(file_path: &str) -> (n: NoteItem)
        ensures
            n@ == (NoteItemView {
                file_path: file_path@,
                root_dir: Seq::<char>::empty(),
                title: Seq::<char>::empty(),
                file_name: Seq::<char>::empty(),
                modified_ts: 0,
                modified_str: Seq::<char>::empty(),
            }),
    {
        NoteItem {
            file_path: file_path.to_string(),
            root_dir: String::new(),
            title: String::new(),
            file_name: String::new(),
            modified_ts: 0,
            modified_str: String::new(),
        }
    }

    /// Records the modification time `modified_ts` and its text at UTC+8.
    pub fn set_modified(&mut self, modified_ts: i64)
        requires
            MIN_TIMESTAMP <= modified_ts,
            modified_ts + DISPLAY_OFFSET_SECS <= MAX_TIMESTAMP,
        ensures
            final(self)@ == (NoteItemView {
                modified_ts,
                modified_str: modified_text(modified_ts),
                ..old(self)@
            }),
    {
        let formatted = format_unix_time(
            modified_ts,
            DISPLAY_OFFSET_SECS,
            "[year]-[month]-[day] [hour repr:24]:[minute]",
        );
        proof {
            reveal_strlit("[year]-[month]-[day] [hour repr:24]:[minute]");
        }
        self.modified_ts = modified_ts;
        self.modified_str = match formatted {
            Some(s) => s,
            None => String::new(),
        };
    }

    pub fn set_title(&mut self, title: &str)
        ensures
            final(self)@ == (NoteItemView { title: title@, ..old(self)@ }),
    {
        self.title = title.to_string();
    }

    pub fn set_file_name(&mut self, file_name: &str)
        ensures
            final(self)@ == (NoteItemView { file_name: file_name@, ..old(self)@ }),
    {
        self.file_name = file_name.to_string();
    }

    pub fn set_root_dir(&mut self, root_dir: &str)
        ensures
            final(self)@ == (NoteItemView { root_dir: root_dir@, ..old(self)@ }),
    {
        self.root_dir = root_dir.to_string();
    }

    /// The cache key for this note's title: `rusty-notes-title-` and its path.
    pub fn get_cache_key_for_title(&self) -> (k: String)
        ensures
            k@ == title_cache_key(self.file_path@),
    {
        let mut k = String::from_str("rusty-notes-title-");
        push_str(&mut k, self.file_path.as_str());
        k
    }
}

/// Different notes have different title cache keys.
pub proof fn law_title_cache_key_injective(a: Seq<char>, b: Seq<char>)
    ensures
        title_cache_key(a) == title_cache_key(b) ==> a == b,
{
    let prefix = "rusty-notes-title-"@;
    if title_cache_key(a) == title_cache_key(b) {
        assert(title_cache_key(a).skip(prefix.len() as int) == a);
        assert(title_cache_key(b).skip(prefix.len() as int) == b);
    }
}

} // verus!
