//! Searching notes: the `rg` pipeline a query runs, and how the paths that
//! `fd` and `rg` print join the list of hits.

use crate::text::{
    count_char, is_whitespace, law_trim, lemma_split_join, lemma_strip_end_at, lemma_strip_start_shape, CharClass,
    ends_with, lines, lines_spec, push_str, split_char, split_spec, trim, trim_spec,
};
use vstd::prelude::*;

verus! {

/// `list` after the search tool printed the line `line`: a line that is blank,
/// does not end with `.md`, or is already listed as it is, changes nothing;
/// any other line is listed trimmed.
pub open spec fn hit_step(list: Seq<Seq<char>>, line: Seq<char>) -> Seq<Seq<char>> {
    if trim_spec(line).len() == 0 || !".md"@.is_suffix_of(line) || list.contains(line) {
        list
    } else {
        list.push(trim_spec(line))
    }
}

/// `list` after the search tool printed `lines`, one after another.
pub open spec fn merged_hits(list: Seq<Seq<char>>, lines: Seq<Seq<char>>) -> Seq<Seq<char>>
    decreases lines.len(),
{
    if lines.len() == 0 {
        list
    } else {
        hit_step(merged_hits(list, lines.drop_last()), lines.last())
    }
}

/// Whether `list` holds `s`.
fn holds(list: &Vec<String>, s: &String) -> (b: bool)
    ensures
        b == list.deep_view().contains(s@),
{
    let mut j: usize = 0;
    while j < list.len()
        invariant
            j <= list.len(),
            forall|k: int| 0 <= k < j ==> list.deep_view()[k] != s@,
        decreases list.len() - j,
    {
        assert(list.deep_view()[j as int] == list@[j as int]@);
        if list[j] == *s {
            return true;
        }
        j = j + 1;
    }
    false
}

/// Adds to `note_list` the note paths that a search tool printed on its
/// standard output `stdout`, one per line (see `hit_step`).
pub fn collect_search_hits(stdout: &str, note_list: &mut Vec<String>)
    ensures
        final(note_list).deep_view() == merged_hits(old(note_list).deep_view(), lines_spec(stdout@)),
{
    let all = lines(stdout);
    let ghost start = note_list.deep_view();
    let mut i: usize = 0;
    while i < all.len()
        invariant
            i <= all.len(),
            note_list.deep_view() == merged_hits(start, all.deep_view().take(i as int)),
        decreases all.len() - i,
    {
        let line = &all[i];
        assert(all.deep_view()[i as int] == line@);
        assert(all.deep_view().take(i + 1).drop_last() == all.deep_view().take(i as int));
        let trimmed = trim(line.as_str());
        if !trimmed.as_str().is_empty() && ends_with(line.as_str(), ".md") && !holds(note_list, line) {
            let ghost before = note_list.deep_view();
            note_list.push(trimmed);
            assert(note_list.deep_view() == before.push(trim_spec(line@)));
        }
        i = i + 1;
    }
    assert(all.deep_view().take(all.len() as int) == all.deep_view());
}

/// The `i`-th command of the `rg` pipeline for the query word `word`: the
/// first lists the Markdown files of `notes_dir` that hold the word, each
/// later one keeps those of the files it is given that hold its word.
pub open spec fn rg_command(i: int, word: Seq<char>, notes_dir: Seq<char>) -> Seq<char> {
    if i == 0 {
        "rg --follow -j1 -t md -il '"@ + word + "' '"@ + notes_dir + "'"@
    } else {
        "xargs rg -j1 -il '"@ + word + "'"@
    }
}

/// The `rg` pipeline for the query `q`: one command per word of `q`
/// (the pieces between its spaces).
pub open spec fn rg_pipeline_spec(q: Seq<char>, notes_dir: Seq<char>) -> Seq<Seq<char>> {
    let words = split_spec(q, ' ');
    Seq::new(words.len(), |i: int| rg_command(i, words[i], notes_dir))
}

/// The shell commands of the `rg` pipeline that searches `notes_dir` for
/// the words of `q`.
pub fn rg_pipeline(q: &str, notes_dir: &str) -> (cmds: Vec<String>)
    ensures
        cmds.deep_view() == rg_pipeline_spec(q@, notes_dir@),
{
    let words = split_char(q, ' ');
    let mut cmds: Vec<String> = Vec::new();
    let mut i: usize = 0;
    while i < words.len()
        invariant
            i <= words.len(),
            words.deep_view() == split_spec(q@, ' '),
            cmds.deep_view() == rg_pipeline_spec(q@, notes_dir@).take(i as int),
        decreases words.len() - i,
    {
        let mut cmd;
        if i == 0 {
            cmd = String::from_str("rg --follow -j1 -t md -il '");
            push_str(&mut cmd, words[i].as_str());
            push_str(&mut cmd, "' '");
            push_str(&mut cmd, notes_dir);
            push_str(&mut cmd, "'");
        } else {
            cmd = String::from_str("xargs rg -j1 -il '");
            push_str(&mut cmd, words[i].as_str());
            push_str(&mut cmd, "'");
        }
        assert(words.deep_view()[i as int] == words@[i as int]@);
        let ghost before = cmds.deep_view();
        cmds.push(cmd);
        assert(cmds.deep_view() == before.push(cmd@));
        assert(rg_pipeline_spec(q@, notes_dir@).take(i + 1) == rg_pipeline_spec(q@, notes_dir@).take(i as int).push(rg_pipeline_spec(q@, notes_dir@)[i as int]));
        i = i + 1;
    }
    assert(rg_pipeline_spec(q@, notes_dir@).take(words.len() as int) == rg_pipeline_spec(q@, notes_dir@));
    cmds
}

/// Trimming a line that ends with `.md` keeps that ending, and leaves a
/// line without leading whitespace as it is.
proof fn lemma_trim_md_line(line: Seq<char>)
    requires
        ".md"@.is_suffix_of(line),
    ensures
        ".md"@.is_suffix_of(trim_spec(line)),
        trim_spec(line).len() > 0,
        !is_whitespace(line[0]) ==> trim_spec(line) == line,
{
    reveal_strlit(".md");
    let ws = CharClass::Whitespace;
    let n = line.len();
    assert(line[n - 1] == 'd' && line[n - 2] == 'm' && line[n - 3] == '.') by {
        assert(line.subrange(n - 3, n as int)[2] == line[n - 1]);
        assert(line.subrange(n - 3, n as int)[1] == line[n - 2]);
        assert(line.subrange(n - 3, n as int)[0] == line[n - 3]);
    }
    let k = lemma_strip_start_shape(line, ws);
    assert(k <= n - 3) by {
        if k > n - 3 {
            assert(ws.has(line[n - 3]));
        }
    }
    let u = line.skip(k);
    assert(u.last() == 'd');
    lemma_strip_end_at(u, ws, u.len() as int);
    assert(u.take(u.len() as int) == u);
    assert(u.subrange(u.len() - 3, u.len() as int) == line.subrange(n - 3, n as int));
    if !is_whitespace(line[0]) {
        assert(k == 0);
        assert(line.skip(0) == line);
    }
}

/// Search hits only add to the list; each note they add ends with `.md` and
/// has no surrounding whitespace.
pub proof fn law_search_hits_extend(list: Seq<Seq<char>>, lines: Seq<Seq<char>>)
    ensures
        list.is_prefix_of(merged_hits(list, lines)),
        forall|i: int|
            list.len() <= i < merged_hits(list, lines).len() ==> ".md"@.is_suffix_of(
                #[trigger] merged_hits(list, lines)[i],
            ) && trim_spec(merged_hits(list, lines)[i]) == merged_hits(list, lines)[i],
    decreases lines.len(),
{
    if lines.len() > 0 {
        law_search_hits_extend(list, lines.drop_last());
        let pre = merged_hits(list, lines.drop_last());
        let line = lines.last();
        if !(trim_spec(line).len() == 0 || !".md"@.is_suffix_of(line) || pre.contains(line)) {
            lemma_trim_md_line(line);
            law_trim(line);
            let post = pre.push(trim_spec(line));
            assert forall|i: int| list.len() <= i < post.len() implies ".md"@.is_suffix_of(
                #[trigger] post[i],
            ) && trim_spec(post[i]) == post[i] by {
                if i < pre.len() {
                    assert(post[i] == pre[i]);
                }
            }
            assert(post.subrange(0, list.len() as int) == pre.subrange(0, list.len() as int));
        }
    }
}

/// When no printed line starts with whitespace, search hits never list a
/// note twice.
pub proof fn law_search_hits_distinct(list: Seq<Seq<char>>, lines: Seq<Seq<char>>)
    requires
        list.no_duplicates(),
        forall|i: int| 0 <= i < lines.len() ==> (#[trigger] lines[i]).len() == 0 || !is_whitespace(lines[i][0]),
    ensures
        merged_hits(list, lines).no_duplicates(),
    decreases lines.len(),
{
    if lines.len() > 0 {
        let t = lines.drop_last();
        assert forall|i: int| 0 <= i < t.len() implies (#[trigger] t[i]).len() == 0 || !is_whitespace(t[i][0]) by {
            assert(t[i] == lines[i]);
        }
        law_search_hits_distinct(list, t);
        let pre = merged_hits(list, t);
        let line = lines.last();
        assert(line == lines[lines.len() - 1]);
        if !(trim_spec(line).len() == 0 || !".md"@.is_suffix_of(line) || pre.contains(line)) {
            lemma_trim_md_line(line);
            reveal_strlit(".md");
            assert(line.len() > 0);
            assert(trim_spec(line) == line);
            let post = pre.push(line);
            assert forall|i: int, j: int| 0 <= i < post.len() && 0 <= j < post.len() && i != j implies post[i] != post[j] by {
                if j == pre.len() && i < pre.len() {
                    assert(post[i] == pre[i]);
                }
                if i == pre.len() && j < pre.len() {
                    assert(post[j] == pre[j]);
                }
            }
        }
    }
}

/// The `rg` pipeline has one command per word of the query, so never none.
pub proof fn law_rg_pipeline_len(q: Seq<char>, notes_dir: Seq<char>)
    ensures
        rg_pipeline_spec(q, notes_dir).len() == count_char(q, ' ') + 1,
{
    lemma_split_join(q, ' ');
}

/// A printed line that is not blank, ends with `.md` and is not listed yet
/// joins the list, trimmed.
pub proof fn law_new_hit_added(list: Seq<Seq<char>>, line: Seq<char>)
    requires
        trim_spec(line).len() > 0,
        ".md"@.is_suffix_of(line),
        !list.contains(line),
    ensures
        merged_hits(list, seq![line]) == list.push(trim_spec(line)),
{
    assert(seq![line].drop_last().len() == 0);
    assert(merged_hits(list, seq![line].drop_last()) == list);
    assert(seq![line].last() == line);
}

/// Every printed line that is not blank and ends with `.md`, the first one
/// included, ends up in the list: as it was printed (when it was listed
/// already) or trimmed.
pub proof fn law_every_hit_listed(list: Seq<Seq<char>>, lines: Seq<Seq<char>>)
    ensures
        forall|i: int|
            0 <= i < lines.len() && trim_spec(#[trigger] lines[i]).len() > 0 && ".md"@.is_suffix_of(lines[i])
                ==> merged_hits(list, lines).contains(lines[i]) || merged_hits(list, lines).contains(
                trim_spec(lines[i]),
            ),
    decreases lines.len(),
{
    if lines.len() > 0 {
        let t = lines.drop_last();
        law_every_hit_listed(list, t);
        let pre = merged_hits(list, t);
        let post = merged_hits(list, lines);
        let line = lines.last();
        assert(pre.is_prefix_of(post)) by {
            law_search_hits_extend(pre, seq![line]);
            assert(seq![line].drop_last().len() == 0);
            assert(merged_hits(pre, seq![line].drop_last()) == pre);
            assert(seq![line].last() == line);
        }
        assert forall|i: int|
            0 <= i < lines.len() && trim_spec(#[trigger] lines[i]).len() > 0 && ".md"@.is_suffix_of(lines[i])
                implies post.contains(lines[i]) || post.contains(trim_spec(lines[i])) by {
            if i < t.len() {
                assert(t[i] == lines[i]);
                if pre.contains(lines[i]) {
                    let j = choose|j: int| 0 <= j < pre.len() && pre[j] == lines[i];
                    assert(post[j] == pre[j]);
                } else {
                    assert(pre.contains(trim_spec(lines[i])));
                    let j = choose|j: int| 0 <= j < pre.len() && pre[j] == trim_spec(lines[i]);
                    assert(post[j] == pre[j]);
                }
            } else {
                assert(lines[i] == line);
                if pre.contains(line) {
                    let j = choose|j: int| 0 <= j < pre.len() && pre[j] == line;
                    assert(post[j] == pre[j]);
                } else {
                    assert(post == pre.push(trim_spec(line)));
                    assert(post[pre.len() as int] == trim_spec(line));
                }
            }
        }
    }
}

} // verus!
