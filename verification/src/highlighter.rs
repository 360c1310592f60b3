//! Syntax highlighting of the code blocks in rendered notes, with `scraper`
//! to find the blocks, `htmlescape` to decode them and `syntect` to colour
//! them.

use crate::patterns::{regex_group, regex_group_of};
use crate::text::{
    push_str, replace_all, replace_all_spec, replace_first, replace_first_spec, string_of,
    chars_of, strip_suffixes, trim_end_matches,
};
use syntect::highlighting::ThemeSet;
use syntect::parsing::SyntaxSet;
use vstd::prelude::*;

verus! {

/// What `char::to_uppercase` yields for `c`.
pub uninterp spec fn char_uppercase(c: char) -> Seq<char>;

/// `char::to_uppercase`, collected. As std documents it, an ASCII lowercase
/// letter gives its capital, and any other ASCII character (having no
/// uppercase mapping) gives itself.
#[verifier::external_body]
fn uppercase_of(c: char) -> (r: String)
    ensures
        r@ == char_uppercase(c),
        'a' <= c <= 'z' ==> r@ == seq![((c as u32) - 32) as char],
        (c as u32) < 128 && !('a' <= c <= 'z') ==> r@ == seq![c],
{
    c.to_uppercase().collect()
}

/// `s` with its first character in upper case.
pub open spec fn title_case(s: Seq<char>) -> Seq<char> {
    if s.len() == 0 {
        s
    } else {
        char_uppercase(s[0]) + s.skip(1)
    }
}

/// `s` with its first character in upper case (as `syntect` names languages).
pub fn _title_string(s: &str) -> (r: String)
    ensures
        r@ == title_case(s@),
        s@.len() > 0 && 'a' <= s@[0] <= 'z' ==> r@ == seq![((s@[0] as u32) - 32) as char] + s@.skip(1),
        s@.len() > 0 && (s@[0] as u32) < 128 && !('a' <= s@[0] <= 'z') ==> r@ == s@,
{
    let v = chars_of(s);
    if v.len() == 0 {
        return String::new();
    }
    let mut r = uppercase_of(v[0]);
    crate::text::push_range(&mut r, &v, 1, v.len());
    assert(v@.subrange(1, v.len() as int) == v@.skip(1));
    assert(seq![v@[0]] + v@.skip(1) == v@);
    r
}

/// The code blocks that `scraper` finds in `html`: for each element matching
/// `inner` inside an element matching `outer`, in document order, its HTML
/// and its inner HTML; `None` when a selector does not parse.
pub uninterp spec fn scraped_blocks(html: Seq<char>, outer: Seq<char>, inner: Seq<char>) -> Option<Seq<(Seq<char>, Seq<char>)>>;

/// `scraper::Html::parse_fragment(html)`, `Selector::parse` of both
/// selectors, then `select` of `inner` within each `select` of `outer`,
/// each element handed out as `(ElementRef::html, ElementRef::inner_html)`.
/// What `scraper` finds is not stated here.
#[verifier::external_body]
fn select_nested(html: &str, outer: &str, inner: &str) -> (r: Option<Vec<(String, String)>>)
    ensures
        r.deep_view() == scraped_blocks(html@, outer@, inner@),
{
    let fragment = scraper::Html::parse_fragment(html);
    let outer_sel = scraper::Selector::parse(outer).ok()?;
    let inner_sel = scraper::Selector::parse(inner).ok()?;
    let mut blocks = Vec::new();
    for item in fragment.select(&outer_sel) {
        for code in item.select(&inner_sel) {
            blocks.push((code.html(), code.inner_html()));
        }
    }
    Some(blocks)
}

/// What `htmlescape::decode_html` gives for `s`: `None` on a malformed entity.
pub uninterp spec fn html_decoded(s: Seq<char>) -> Option<Seq<char>>;

/// `htmlescape::decode_html`, its error turned into `None`. What it decodes
/// is not stated here.
#[verifier::external_body]
fn decode_html(s: &str) -> (r: Option<String>)
    ensures
        r.deep_view() == html_decoded(s@),
{
    htmlescape::decode_html(s).ok()
}

/// What `syntect` renders for the code `code` with the syntax that
/// `find_syntax_by_extension(ext)` finds among its default syntaxes
/// (`load_defaults_newlines`), in the default theme `theme`: `None` when no
/// syntax has that extension, `Some(None)` when there is no such theme or
/// highlighting fails.
pub uninterp spec fn syntect_by_extension(code: Seq<char>, ext: Seq<char>, theme: Seq<char>) -> Option<Option<Seq<char>>>;

/// As `syntect_by_extension`, with the syntax that `find_syntax_by_name(name)` finds.
pub uninterp spec fn syntect_by_name(code: Seq<char>, name: Seq<char>, theme: Seq<char>) -> Option<Option<Seq<char>>>;

/// Whether `SyntaxSet::find_syntax_by_extension(ext)` finds a syntax among
/// `syntect`'s default syntaxes.
pub uninterp spec fn syntect_knows_extension(ext: Seq<char>) -> bool;

/// Whether `SyntaxSet::find_syntax_by_name(name)` finds a syntax among
/// `syntect`'s default syntaxes.
pub uninterp spec fn syntect_knows_name(name: Seq<char>) -> bool;

/// `SyntaxSet::load_defaults_newlines`, `find_syntax_by_extension(ext)`,
/// `ThemeSet::load_defaults`, then `syntect::html::highlighted_html_for_string`
/// with the theme `theme`. The default sets are built into `syntect`, so the
/// result depends on the arguments alone; it is named, not stated. It is
/// `None` exactly when the lookup by extension finds no syntax, whatever the
/// code and theme.
#[verifier::external_body]
fn render_by_extension(code: &str, ext: &str, theme: &str) -> (r: Option<Option<String>>)
    ensures
        r.deep_view() == syntect_by_extension(code@, ext@, theme@),
        r is Some <==> syntect_knows_extension(ext@),
{
    let ss = SyntaxSet::load_defaults_newlines();
    let syntax = ss.find_syntax_by_extension(ext)?;
    let ts = ThemeSet::load_defaults();
    match ts.themes.get(theme) {
        Some(t) => Some(syntect::html::highlighted_html_for_string(code, &ss, syntax, t).ok()),
        None => Some(None),
    }
}

/// `SyntaxSet::load_defaults_newlines`, `find_syntax_by_name(name)`,
/// `ThemeSet::load_defaults`, then `syntect::html::highlighted_html_for_string`
/// with the theme `theme`. The default sets are built into `syntect`, so the
/// result depends on the arguments alone; it is named, not stated. It is
/// `None` exactly when the lookup by name finds no syntax, whatever the code
/// and theme.
#[verifier::external_body]
fn render_by_name(code: &str, name: &str, theme: &str) -> (r: Option<Option<String>>)
    ensures
        r.deep_view() == syntect_by_name(code@, name@, theme@),
        r is Some <==> syntect_knows_name(name@),
{
    let ss = SyntaxSet::load_defaults_newlines();
    let syntax = ss.find_syntax_by_name(name)?;
    let ts = ThemeSet::load_defaults();
    match ts.themes.get(theme) {
        Some(t) => Some(syntect::html::highlighted_html_for_string(code, &ss, syntax, t).ok()),
        None => Some(None),
    }
}

/// The theme code blocks are highlighted in.
pub open spec fn highlight_theme() -> Seq<char> {
    "Solarized (light)"@
}

/// The pattern that finds the language of a `<code class="language-...">` element.
pub open spec fn language_pattern() -> Seq<char> {
    "code class=.language-([A-Za-z0-9]+)."@
}

/// The language named by the class of the code element `code_html`, or
/// nothing.
pub open spec fn language_of(code_html: Seq<char>) -> Seq<char> {
    match regex_group_of(language_pattern(), code_html, 1) {
        Some(Some(l)) => l,
        _ => Seq::<char>::empty(),
    }
}

/// The language named by the class of the code element `code_html`.
pub fn code_language(code_html: &str) -> (lang: String)
    ensures
        lang@ == language_of(code_html@),
{
    match regex_group(
        "code class=.language-([A-Za-z0-9]+).",
        code_html,
        1,
    ) {
        Some(Some(l)) => l,
        _ => String::new(),
    }
}

/// How `syntect` opens a highlighted block (with the line break after it).
pub open spec fn syntect_pre_open() -> Seq<char> {
    "<pre style=\"background-color:#fdf6e3;\">\n"@
}

/// The highlighted block as it goes into the page: `syntect`'s opening `<pre>`
/// turned into `<pre><code>`, its closing `</pre>`s dropped, and
/// `</code></pre>` closing it.
pub open spec fn highlighted_block(highlighted: Seq<char>) -> Seq<char> {
    strip_suffixes(replace_first_spec(highlighted, syntect_pre_open(), "<pre><code>"@), "</pre>\n"@)
        + "</code></pre>\n"@
}

/// The block as the Markdown renderer wrote it: the code of language `lang`
/// with its `"` written `&quot;`.
pub open spec fn plain_block(lang: Seq<char>, inner_html: Seq<char>) -> Seq<char> {
    "<pre><code class=\"language-"@ + lang + "\">"@ + replace_all_spec(inner_html, "\""@, "&quot;"@)
        + "</code></pre>"@
}

/// `html` with every copy of the plain block of `inner_html` replaced by its
/// highlighted form.
pub open spec fn spliced(html: Seq<char>, lang: Seq<char>, inner_html: Seq<char>, highlighted: Seq<char>) -> Seq<char> {
    replace_all_spec(html, plain_block(lang, inner_html), highlighted_block(highlighted))
}

/// Replaces in `html` the plain block of `inner_html` (of language `lang`)
/// by its highlighted form.
pub fn splice_highlighted(html: &str, lang: &str, inner_html: &str, highlighted: &str) -> (r: String)
    ensures
        r@ == spliced(html@, lang@, inner_html@, highlighted@),
{
    let opened = replace_first(highlighted, "<pre style=\"background-color:#fdf6e3;\">\n", "<pre><code>");
    let mut new_block = trim_end_matches(opened.as_str(), "</pre>\n");
    push_str(&mut new_block, "</code></pre>\n");
    proof { reveal_strlit("\""); }
    let quoted = replace_all(inner_html, "\"", "&quot;");
    let mut old_block = String::from_str("<pre><code class=\"language-");
    push_str(&mut old_block, lang);
    push_str(&mut old_block, "\">");
    push_str(&mut old_block, quoted.as_str());
    push_str(&mut old_block, "</code></pre>");
    proof { reveal_strlit("<pre><code class=\"language-"); }
    replace_all(html, old_block.as_str(), new_block.as_str())
}

/// `html` after the highlighting of `blocks` in turn, where `outs[i]` is what
/// highlighting gave for the `i`-th block (`None`: left as it is).
pub open spec fn splice_all(
    html: Seq<char>,
    blocks: Seq<(Seq<char>, Seq<char>)>,
    outs: Seq<Option<Seq<char>>>,
) -> Seq<char>
    decreases blocks.len(),
{
    if blocks.len() == 0 || outs.len() != blocks.len() {
        html
    } else {
        let before = splice_all(html, blocks.drop_last(), outs.drop_last());
        match outs.last() {
            Some(h) => spliced(before, language_of(blocks.last().0), blocks.last().1, h),
            None => before,
        }
    }
}

/// What highlighting gives for a code block `(code_html, inner_html)`: its
/// code (the inner HTML with its entities decoded) as `syntect` renders it in
/// the highlight theme, with the syntax found by the block's language as a
/// file extension, else by that language capitalised as a syntax name;
/// nothing (the block is left as it is) when decoding fails, no syntax is
/// found, or rendering fails.
pub open spec fn block_outcome(block: (Seq<char>, Seq<char>)) -> Option<Seq<char>> {
    let lang = language_of(block.0);
    match html_decoded(block.1) {
        None => None,
        Some(code) => if syntect_knows_extension(lang) {
            match syntect_by_extension(code, lang, highlight_theme()) {
                Some(rendered) => rendered,
                None => None,
            }
        } else if syntect_knows_name(title_case(lang)) {
            match syntect_by_name(code, title_case(lang), highlight_theme()) {
                Some(rendered) => rendered,
                None => None,
            }
        } else {
            None
        },
    }
}

/// `html` with the code blocks that `scraper` finds (`<code>` inside
/// `<pre>`) replaced one after another by their highlighted forms.
pub open spec fn highlighted(html: Seq<char>) -> Seq<char> {
    match scraped_blocks(html, "pre"@, "code"@) {
        None => html,
        Some(blocks) => splice_all(html, blocks, blocks.map_values(|b: (Seq<char>, Seq<char>)| block_outcome(b))),
    }
}

/// What highlighting gives for the block `(code_html, inner_html)`.
fn highlight_block(code_html: &str, inner_html: &str, lang: &str) -> (out: Option<String>)
    requires
        lang@ == language_of(code_html@),
    ensures
        out.deep_view() == block_outcome((code_html@, inner_html@)),
{
    let code = match decode_html(inner_html) {
        Some(c) => c,
        None => return None,
    };
    proof { reveal_strlit("Solarized (light)"); }
    match render_by_extension(code.as_str(), lang, "Solarized (light)") {
        Some(rendered) => rendered,
        None => {
            let titled = _title_string(lang);
            match render_by_name(code.as_str(), titled.as_str(), "Solarized (light)") {
                Some(rendered) => rendered,
                None => None,
            }
        },
    }
}

/// Whether `syntect` finds a syntax for the language `lang`: as a file
/// extension, else capitalised as a syntax name.
pub open spec fn syntax_found(lang: Seq<char>) -> bool {
    syntect_knows_extension(lang) || syntect_knows_name(title_case(lang))
}

/// A code block can be highlighted: when `syntect` finds a syntax for its
/// language, its entities decode and the rendering succeeds.
pub open spec fn block_renders(block: (Seq<char>, Seq<char>)) -> bool {
    syntax_found(language_of(block.0)) ==> block_outcome(block) is Some
}

/// Highlighting `html` goes through: `scraper` parses the selectors, and
/// every block it finds can be highlighted.
pub open spec fn highlight_succeeds(html: Seq<char>) -> bool {
    &&& scraped_blocks(html, "pre"@, "code"@) is Some
    &&& forall|blocks: Seq<(Seq<char>, Seq<char>)>, i: int|
        scraped_blocks(html, "pre"@, "code"@) == Some(blocks) && 0 <= i < blocks.len()
            ==> block_renders(#[trigger] blocks[i])
}

/// Whether the block `(code_html, inner_html)` can be highlighted.
fn block_ok(code_html: &str, inner_html: &str) -> (b: bool)
    ensures
        b == block_renders((code_html@, inner_html@)),
{
    proof { reveal_strlit("Solarized (light)"); }
    let lang = code_language(code_html);
    let titled = _title_string(lang.as_str());
    match decode_html(inner_html) {
        Some(code) => match render_by_extension(code.as_str(), lang.as_str(), "Solarized (light)") {
            Some(rendered) => rendered.is_some(),
            None => match render_by_name(code.as_str(), titled.as_str(), "Solarized (light)") {
                Some(rendered) => rendered.is_some(),
                None => true,
            },
        },
        None => {
            let by_ext = render_by_extension("", lang.as_str(), "Solarized (light)");
            let by_name = render_by_name("", titled.as_str(), "Solarized (light)");
            by_ext.is_none() && by_name.is_none()
        },
    }
}

/// The highlighted page, or `None` where highlighting would not go through:
/// a block whose language `syntect` knows but whose entities do not decode
/// or whose rendering fails.
pub fn highlight_html_checked(html: &str) -> (r: Option<String>)
    ensures
        r is Some <==> highlight_succeeds(html@),
        r matches Some(x) ==> x@ == highlighted(html@),
{
    let blocks = match select_nested(html, "pre", "code") {
        Some(b) => b,
        None => return None,
    };
    let ghost all = blocks.deep_view();
    let mut i: usize = 0;
    while i < blocks.len()
        invariant
            i <= blocks.len(),
            all == blocks.deep_view(),
            scraped_blocks(html@, "pre"@, "code"@) == Some(all),
            forall|j: int| 0 <= j < i ==> block_renders(#[trigger] all[j]),
        decreases blocks.len() - i,
    {
        assert(all[i as int] == (blocks@[i as int].0@, blocks@[i as int].1@));
        if !block_ok(blocks[i].0.as_str(), blocks[i].1.as_str()) {
            assert(!highlight_succeeds(html@));
            return None;
        }
        i = i + 1;
    }
    assert(highlight_succeeds(html@));
    Some(highlight_html(html))
}

/// Highlights the code of every `<pre><code>` block of `html` whose language
/// `syntect` knows (by file extension, else by name). Highlighting must go
/// through (`highlight_succeeds`); where it would not, `highlight_html_checked`
/// says so.
pub fn highlight_html(html: &str) -> (r: String)
    requires
        highlight_succeeds(html@),
    ensures
        r@ == highlighted(html@),
{
    let html_v = chars_of(html);
    let mut html_new = string_of(&html_v);
    let blocks = match select_nested(html, "pre", "code") {
        Some(b) => b,
        None => {
            return html_new;
        },
    };
    let ghost all = blocks.deep_view();
    let ghost outs = all.map_values(|b: (Seq<char>, Seq<char>)| block_outcome(b));
    let mut i: usize = 0;
    while i < blocks.len()
        invariant
            i <= blocks.len(),
            all == blocks.deep_view(),
            outs == all.map_values(|b: (Seq<char>, Seq<char>)| block_outcome(b)),
            html_new@ == splice_all(html@, all.take(i as int), outs.take(i as int)),
        decreases blocks.len() - i,
    {
        assert(all.take(i + 1).drop_last() == all.take(i as int));
        assert(outs.take(i + 1).drop_last() == outs.take(i as int));
        assert(all[i as int] == (blocks@[i as int].0@, blocks@[i as int].1@));
        let code_html = &blocks[i].0;
        let inner = &blocks[i].1;
        let lang = code_language(code_html.as_str());
        let out = highlight_block(code_html.as_str(), inner.as_str(), lang.as_str());
        match &out {
            Some(h) => {
                html_new = splice_highlighted(html_new.as_str(), lang.as_str(), inner.as_str(), h.as_str());
            },
            None => {},
        }
        assert(all.take(i + 1).last() == all[i as int]);
        assert(outs.take(i + 1).last() == outs[i as int]);
        i = i + 1;
    }
    assert(all.take(blocks.len() as int) == all);
    assert(outs.take(blocks.len() as int) == outs);
    html_new
}

/// Blocks that highlighting leaves as they are do not change the page: when
/// no block that `scraper` finds gets a highlighted form (no known language,
/// or no block at all), the page comes back unchanged.
pub proof fn law_unknown_blocks_unchanged(html: Seq<char>)
    requires
        scraped_blocks(html, "pre"@, "code"@) matches Some(blocks) ==> forall|i: int|
            0 <= i < blocks.len() ==> block_outcome(#[trigger] blocks[i]) is None,
    ensures
        highlighted(html) == html,
{
    match scraped_blocks(html, "pre"@, "code"@) {
        None => {},
        Some(blocks) => {
            let outs = blocks.map_values(|b: (Seq<char>, Seq<char>)| block_outcome(b));
            assert forall|i: int| 0 <= i < outs.len() implies (#[trigger] outs[i]) is None by {
                assert(outs[i] == block_outcome(blocks[i]));
            }
            lemma_splice_all_none(html, blocks, outs);
        },
    }
}

proof fn lemma_splice_all_none(html: Seq<char>, blocks: Seq<(Seq<char>, Seq<char>)>, outs: Seq<Option<Seq<char>>>)
    requires
        forall|i: int| 0 <= i < outs.len() ==> (#[trigger] outs[i]) is None,
    ensures
        splice_all(html, blocks, outs) == html,
    decreases blocks.len(),
{
    if blocks.len() > 0 && outs.len() == blocks.len() {
        let o = outs.drop_last();
        assert forall|i: int| 0 <= i < o.len() implies (#[trigger] o[i]) is None by {
            assert(o[i] == outs[i]);
        }
        lemma_splice_all_none(html, blocks.drop_last(), o);
        assert(outs.last() == outs[outs.len() - 1]);
    }
}

/// A page with a single code block whose language `syntect` knows gets that
/// block replaced by its highlighted form.
pub proof fn law_single_block_highlighted(html: Seq<char>, block: (Seq<char>, Seq<char>), h: Seq<char>)
    requires
        scraped_blocks(html, "pre"@, "code"@) == Some(seq![block]),
        block_outcome(block) == Some(h),
    ensures
        highlighted(html) == spliced(html, language_of(block.0), block.1, h),
{
    let blocks = seq![block];
    let outs = blocks.map_values(|b: (Seq<char>, Seq<char>)| block_outcome(b));
    assert(outs.last() == Some(h));
    assert(blocks.drop_last().len() == 0);
    assert(splice_all(html, blocks.drop_last(), outs.drop_last()) == html);
}

/// A page whose code blocks all name languages `syntect` does not know (or
/// that has no code block) can be highlighted, and comes back unchanged.
pub proof fn law_unknown_languages_unchanged(html: Seq<char>)
    requires
        scraped_blocks(html, "pre"@, "code"@) is Some,
        forall|blocks: Seq<(Seq<char>, Seq<char>)>, i: int|
            scraped_blocks(html, "pre"@, "code"@) == Some(blocks) && 0 <= i < blocks.len()
                ==> !syntax_found(language_of((#[trigger] blocks[i]).0)),
    ensures
        highlight_succeeds(html),
        highlighted(html) == html,
{
    let blocks = scraped_blocks(html, "pre"@, "code"@)->0;
    assert forall|i: int| 0 <= i < blocks.len() implies block_outcome(#[trigger] blocks[i]) is None by {
        assert(!syntax_found(language_of(blocks[i].0)));
    }
    law_unknown_blocks_unchanged(html);
}

/// Every block is highlighted in turn on the page as the blocks before it
/// left it: on a page with two code blocks that both get a highlighted form,
/// the result has the first block replaced, then the second.
pub proof fn law_two_blocks_both_highlighted(
    html: Seq<char>,
    b1: (Seq<char>, Seq<char>),
    b2: (Seq<char>, Seq<char>),
    h1: Seq<char>,
    h2: Seq<char>,
)
    requires
        scraped_blocks(html, "pre"@, "code"@) == Some(seq![b1, b2]),
        block_outcome(b1) == Some(h1),
        block_outcome(b2) == Some(h2),
    ensures
        highlighted(html) == spliced(
            spliced(html, language_of(b1.0), b1.1, h1),
            language_of(b2.0),
            b2.1,
            h2,
        ),
{
    let blocks = seq![b1, b2];
    let outs = blocks.map_values(|b: (Seq<char>, Seq<char>)| block_outcome(b));
    assert(outs[0] == Some(h1));
    assert(outs[1] == Some(h2));
    assert(blocks.drop_last() =~= seq![b1]);
    assert(outs.drop_last() =~= seq![Some(h1)]);
    let first = splice_all(html, seq![b1], seq![Some(h1)]);
    assert(seq![b1].drop_last().len() == 0);
    assert(splice_all(html, seq![b1].drop_last(), seq![Some(h1)].drop_last()) == html);
    assert(first == spliced(html, language_of(b1.0), b1.1, h1));
}

/// A block is left as it is only when it has no highlighted form: adding to
/// a page's blocks one that gets a highlighted form replaces that block on
/// the page the earlier blocks made.
pub proof fn law_each_block_spliced(
    html: Seq<char>,
    blocks: Seq<(Seq<char>, Seq<char>)>,
    outs: Seq<Option<Seq<char>>>,
    b: (Seq<char>, Seq<char>),
    h: Seq<char>,
)
    requires
        outs.len() == blocks.len(),
    ensures
        splice_all(html, blocks.push(b), outs.push(Some(h))) == spliced(
            splice_all(html, blocks, outs),
            language_of(b.0),
            b.1,
            h,
        ),
        splice_all(html, blocks.push(b), outs.push(None)) == splice_all(html, blocks, outs),
{
    assert(blocks.push(b).drop_last() == blocks);
    assert(outs.push(Some(h)).drop_last() == outs);
    assert(outs.push(None::<Seq<char>>).drop_last() == outs);
}

} // verus!
