use rusty_notes::highlighter::{
    _title_string, code_language, highlight_html, highlight_html_checked, splice_highlighted,
};

#[test]
fn it_works() {
    assert_eq!(2 + 2, 4);
}

#[test]
fn title_string_capitalises_first_char() {
    assert_eq!(_title_string("rust"), "Rust");
    assert_eq!(_title_string("c"), "C");
    assert_eq!(_title_string(""), "");
    assert_eq!(_title_string("Python"), "Python");
    assert_eq!(_title_string("ßx"), "SSx");
}

#[test]
fn code_language_reads_class() {
    assert_eq!(code_language("<code class=\"language-rust\">fn main() {}</code>"), "rust");
    assert_eq!(code_language("<code class=\"language-c\">int x;</code>"), "c");
    assert_eq!(code_language("<code>plain</code>"), "");
}

#[test]
fn splice_replaces_plain_block() {
    let html = "<p>x</p><pre><code class=\"language-c\">a \"b\"</code></pre>";
    let highlighted = "<pre style=\"background-color:#fdf6e3;\">\n<span>a</span>\n</pre>\n";
    let out = splice_highlighted(html, "c", "a \"b\"", highlighted);
    assert_eq!(out, "<p>x</p><pre><code class=\"language-c\">a \"b\"</code></pre>");
    let out = splice_highlighted(
        "<pre><code class=\"language-c\">a &quot;b&quot;</code></pre>",
        "c",
        "a \"b\"",
        highlighted,
    );
    assert_eq!(out, "<pre><code><span>a</span>\n</code></pre>\n");
}

#[test]
fn highlight_html_colours_known_language() {
    let html = "<pre><code class=\"language-rust\">fn main() {}\n</code></pre>\n";
    let out = highlight_html(html);
    assert_ne!(out, html);
    assert!(out.starts_with("<pre><code>"));
    assert!(out.contains("<span style="));
    assert!(out.contains("</code></pre>"));
}

#[test]
fn highlight_html_leaves_unknown_language() {
    let html = "<pre><code class=\"language-nosuchlang\">x = 1\n</code></pre>\n";
    assert_eq!(highlight_html(html), html);
    let plain = "<p>no code here</p>";
    assert_eq!(highlight_html(plain), plain);
}

#[test]
fn unknown_language_block_kept_byte_for_byte() {
    let html = r#"<p>intro</p><pre><code class="language-zzz">a &lt; b</code></pre>"#;
    assert_eq!(highlight_html(html), html);
}

#[test]
fn language_found_by_name() {
    let html = r#"<pre><code class="language-rust">fn main() {}</code></pre>"#;
    let out = highlight_html(html);
    assert!(out.starts_with("<pre><code>"));
    assert!(out.ends_with("</code></pre>\n"));
    assert!(out.contains("<span style="));
    assert!(!out.contains("language-rust"));
}

#[test]
fn entities_are_not_escaped_twice() {
    let html = r#"<pre><code class="language-rs">a &lt; b &amp;&amp; c</code></pre>"#;
    let out = highlight_html(html);
    assert_ne!(out, html);
    assert!(out.contains("&lt;"));
    assert!(out.contains("&amp;"));
    assert!(!out.contains("&amp;lt;"));
    assert!(!out.contains("&amp;amp;"));
}

#[test]
fn quoted_code_is_matched_and_highlighted() {
    let html = r#"<pre><code class="language-rs">let s = &quot;x&quot;;</code></pre>"#;
    let out = highlight_html(html);
    assert_ne!(out, html);
    assert!(out.contains("<span style="));
    assert!(!out.contains("language-rs"));
}

#[test]
fn checked_highlighting() {
    let ok = r#"<pre><code class="language-rs">let x = 1;</code></pre>"#;
    assert_eq!(highlight_html_checked(ok), Some(highlight_html(ok)));
    // in an unknown language the block is left as it is
    let unknown = r#"<pre><code class="language-zzz">a &nosuchentity; b</code></pre>"#;
    assert_eq!(highlight_html_checked(unknown), Some(unknown.to_string()));
}
