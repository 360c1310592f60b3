use rusty_notes::highlighter::highlight_html;
use rusty_notes::notes::utils::render_doc;

const HELLO_WORLD: &str = "## Hello world in C\n\n```c\n#include <stdio.h>\n\nint\nmain() {\n    printf(\"Hello, World!\\n\");\n    return 0;\n}\n```\n\n## how to run it?\n\nSave the code.\n";

fn markdown(txt: &str) -> String {
    let mut options = comrak::Options::default();
    options.extension.table = true;
    options.extension.header_id_prefix = Some("user-content-".to_string());
    comrak::markdown_to_html(txt, &options)
}

#[test]
fn rendered_note_has_highlighted_code() {
    let html = markdown(HELLO_WORLD);
    assert!(html.contains("<pre><code class=\"language-c\">#include &lt;stdio.h&gt;"));
    let page = render_doc(Some(&html)).unwrap();
    assert!(!page.contains("<code class=\"language-c\">"));
    assert!(page.contains("<pre><code><span style="));
    assert!(page.contains("stdio"));
    assert!(page.contains("&lt;"));
    assert!(!page.contains("&amp;lt;"));
    assert!(page.contains("Hello world in C"));
}

#[test]
fn quotes_in_code_are_matched() {
    let html = markdown("```c\nputs(\"hi\");\n```\n");
    let out = highlight_html(&html);
    assert_ne!(out, html);
    assert!(out.contains("hi"));
}

#[test]
fn collapse_sections_in_rendered_note() {
    let html = "<collapse title=\"Details\">\n<p>x</p>\n</collapse>\n";
    let page = render_doc(Some(html)).unwrap();
    assert!(page.starts_with("<div class=\"collap\">"));
    assert!(page.contains("<b>Details</b>"));
    assert!(page.ends_with("</div></div>\n"));
}
