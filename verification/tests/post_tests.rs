use myblog::highlight::Highlighter;
use myblog::post::{
    add_heading_ids, escape_xml, extract_toc, highlight_code_blocks, reading_time, render_markdown,
    resolve_syntax, slugify, split_frontmatter, strip_html_tags, unescape_html, word_count,
    Frontmatter,
};

fn highlighter() -> Highlighter {
    Highlighter::load_defaults().expect("syntect ships the InspiredGitHub theme")
}

/// The frontmatter of a post file: the crate's `split_frontmatter` cuts the
/// file, and the TOML is read here the way the server reads it (the TOML
/// reading itself is not part of the crate, so the `test_parse_frontmatter_*`
/// tests check `split_frontmatter` and this reading together).
fn parse_frontmatter(content: &str) -> Option<(Frontmatter, String)> {
    let (front, markdown) = split_frontmatter(content)?;
    let table = front.parse::<toml::Table>().ok()?;
    let title = table.get("title")?.as_str()?.to_string();
    let date = table.get("date")?.as_str()?.to_string();
    let mut tags = Vec::new();
    for t in table.get("tags")?.as_array()? {
        tags.push(t.as_str()?.to_string());
    }
    let excerpt = match table.get("excerpt") {
        Some(v) => Some(v.as_str()?.to_string()),
        None => None,
    };
    Some((Frontmatter { title, date, tags, excerpt }, markdown))
}

#[test]
fn test_parse_frontmatter_valid() {
    let input = "+++\ntitle = \"Test Post\"\ndate = \"2024-01-15\"\ntags = [\"rust\", \"web\"]\n+++\n\n# Hello\n\nWorld";
    let result = parse_frontmatter(input);
    assert!(result.is_some());
    let (fm, md) = result.unwrap();
    assert_eq!(fm.title, "Test Post");
    assert_eq!(fm.date, "2024-01-15");
    assert_eq!(fm.tags, vec!["rust", "web"]);
    assert!(fm.excerpt.is_none());
    assert!(md.contains("# Hello"));
}

#[test]
fn test_parse_frontmatter_no_delimiters() {
    let input = "# Just a heading\n\nNo frontmatter here.";
    assert!(parse_frontmatter(input).is_none());
}

#[test]
fn test_parse_frontmatter_missing_end() {
    let input = "+++\ntitle = \"Broken\"\ndate = \"2024-01-15\"\ntags = []\n";
    assert!(parse_frontmatter(input).is_none());
}

#[test]
fn test_parse_frontmatter_invalid_toml() {
    let input = "+++\ntitle =\n+++\n\nContent";
    assert!(parse_frontmatter(input).is_none());
}

#[test]
fn test_parse_frontmatter_empty() {
    assert!(parse_frontmatter("").is_none());
}

#[test]
fn test_slugify_basic() {
    assert_eq!(slugify("Hello World"), "hello-world");
}

#[test]
fn test_slugify_special_chars() {
    assert_eq!(slugify("Rust & Web Dev!"), "rust-web-dev");
}

#[test]
fn test_slugify_multi_spaces() {
    assert_eq!(slugify("foo    bar   baz"), "foo-bar-baz");
}

#[test]
fn test_slugify_leading_trailing_spaces() {
    assert_eq!(slugify("  spaced  "), "spaced");
}

#[test]
fn test_slugify_alphanumeric_only() {
    assert_eq!(slugify("abc123"), "abc123");
}

#[test]
fn test_slugify_unicode() {
    assert_eq!(slugify("Hello 世界"), "hello-世界");
}

#[test]
fn test_strip_html_tags_basic() {
    assert_eq!(strip_html_tags("<p>Hello</p>"), "Hello");
}

#[test]
fn test_strip_html_tags_with_text_around() {
    assert_eq!(strip_html_tags("before <b>bold</b> after"), "before bold after");
}

#[test]
fn test_strip_html_tags_self_closing() {
    assert_eq!(strip_html_tags("Line1<br>Line2<hr>"), "Line1Line2");
}

#[test]
fn test_strip_html_tags_no_tags() {
    assert_eq!(strip_html_tags("plain text"), "plain text");
}

#[test]
fn test_strip_html_tags_empty() {
    assert_eq!(strip_html_tags(""), "");
}

#[test]
fn test_extract_toc_heading_levels() {
    let html = r#"<h2 id="sec1">Section 1</h2><p>text</p><h3 id="sec1-1">Sub 1.1</h3><p>more</p><h4 id="sec1-1-1">Sub sub</h4>"#;
    let toc = extract_toc(html);
    assert_eq!(toc.len(), 3);
    assert_eq!(toc[0].level, 2);
    assert_eq!(toc[0].id, "sec1");
    assert_eq!(toc[0].text, "Section 1");
    assert_eq!(toc[1].level, 3);
    assert_eq!(toc[1].text, "Sub 1.1");
    assert_eq!(toc[2].level, 4);
}

#[test]
fn test_extract_toc_ignores_h1_h5_h6() {
    let html = r#"<h1 id="top">Top</h1><h5 id="small">Small</h5><h6 id="tiny">Tiny</h6>"#;
    let toc = extract_toc(html);
    assert!(toc.is_empty());
}

#[test]
fn test_extract_toc_no_headings() {
    assert!(extract_toc("<p>no headings</p>").is_empty());
}

#[test]
fn test_extract_toc_multiple_same_level() {
    let html = r#"<h2 id="a">A</h2><h2 id="b">B</h2><h2 id="c">C</h2>"#;
    assert_eq!(extract_toc(html).len(), 3);
}

#[test]
fn test_word_count_basic() {
    assert_eq!(word_count("<p>one two three four</p>"), 4);
}

#[test]
fn test_word_count_empty() {
    assert_eq!(word_count(""), 0);
}

#[test]
fn test_word_count_with_html() {
    assert_eq!(word_count("<div><p>hello world</p><span>foo bar</span></div>"), 3);
}

#[test]
fn test_reading_time_minimum() {
    assert_eq!(reading_time("<p>short</p>"), 1);
}

#[test]
fn test_reading_time_200_words() {
    let words = "word ".repeat(200);
    assert_eq!(reading_time(&format!("<p>{}</p>", words)), 1);
}

#[test]
fn test_reading_time_400_words() {
    let words = "word ".repeat(400);
    assert_eq!(reading_time(&format!("<p>{}</p>", words)), 2);
}

#[test]
fn test_escape_xml_all() {
    assert_eq!(escape_xml("a&b<c>d\"e'f"), "a&amp;b&lt;c&gt;d&quot;e&apos;f");
}

#[test]
fn test_escape_xml_no_special() {
    assert_eq!(escape_xml("hello world"), "hello world");
}

#[test]
fn test_escape_xml_empty() {
    assert_eq!(escape_xml(""), "");
}

#[test]
fn test_unescape_html_all() {
    assert_eq!(unescape_html("&amp; &lt; &gt; &quot; &#39; &#x27;"), "& < > \" ' '");
}

#[test]
fn test_unescape_html_plain() {
    assert_eq!(unescape_html("no entities"), "no entities");
}

#[test]
fn test_add_heading_ids_without_id() {
    let html = "<h2>Hello World</h2>";
    let result = add_heading_ids(html);
    assert!(result.contains(r#"id="hello-world""#));
}

#[test]
fn test_add_heading_ids_preserves_existing_id() {
    let html = r#"<h2 id="custom-id">Hello</h2>"#;
    let result = add_heading_ids(html);
    assert!(result.contains(r#"id="custom-id""#));
}

#[test]
fn test_add_heading_ids_multiple() {
    let html = "<h2>First</h2><h3>Second</h3><h4>Third</h4>";
    let result = add_heading_ids(html);
    assert!(result.contains(r#"id="first""#));
    assert!(result.contains(r#"id="second""#));
    assert!(result.contains(r#"id="third""#));
}

#[test]
fn test_add_heading_ids_skips_h1() {
    let html = "<h1>Title</h1>";
    let result = add_heading_ids(html);
    assert!(result.contains(r#"id="title""#));
}

#[test]
fn test_render_markdown_basic() {
    let result = render_markdown("# Hello\n\nThis is **bold**.", &highlighter());
    assert!(result.contains("<h1"));
    assert!(result.contains("id="));
    assert!(result.contains("<strong>"));
}

#[test]
fn test_render_markdown_table() {
    let md = "| A | B |\n|---|---|\n| 1 | 2 |";
    let result = render_markdown(md, &highlighter());
    assert!(result.contains("<table>"));
}

#[test]
fn test_render_markdown_code_block() {
    let md = "```rust\nfn main() {}\n```";
    let result = render_markdown(md, &highlighter());
    assert!(result.contains("code-block"));
    assert!(result.contains("data-lang=\"rust\""));
    assert!(result.contains("main"));
}

#[test]
fn test_render_markdown_plain_code_block() {
    let md = "```\nplain code\n```";
    let result = render_markdown(md, &highlighter());
    assert!(result.contains("code-block"));
    assert!(result.contains("ln\">1<"));
}

#[test]
fn test_render_markdown_task_list() {
    let md = "- [x] done\n- [ ] todo";
    let result = render_markdown(md, &highlighter());
    assert!(result.contains("checked"));
}

#[test]
fn test_render_markdown_footnote() {
    let md = "text[^1]\n\n[^1]: note";
    let result = render_markdown(md, &highlighter());
    assert!(result.contains("footnote"));
}

#[test]
fn post_test_full_post_pipeline() {
    let md = "+++\ntitle = \"Pipeline Test\"\ndate = \"2025-01-01\"\ntags = [\"pipeline\", \"test\"]\nexcerpt = \"Pipeline excerpt\"\n+++\n\n## Heading\n\nSome **bold** text. More text here for word count.\n\n```python\nprint(\"hello\")\n```";
    let (fm, body) = parse_frontmatter(md).unwrap();
    assert_eq!(fm.title, "Pipeline Test");

    let html = render_markdown(&body, &highlighter());
    assert!(html.contains("<h2 id=\"heading\""));

    let toc = extract_toc(&html);
    assert!(!toc.is_empty());
    assert_eq!(toc[0].text, "Heading");

    let wc = word_count(&html);
    assert!(wc > 0);

    let rt = reading_time(&html);
    assert_eq!(rt, 1);

    let stripped = strip_html_tags(&html).to_lowercase();
    assert!(stripped.contains("heading"));
    assert!(stripped.contains("print"));
}

#[test]
fn test_highlight_code_blocks_with_lang() {
    let html = "<pre><code class=\"language-rust\">fn main() {}</code></pre>";
    let result = highlight_code_blocks(html, &highlighter());
    assert!(result.contains("code-block"), "should have code-block wrapper");
    assert!(result.contains("data-lang=\"rust\""), "should preserve language attribute");
    assert!(result.contains("<table"), "should include table markup");
}

#[test]
fn test_highlight_code_blocks_plain() {
    let html = "<pre><code>plain text</code></pre>";
    let result = highlight_code_blocks(html, &highlighter());
    assert!(result.contains("code-block"), "should have code-block wrapper");
    assert!(!result.contains("data-lang"), "should NOT have language attribute for plain blocks");
    assert!(result.contains("<table"), "should include table markup");
}

#[test]
fn test_resolve_syntax_jsx() {
    let hl = highlighter();
    let syntax = resolve_syntax("jsx", &hl.syntaxes);
    assert!(syntax.is_some(), "jsx should resolve to JavaScript");
    assert_eq!(syntax.unwrap().name, "JavaScript");
}

#[test]
fn test_resolve_syntax_typescript() {
    let hl = highlighter();
    let syntax = resolve_syntax("typescript", &hl.syntaxes);
    assert!(syntax.is_some(), "typescript should resolve to JavaScript");
    assert_eq!(syntax.unwrap().name, "JavaScript");
}

#[test]
fn test_resolve_syntax_kotlin() {
    let hl = highlighter();
    let syntax = resolve_syntax("kotlin", &hl.syntaxes);
    assert!(syntax.is_some(), "kotlin should resolve to Java");
    assert_eq!(syntax.unwrap().name, "Java");
}

#[test]
fn test_resolve_syntax_dart() {
    let hl = highlighter();
    let syntax = resolve_syntax("dart", &hl.syntaxes);
    assert!(syntax.is_some(), "dart should resolve to JavaScript");
    assert_eq!(syntax.unwrap().name, "JavaScript");
}

#[test]
fn test_resolve_syntax_vue() {
    let hl = highlighter();
    let syntax = resolve_syntax("vue", &hl.syntaxes);
    assert!(syntax.is_some(), "vue should resolve to HTML");
    assert_eq!(syntax.unwrap().name, "HTML");
}

#[test]
fn test_resolve_syntax_svelte() {
    let hl = highlighter();
    let syntax = resolve_syntax("svelte", &hl.syntaxes);
    assert!(syntax.is_some(), "svelte should resolve to HTML");
    assert_eq!(syntax.unwrap().name, "HTML");
}

#[test]
fn test_resolve_syntax_elixir() {
    let hl = highlighter();
    let syntax = resolve_syntax("elixir", &hl.syntaxes);
    assert!(syntax.is_some(), "elixir should resolve to Ruby");
    assert_eq!(syntax.unwrap().name, "Ruby");
}

#[test]
fn test_resolve_syntax_unknown() {
    let hl = highlighter();
    let ss = &hl.syntaxes;
    assert!(resolve_syntax("mermaid", ss).is_none(), "mermaid should not be resolved");
    assert!(resolve_syntax("hcl", ss).is_none(), "hcl should not be resolved");
    assert!(resolve_syntax("unknown_language", ss).is_none(), "unknown language should not be resolved");
}

#[test]
fn test_highlight_code_blocks_jsx() {
    let html = r#"<pre><code class="language-jsx">const x = <div /></code></pre>"#;
    let result = highlight_code_blocks(html, &highlighter());
    assert!(result.contains("code-block"), "should have code-block wrapper");
    assert!(result.contains(r#"data-lang="jsx""#), "should preserve original jsx language attribute");
}

#[test]
fn test_highlight_code_blocks_typescript() {
    let html = r#"<pre><code class="language-typescript">const x: number = 1</code></pre>"#;
    let result = highlight_code_blocks(html, &highlighter());
    assert!(result.contains("code-block"), "should have code-block wrapper");
    assert!(result.contains(r#"data-lang="typescript""#), "should preserve original language attribute");
}

#[test]
fn test_highlight_code_blocks_unmapped() {
    let html = r#"<pre><code class="language-mermaid">graph TD; A-->B;</code></pre>"#;
    let result = highlight_code_blocks(html, &highlighter());
    assert!(result.contains("code-block"), "should have code-block wrapper");
    assert!(result.contains(r#"data-lang="mermaid""#), "should preserve original language attribute");
    assert!(!result.contains("<span style"), "should NOT have syntax-highlighted spans");
}

#[test]
fn test_strip_html_tags_case_insensitive() {
    assert_eq!(strip_html_tags("<BR>"), "");
    assert_eq!(strip_html_tags("<Script>alert(1)</Script>"), "");
    assert_eq!(strip_html_tags("<IMG SRC=\"x\">"), "");
    assert_eq!(strip_html_tags("<P>Hello</P>"), "Hello");
}

#[test]
fn test_add_heading_ids_duplicates() {
    let html = "<h2>Intro</h2><h2>Intro</h2>";
    let result = add_heading_ids(html);
    assert!(result.contains(r#"id="intro""#), "both occurrences should have id=intro: {}", result);
    assert_eq!(result.matches(r#"id="intro""#).count(), 2, "both headings get same id");
}

#[test]
fn code_is_highlighted_with_inspired_github() {
    let hl = highlighter();
    let themes = syntect::highlighting::ThemeSet::load_defaults();
    assert!(hl.theme == themes.themes["InspiredGitHub"]);
    assert!(hl.theme != themes.themes["Solarized (dark)"]);
}
