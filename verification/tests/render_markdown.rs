use md_render::links::PathOracle;
use md_render::events::{parse_markdown, render_events};
use md_render::pipeline::render_markdown;

/// Dummy oracle always answering false.
struct DummyIsFile;

impl PathOracle for DummyIsFile {
    fn is_file(&self, _path: &str) -> bool {
        false
    }
}

/// Oracle affirming exactly one resolved path.
struct OnlyBar;

impl PathOracle for OnlyBar {
    fn is_file(&self, path: &str) -> bool {
        path == "./bar.md"
    }
}

/// Oracle affirming every path.
struct EveryFile;

impl PathOracle for EveryFile {
    fn is_file(&self, _path: &str) -> bool {
        true
    }
}

#[test]
fn it_can_keep_quotes_straight() {
    assert_eq!(render_markdown("'one'", None, DummyIsFile, false), "<p>'one'</p>\n");
}

#[test]
fn it_can_make_quotes_curly_except_when_they_are_in_code() {
    let input = "\n'one'\n```\n'two'\n```\n`'three'` 'four'";
    let expected = "<p>\u{2018}one\u{2019}</p>\n<pre><code>'two'\n</code></pre>\n<p><code>'three'</code> \u{2018}four\u{2019}</p>\n";
    assert_eq!(render_markdown(input, None, DummyIsFile, true), expected);
}

#[test]
fn whitespace_outside_of_codeblock_header_is_preserved() {
    let input = "\nsome text with spaces\n```rust\nfn main() {\n// code inside is unchanged\n}\n```\nmore text with spaces\n";
    let expected = "<p>some text with spaces</p>\n<pre><code class=\"language-rust\">fn main() {\n// code inside is unchanged\n}\n</code></pre>\n<p>more text with spaces</p>\n";
    assert_eq!(render_markdown(input, None, DummyIsFile, false), expected);
    assert_eq!(render_markdown(input, None, DummyIsFile, true), expected);
}

#[test]
fn rust_code_block_properties_are_passed_as_space_delimited_class() {
    let input = "\n```rust,no_run,should_panic,property_3\n```\n";
    let expected =
        "<pre><code class=\"language-rust,no_run,should_panic,property_3\"></code></pre>\n";
    assert_eq!(render_markdown(input, None, DummyIsFile, false), expected);
    assert_eq!(render_markdown(input, None, DummyIsFile, true), expected);
}

#[test]
fn rust_code_block_properties_with_whitespace_are_passed_as_space_delimited_class() {
    let input = "\n```rust,    no_run,,,should_panic , ,property_3\n```\n";
    let expected =
        "<pre><code class=\"language-rust,no_run,,,should_panic,,property_3\"></code></pre>\n";
    assert_eq!(render_markdown(input, None, DummyIsFile, false), expected);
    assert_eq!(render_markdown(input, None, DummyIsFile, true), expected);
}

#[test]
fn rust_code_block_without_properties_has_proper_html_class() {
    let input = "\n```rust\n```\n";
    let expected = "<pre><code class=\"language-rust\"></code></pre>\n";
    assert_eq!(render_markdown(input, None, DummyIsFile, false), expected);
    assert_eq!(render_markdown(input, None, DummyIsFile, true), expected);

    let input = "\n```rust\n```\n";
    assert_eq!(render_markdown(input, None, DummyIsFile, false), expected);
    assert_eq!(render_markdown(input, None, DummyIsFile, true), expected);
}

#[test]
fn test_expand_relative_path() {
    let input = "\n[foo](./bar.md)\n[foo](./baz.md)\n";
    let expected = "<p><a href=\"./bar.html\">foo</a>\n<a href=\"./baz.md\">foo</a></p>\n";

    // The document sits at ".", whose containing directory is empty, so a
    // destination resolves to itself; only ./bar.md names a file.
    assert_eq!(render_markdown(input, Some("."), OnlyBar, false), expected);
}

#[test]
fn plain_document_round_trips_through_the_pipeline() {
    // No code blocks, no straight quotes, no relative markdown links: the
    // full pipeline must equal the external renderer run directly.
    let input = "# heading\n\nplain *prose* and an [absolute](https://example.com/page.md) link\n";
    let direct = render_events(parse_markdown(input));
    assert_eq!(render_markdown(input, Some("dir/doc.md"), EveryFile, true), direct);
    assert_eq!(render_markdown(input, None, DummyIsFile, true), direct);
}

#[test]
fn absolute_destinations_survive_an_affirming_oracle() {
    // Even with an oracle that affirms every path and a markdown extension,
    // an absolute destination is never rewritten.
    let input = "[foo](https://example.com/bar.md)\n";
    let expected = "<p><a href=\"https://example.com/bar.md\">foo</a></p>\n";
    assert_eq!(render_markdown(input, Some("."), EveryFile, false), expected);
}
