use md_render::codeblock::{clean_codeblock_headers, strip_whitespace};
use md_render::events::MdEvent;
use md_render::links::{
    parent_of, resolve, swap_extension, translate_destination, translate_relative_link,
    ChangeExtLinkFilter, LinkFilter, PathOracle, RelativeLinkConverter,
};
use pulldown_cmark::LinkType;
use md_render::quotes::{convert_quotes_to_curly, EventQuoteConverter};

/// Oracle affirming every path.
struct Always;

impl PathOracle for Always {
    fn is_file(&self, _path: &str) -> bool {
        true
    }
}

/// Oracle denying every path.
struct Never;

impl PathOracle for Never {
    fn is_file(&self, _path: &str) -> bool {
        false
    }
}

#[test]
fn it_converts_single_quotes() {
    assert_eq!(convert_quotes_to_curly("'one', 'two'"), "\u{2018}one\u{2019}, \u{2018}two\u{2019}");
}

#[test]
fn it_converts_double_quotes() {
    assert_eq!(convert_quotes_to_curly("\"one\", \"two\""), "\u{201C}one\u{201D}, \u{201C}two\u{201D}");
}

#[test]
fn it_treats_tab_as_whitespace() {
    assert_eq!(convert_quotes_to_curly("\t'one'"), "\t\u{2018}one\u{2019}");
}

#[test]
fn quote_converter_passes_events_through_when_disabled() {
    let mut converter = EventQuoteConverter::new(false);
    let out = converter.convert(MdEvent::Text(String::from("'one'")));
    match out {
        MdEvent::Text(t) => assert_eq!(t, "'one'"),
        _ => panic!("expected a text event"),
    }
}

#[test]
fn quote_converter_skips_text_inside_code_blocks() {
    let mut converter = EventQuoteConverter::new(true);
    converter.convert(MdEvent::CodeBlockStart(String::from("rust")));
    let inside = converter.convert(MdEvent::Text(String::from("'two'")));
    match inside {
        MdEvent::Text(t) => assert_eq!(t, "'two'"),
        _ => panic!("expected a text event"),
    }
    converter.convert(MdEvent::CodeBlockEnd);
    let outside = converter.convert(MdEvent::Text(String::from("'four'")));
    match outside {
        MdEvent::Text(t) => assert_eq!(t, "\u{2018}four\u{2019}"),
        _ => panic!("expected a text event"),
    }
}

#[test]
fn codeblock_header_normalization_removes_only_whitespace() {
    let out = clean_codeblock_headers(MdEvent::CodeBlockStart(String::from(
        "rust,    no_run,,,should_panic , ,property_3",
    )));
    match out {
        MdEvent::CodeBlockStart(info) => assert_eq!(info, "rust,no_run,,,should_panic,,property_3"),
        _ => panic!("expected a code-block start event"),
    }
    assert_eq!(strip_whitespace(" a\tb c "), "abc");
}

#[test]
fn extension_swap_preserves_all_other_path_segments() {
    assert_eq!(swap_extension("dir/sub/page.md", "md", "html"), Some(String::from("dir/sub/page.html")));
    assert_eq!(swap_extension("a.b.md", "md", "html"), Some(String::from("a.b.html")));
    assert_eq!(swap_extension("./bar.md", "md", "html"), Some(String::from("./bar.html")));
}

#[test]
fn extension_swap_rejects_other_extensions() {
    assert_eq!(swap_extension("page.markdown", "md", "html"), None);
    assert_eq!(swap_extension("page.html", "md", "html"), None);
    assert_eq!(swap_extension("", "md", "html"), None);
    // A final segment that is just the bare token still counts as a match.
    assert_eq!(swap_extension("md", "md", "html"), Some(String::from(".html")));
}

#[test]
fn translation_requires_relativity_eligibility_and_extension() {
    assert_eq!(
        translate_destination("./bar.md", true, "md", "html"),
        Some(String::from("./bar.html"))
    );
    assert_eq!(translate_destination("./bar.md", false, "md", "html"), None);
    assert_eq!(translate_destination("./bar.txt", true, "md", "html"), None);
    // Absolute destinations are never translated, whatever the rest says.
    assert_eq!(translate_destination("https://example.com/bar.md", true, "md", "html"), None);
}

#[test]
fn relative_link_translation_consults_the_oracle() {
    assert_eq!(
        translate_relative_link("book/src", "./bar.md", &Always),
        Some(String::from("./bar.html"))
    );
    assert_eq!(translate_relative_link("book/src", "./bar.md", &Never), None);
    assert_eq!(translate_relative_link("book/src", "https://example.com/bar.md", &Always), None);
}

#[test]
fn link_filter_swaps_the_configured_extension() {
    let filter = ChangeExtLinkFilter::new(Always, String::from("md"), String::from("html"));
    assert_eq!(filter.apply("dir/page.md"), Some(String::from("dir/page.html")));
    assert_eq!(filter.apply("dir/page.rst"), None);
    assert_eq!(filter.apply("https://example.com/page.md"), None);

    let closed = ChangeExtLinkFilter::new(Never, String::from("md"), String::from("html"));
    assert_eq!(closed.apply("dir/page.md"), None);
}

#[test]
fn relative_link_converter_rewrites_only_eligible_links() {
    let mut converter = RelativeLinkConverter::new(String::from("."), Always);
    let out = converter.convert(MdEvent::LinkStart(
        LinkType::Inline,
        String::from("./bar.md"),
        String::from("a title"),
        String::new(),
    ));
    match out {
        MdEvent::LinkStart(_, dest, title, _) => {
            assert_eq!(dest, "./bar.html");
            assert_eq!(title, "a title");
        }
        _ => panic!("expected a link start event"),
    }
    let out = converter.convert(MdEvent::LinkStart(
        LinkType::Inline,
        String::from("https://example.com/a.md"),
        String::new(),
        String::new(),
    ));
    match out {
        MdEvent::LinkStart(_, dest, _, _) => assert_eq!(dest, "https://example.com/a.md"),
        _ => panic!("expected a link start event"),
    }
}

#[test]
fn parent_and_resolution_follow_the_path_model() {
    assert_eq!(parent_of(""), None);
    assert_eq!(parent_of("."), Some(String::from("")));
    assert_eq!(parent_of("book/src/ch.md"), Some(String::from("book/src")));
    assert_eq!(resolve("", "./bar.md"), "./bar.md");
    assert_eq!(resolve("book/src", "./bar.md"), "book/src/./bar.md");
}
