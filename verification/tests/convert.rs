use docling::config::{DoclingConfig, TransformMethod};
use docling::converter::{
    body_content, decode_basic_entities, extract_title_from_html, fallback, markdown_or_fallback,
    reader_url, reader_url_for, simple_html_to_markdown, ConversionJob,
    ConvertError, Converter,
};
use docling::text::{chars_of, string_of, to_lower};

fn with_method(method: TransformMethod) -> Converter {
    let mut config = DoclingConfig::default();
    config.transform_md_using = method;
    Converter::new(config)
}

#[test]
fn simple_conversion_strips_tags_and_squeezes_space() {
    let html = "<html><head><title>T</title></head><BODY class=\"x\">\n<h1>Hello</h1>\n<p>a &amp; b &lt;c&gt;</p>\n</Body></html>";
    assert_eq!(simple_html_to_markdown(html), "Hello a & b <c>");
}

#[test]
fn simple_conversion_without_body_takes_the_whole_text() {
    assert_eq!(simple_html_to_markdown("<p>one</p><p>two&nbsp;three</p>"), "one two three");
    assert_eq!(simple_html_to_markdown(""), "");
    assert_eq!(simple_html_to_markdown("<body>never closed <b>x</b>"), "never closed x");
}

#[test]
fn simple_conversion_keeps_text_that_only_looks_like_a_tag() {
    assert_eq!(simple_html_to_markdown("a <> b < c"), "a <> b < c");
    assert_eq!(simple_html_to_markdown("1 &quot;2&quot;"), "1 \"2\"");
}

#[test]
fn body_is_found_whatever_the_case() {
    let body = body_content(&chars_of("<BoDy id=a>inner</bOdY> after"));
    assert_eq!(string_of(&body), "inner");
    assert_eq!(string_of(&to_lower(&chars_of("AbC-Zz Äé"))), "abc-zz Äé");
}

#[test]
fn basic_entities_are_decoded_in_order() {
    assert_eq!(string_of(&decode_basic_entities(&chars_of("&amp;lt; &lt;&gt;&quot;&nbsp;."))), "&lt; <>\" .");
}

#[test]
fn title_is_trimmed_and_decoded() {
    assert_eq!(
        extract_title_from_html("<html><TITLE>  Fish &amp; Chips &#33; </TITLE></html>"),
        Some("Fish & Chips !".to_string())
    );
    assert_eq!(extract_title_from_html("<title></title>"), Some(String::new()));
    assert_eq!(extract_title_from_html("<title>open"), None);
    assert_eq!(extract_title_from_html("no title at all"), None);
    assert_eq!(extract_title_from_html("<title lang=en>x</title>"), None);
}

#[test]
fn fallback_puts_the_title_on_top() {
    let html = "<html><head><title>Page</title></head><body><p>Text</p></body></html>";
    assert_eq!(fallback(html), "# Page\n\nText");
    assert_eq!(fallback("<body><p>Text</p></body>"), "Text");
}

#[test]
fn fallback_is_used_only_without_a_primary_result() {
    let html = "<title>T</title><body>b</body>";
    assert_eq!(markdown_or_fallback(Some("# given".to_string()), html), "# given");
    assert_eq!(markdown_or_fallback(None, html), "# T\n\nb");
}

#[test]
fn htmd_converts_headings_and_emphasis() {
    let c = with_method(TransformMethod::Htmd);
    assert_eq!(c.convert_with_htmd("<h1>Hello</h1>").unwrap(), "# Hello");
    assert_eq!(c.convert_with_htmd("<p>a <strong>b</strong></p>").unwrap(), "a **b**");
}

#[test]
fn simple_conversion_leaves_no_white_space_run() {
    let text = simple_html_to_markdown("\u{212A}<body> a \n\n b\t<p>\u{a0}c </p>\r\n</body>");
    assert_eq!(text, "a b c");
    let odd = simple_html_to_markdown("x\u{2003}\u{2003}y\n\n\nz");
    assert_eq!(odd, "x y z");
}

fn nested(levels: usize) -> String {
    format!(
        "<title>T</title><body>{}x{}</body>",
        "<div>".repeat(levels),
        "</div>".repeat(levels)
    )
}

#[test]
fn htmd_converts_ordinary_pages_of_any_length() {
    let c = with_method(TransformMethod::Htmd);
    let page = format!("<html><body>{}</body></html>", "<p>a <b>b</b></p>\n".repeat(2000));
    let markdown = c.convert_with_htmd(&page).unwrap();
    assert!(markdown.starts_with("a **b**\n\na **b**"));
    assert_eq!(c.convert_file(&page, None), markdown);
    let list = format!("<ul>{}</ul>", "<li><a href=\"/x\">x</a></li>".repeat(500));
    assert!(c.convert_with_htmd(&list).is_ok());
}

#[test]
fn htmd_walks_a_tree_of_many_levels() {
    let c = with_method(TransformMethod::Htmd);
    assert_eq!(c.convert_with_htmd(&nested(150)).unwrap(), "T\n\nx");
    let mixed = format!("{}x", "<table><tr><td><ul><li><blockquote><b>".repeat(20));
    assert!(c.convert_with_htmd(&mixed).is_ok());
}

#[test]
fn htmd_is_given_no_tree_of_more_levels_than_its_walker_holds() {
    let c = with_method(TransformMethod::Htmd);
    assert!(c.convert_with_htmd(&nested(196)).is_ok());
    assert_eq!(c.convert_with_htmd(&nested(197)), Err(ConvertError::TooDeep));
    assert_eq!(c.convert_with_htmd(&nested(5000)), Err(ConvertError::TooDeep));
    assert_eq!(c.convert_file(&nested(5000), None), "# T\n\nx");
    let unclosed = format!("{}x", "<div>".repeat(3000));
    assert_eq!(c.convert_with_htmd(&unclosed), Err(ConvertError::TooDeep));
    let mismatched = format!("{}x", "<div></span>".repeat(3000));
    assert_eq!(c.convert_with_htmd(&mismatched), Err(ConvertError::TooDeep));
}

#[test]
fn convert_file_with_htmd_ignores_what_the_caller_brings() {
    let c = with_method(TransformMethod::Htmd);
    assert!(!c.needs_outside_converter());
    assert_eq!(c.convert_file("<h2>Title</h2>", Some("other".to_string())), "## Title");
}

#[test]
fn convert_file_with_an_outside_converter() {
    for method in [TransformMethod::FastHtml2md, TransformMethod::JinaReader] {
        let c = with_method(method);
        assert!(c.needs_outside_converter());
        let html = "<title>T</title><body><p>text</p></body>";
        assert_eq!(c.convert_file(html, Some("from outside".to_string())), "from outside");
        assert_eq!(c.convert_file(html, None), "# T\n\ntext");
    }
}

#[test]
fn reader_request_is_rebuilt_from_the_file_stem() {
    assert_eq!(
        reader_url("example.com_docs_intro"),
        Some("https://r.jina.ai/https://example.com/docs/intro".to_string())
    );
    assert_eq!(
        reader_url("example.com-slash-a"),
        Some("https://r.jina.ai/https://example.com/a".to_string())
    );
    assert_eq!(reader_url(""), None);
    assert_eq!(
        reader_url_for("example.com_docs.html"),
        Some("https://r.jina.ai/https://example.com/docs".to_string())
    );
}

#[test]
fn conversions_are_planned_for_html_files_only() {
    let c = with_method(TransformMethod::Htmd);
    let names = vec![
        "example.com.html".to_string(),
        "notes.txt".to_string(),
        "example.com_a_b.html".to_string(),
        ".html".to_string(),
        "x.HTML".to_string(),
    ];
    let jobs: Vec<ConversionJob> = c.convert_directory(&names);
    let got: Vec<(&str, &str)> =
        jobs.iter().map(|j| (j.html_file.as_str(), j.md_file.as_str())).collect();
    assert_eq!(
        got,
        vec![("example.com.html", "example.com.md"), ("example.com_a_b.html", "example.com_a_b.md")]
    );
}
