use docling::config::DoclingConfig;
use docling::processor::{
    is_markdown_name, sort_by_name, MarkdownFile, ProcessError, Processor,
};

fn processor() -> Processor {
    Processor::new(DoclingConfig::default())
}

fn file(name: &str, content: &str) -> MarkdownFile {
    MarkdownFile { name: name.to_string(), content: content.to_string() }
}

#[test]
fn combine_keeps_domain_link_and_reduces_foreign_link() {
    let files = vec![
        file("a.md", "[home](https://example.com)"),
        file("b.md", "[ext](https://other.com)"),
    ];
    let out = processor().combine_files(files, "https://example.com/").unwrap();
    assert_eq!(out, "\n## a\n\n[home](https://example.com)\n\n## b\n\next");
    assert!(out.contains("[home](https://example.com)"));
    assert!(!out.contains("https://other.com"));
}

#[test]
fn combine_orders_sections_by_file_name() {
    let files = vec![file("b.md", "second"), file("a.md", "first"), file("ab.md", "third")];
    let out = processor().combine_files(files, "https://example.com/").unwrap();
    assert_eq!(out, "\n## a\n\nfirst\n\n## ab\n\nthird\n\n## b\n\nsecond");
}

#[test]
fn combine_is_the_same_for_every_order_of_the_input() {
    let one = vec![file("x.md", "1"), file("y.md", "2"), file("z.md", "3")];
    let other = vec![file("z.md", "3"), file("x.md", "1"), file("y.md", "2")];
    let a = processor().combine_files(one, "https://example.com/").unwrap();
    let b = processor().combine_files(other, "https://example.com/").unwrap();
    assert_eq!(a, b);
}

#[test]
fn combine_of_nothing_is_empty() {
    let out = processor().combine_files(vec![], "https://example.com/").unwrap();
    assert_eq!(out, "");
}

#[test]
fn combine_rejects_base_url_that_does_not_parse() {
    let r = processor().combine_files(vec![], "not a url");
    assert_eq!(r, Err(ProcessError::InvalidBaseUrl));
    assert_eq!(ProcessError::InvalidBaseUrl.message(), "Invalid base URL");
}

#[test]
fn combine_rejects_base_url_without_host() {
    let r = processor().combine_files(vec![], "mailto:someone@example.com");
    assert_eq!(r, Err(ProcessError::NoHost));
    assert_eq!(ProcessError::NoHost.message(), "URL has no host");
}

#[test]
fn sort_by_name_orders_by_characters() {
    let sorted = sort_by_name(vec![file("b", ""), file("B", ""), file("a", ""), file("", "")]);
    let names: Vec<&str> = sorted.iter().map(|f| f.name.as_str()).collect();
    assert_eq!(names, vec!["", "B", "a", "b"]);
}

#[test]
fn sort_by_name_keeps_the_order_of_equal_names() {
    let sorted = sort_by_name(vec![file("a", "first"), file("a", "second")]);
    assert_eq!(sorted[0].content, "first");
    assert_eq!(sorted[1].content, "second");
}

#[test]
fn markdown_names_have_the_extension_md() {
    assert!(is_markdown_name("page.md"));
    assert!(is_markdown_name("a.b.md"));
    assert!(!is_markdown_name("page.html"));
    assert!(!is_markdown_name("page"));
    assert!(!is_markdown_name(".md"));
    assert!(!is_markdown_name("page.MD"));
}

#[test]
fn process_entry_names_the_result_and_skips_other_files() {
    let files = vec![file("a.md", "text"), file("notes.txt", "ignored")];
    let doc = processor().process_entry("site", "https://example.com/", files).unwrap();
    assert_eq!(doc.directory, "outputs/site/results_md");
    assert_eq!(doc.file_name, "site.md");
    assert_eq!(doc.content, "\n## a\n\ntext");
}

#[test]
fn process_entry_fails_on_a_bad_base_url() {
    let r = processor().process_entry("site", "::", vec![]);
    assert!(matches!(r, Err(ProcessError::InvalidBaseUrl)));
}

#[test]
fn process_links_reduces_a_foreign_link_to_its_text() {
    let p = processor();
    assert_eq!(p.process_links("see [ext](https://other.com) now", "example.com"), "see ext now");
}

#[test]
fn process_links_keeps_links_of_the_domain() {
    let p = processor();
    let line = "[home](https://example.com) and [docs](https://docs.example.com/x)";
    assert_eq!(p.process_links(line, "example.com"), line);
}

#[test]
fn process_links_handles_neighbouring_links() {
    let p = processor();
    let line = "[a](https://one.org)[b](https://example.com/b)[c](https://two.org/c)";
    assert_eq!(p.process_links(line, "example.com"), "a[b](https://example.com/b)c");
}

#[test]
fn process_links_keeps_relative_and_unreadable_targets() {
    let p = processor();
    assert_eq!(p.process_links("[rel](/path/x)", "example.com"), "[rel](/path/x)");
    assert_eq!(p.process_links("[mail](mailto:a@other.com)", "example.com"), "[mail](mailto:a@other.com)");
    assert_eq!(p.process_links("[open](https://other.com", "example.com"), "[open](https://other.com");
    assert_eq!(p.process_links("](https://other.com)", "example.com"), "](https://other.com)");
}

#[test]
fn process_links_reduces_a_link_nested_in_a_link_text() {
    let p = processor();
    let line = "[c [d](https://two.org)](https://example.com)";
    assert_eq!(p.process_links(line, "example.com"), "[c d](https://example.com)");
}

#[test]
fn process_links_replaces_every_occurrence_of_the_link() {
    let p = processor();
    let line = "[x](http://o.org) and [x](http://o.org)";
    assert_eq!(p.process_links(line, "example.com"), "x and x");
}

#[test]
fn process_links_is_idempotent() {
    let p = processor();
    let line = "[a](https://one.org) [b](https://example.com) [c [d](https://two.org)](https://example.com)";
    let once = p.process_links(line, "example.com");
    assert_eq!(p.process_links(&once, "example.com"), once);
}

#[test]
fn clean_content_drops_image_lines() {
    let p = processor();
    let content = "# Title\n![logo](https://example.com/logo.png)\n  ![x](y)\ntext ![inline](z) stays\n";
    assert_eq!(p.clean_content(content, "example.com"), "# Title\ntext ![inline](z) stays\n");
}

#[test]
fn clean_content_keeps_an_image_with_a_caption() {
    let p = processor();
    let content = "![a](https://example.com/i.png) caption\n";
    assert_eq!(p.clean_content(content, "example.com"), content);
}

#[test]
fn clean_content_ends_every_line_with_a_line_feed() {
    let p = processor();
    assert_eq!(p.clean_content("a\r\nb", "example.com"), "a\nb\n");
    assert_eq!(p.clean_content("", "example.com"), "");
    assert_eq!(p.clean_content("\n\n", "example.com"), "\n\n");
}

#[test]
fn remove_html_tags_removes_elements_of_each_form() {
    let p = processor();
    assert_eq!(p.remove_html_tags("a<img src=\"x\"/>b", "img"), "ab");
    assert_eq!(p.remove_html_tags("a<img src=\"x\">b", "img"), "ab");
    assert_eq!(p.remove_html_tags("a<video controls>inner</video>b", "video"), "ab");
    assert_eq!(p.remove_html_tags("a<audio>1</audio>b<audio>2</audio>c", "audio"), "abc");
    assert_eq!(p.remove_html_tags("no tags here", "img"), "no tags here");
}

#[test]
fn remove_html_tags_cuts_a_fragment_that_never_ends() {
    let p = processor();
    assert_eq!(p.remove_html_tags("x <img", "img"), "x ");
    assert_eq!(p.remove_html_tags("text <img src=", "img"), "text ");
    assert_eq!(p.remove_html_tags("a <img src=x <b", "img"), "a <b");
    assert_eq!(p.remove_html_tags("<img<img<img", "img"), "");
}

#[test]
fn remove_html_tags_leaves_other_elements() {
    let p = processor();
    assert_eq!(p.remove_html_tags("<p>x</p><img/>", "img"), "<p>x</p>");
}

#[test]
fn final_cleanup_reduces_blank_runs_to_one_blank_line() {
    let p = processor();
    assert_eq!(p.final_cleanup("a\n\n\n\nb\n \n\t\nc\n").unwrap(), "a\n\nb\n \nc");
}

#[test]
fn final_cleanup_removes_leftover_media() {
    let p = processor();
    let text = "x <img src=\"a.png\"> y\n<video src=\"v\">fallback</video>\n<audio/>z";
    assert_eq!(p.final_cleanup(text).unwrap(), "x  y\n\nz");
}

#[test]
fn final_cleanup_leaves_no_blank_run_where_media_stood() {
    let p = processor();
    let once = p.final_cleanup("a\n\n<img src=x>\n\nb").unwrap();
    assert_eq!(once, "a\n\nb");
    assert_eq!(p.final_cleanup(&once).unwrap(), once);
}

#[test]
fn final_cleanup_cuts_media_that_other_media_hid() {
    let p = processor();
    assert_eq!(p.final_cleanup("x<im<video>g src=a>y").unwrap(), "xy");
    assert_eq!(p.final_cleanup("x <img").unwrap(), "x ");
}

#[test]
fn final_cleanup_twice_is_final_cleanup_once() {
    let p = processor();
    let once = p.final_cleanup("a\n\n\n<img/>b\n\n\n\nc").unwrap();
    assert_eq!(p.final_cleanup(&once).unwrap(), once);
}
