use docling::address::WebUrl;
use docling::filename::url_to_filename;
use docling::media::{media_file_name, page_file_name};

fn name_of(url: &str) -> String {
    url_to_filename(&WebUrl::parse(url).unwrap())
}

#[test]
fn filename_of_a_bare_host_is_the_host() {
    assert_eq!(name_of("https://example.com/"), "example.com");
    assert_eq!(name_of("https://example.com"), "example.com");
}

#[test]
fn filename_joins_host_and_segments_with_underscores() {
    assert_eq!(name_of("https://example.com/a/b.html"), "example.com_a_b.html");
    assert_eq!(name_of("https://example.com/a//b/"), "example.com_a_b");
    assert_eq!(name_of("https://example.com/docs/?q=1#top"), "example.com_docs");
}

#[test]
fn filename_spells_out_web_characters() {
    assert_eq!(name_of("https://example.com/x&y=z+w"), "example.com_x_and_y_eq_z_plus_w");
}

#[test]
fn filename_replaces_reserved_characters() {
    assert_eq!(name_of("https://example.com/a:b*c"), "example.com_a_b_c");
    assert_eq!(name_of("https://example.com/a|b"), "example.com_a_b");
}

#[test]
fn filename_has_no_underscore_runs_or_edges() {
    assert_eq!(name_of("https://example.com/_a___b_/"), "example.com_a_b");
    let odd = WebUrl { href: String::new(), host: Some("_h_".to_string()), path: "/__x__".to_string() };
    assert_eq!(url_to_filename(&odd), "h_x");
}

#[test]
fn filename_is_capped_at_two_hundred_characters() {
    let long = format!("https://example.com/{}", "a".repeat(300));
    let name = name_of(&long);
    assert_eq!(name.len(), 200);
    assert_eq!(name, format!("example.com_{}", "a".repeat(188)));
}

#[test]
fn filename_cut_drops_a_trailing_underscore() {
    let path = format!("/{}/{}", "a".repeat(187), "b".repeat(50));
    let url = WebUrl { href: String::new(), host: Some("example.com".to_string()), path };
    let name = url_to_filename(&url);
    assert_eq!(name, format!("example.com_{}", "a".repeat(187)));
}

#[test]
fn filename_without_host_uses_a_stand_in() {
    assert_eq!(name_of("mailto:someone@example.com"), "unknown_host");
}

#[test]
fn filename_of_nothing_is_index() {
    let empty = WebUrl { href: String::new(), host: Some("___".to_string()), path: "/".to_string() };
    assert_eq!(url_to_filename(&empty), "index");
    let blank = WebUrl { href: String::new(), host: Some(String::new()), path: String::new() };
    assert_eq!(url_to_filename(&blank), "index");
}

#[test]
fn filename_is_the_same_on_every_call() {
    let url = WebUrl::parse("https://example.com/a/b?c=d").unwrap();
    assert_eq!(url_to_filename(&url), url_to_filename(&url));
}

#[test]
fn page_file_has_the_extension_html() {
    let url = WebUrl::parse("https://example.com/a/b").unwrap();
    assert_eq!(page_file_name(&url), "example.com_a_b.html");
}

#[test]
fn media_file_takes_the_extension_of_the_last_segment() {
    let png = WebUrl::parse("https://example.com/img/logo.png").unwrap();
    assert_eq!(media_file_name(&png), "example.com_img_logo.png.png");
    let bare = WebUrl::parse("https://example.com/img/logo").unwrap();
    assert_eq!(media_file_name(&bare), "example.com_img_logo.logo");
    let root = WebUrl::parse("https://example.com/").unwrap();
    assert_eq!(media_file_name(&root), "example.com.");
    let dotted = WebUrl::parse("https://example.com/a.b/c.tar.gz").unwrap();
    assert_eq!(media_file_name(&dotted), "example.com_a.b_c.tar.gz.gz");
}

#[test]
fn media_file_without_segments_is_a_jpg() {
    let data = WebUrl::parse("data:image/png;base64,AAAA").unwrap();
    assert_eq!(media_file_name(&data), "unknown_host.jpg");
}

#[test]
fn parse_gives_text_host_and_path() {
    let url = WebUrl::parse("HTTPS://Example.COM/a/../b?x=1#f").unwrap();
    assert_eq!(url.href, "https://example.com/b?x=1#f");
    assert_eq!(url.host.as_deref(), Some("example.com"));
    assert_eq!(url.path, "/b");
    assert!(WebUrl::parse("/relative/only").is_none());
}

#[test]
fn resolve_joins_relative_references_to_the_page() {
    let page = WebUrl::parse("https://example.com/docs/index.html").unwrap();
    assert_eq!(page.resolve("guide.html").unwrap().href, "https://example.com/docs/guide.html");
    assert_eq!(page.resolve("/top").unwrap().href, "https://example.com/top");
    assert_eq!(page.resolve("//cdn.example.com/x.png").unwrap().href, "https://cdn.example.com/x.png");
    assert_eq!(page.resolve("http://other.com/b").unwrap().href, "http://other.com/b");
    assert!(page.resolve("http://[bad").is_none());
}

#[test]
fn filename_is_capped_in_bytes() {
    let url = WebUrl { href: String::new(), host: Some("é".repeat(150)), path: "/".to_string() };
    let name = url_to_filename(&url);
    assert_eq!(name, "é".repeat(100));
    assert_eq!(name.len(), 200);
    let odd = WebUrl { href: String::new(), host: Some(format!("a{}", "日".repeat(100))), path: String::new() };
    let name = url_to_filename(&odd);
    assert_eq!(name, format!("a{}", "日".repeat(66)));
    assert_eq!(name.len(), 199);
}

#[test]
fn filename_holds_none_of_the_spelled_out_characters() {
    let url = WebUrl { href: String::new(), host: Some("_&_=+_".to_string()), path: "/a&&b==c++/".to_string() };
    let name = url_to_filename(&url);
    assert_eq!(name, "and_eq_plus_a_and_and_b_eq_eq_c_plus_plus");
    assert!(!name.contains(['&', '=', '+']));
    assert!(!name.starts_with('_') && !name.ends_with('_'));
}
