use docling::address::WebUrl;
use docling::extract::{fetchable, find_anchor_targets, find_image_sources, read_attr};
use docling::fetch::{check_status, FetchError};
use docling::media::{accept_media, plan_media, resolve_reference};
use docling::text::{chars_of, string_of};

fn texts(found: Vec<Vec<char>>) -> Vec<String> {
    found.iter().map(string_of).collect()
}

fn images(html: &str) -> Vec<String> {
    texts(find_image_sources(&chars_of(html)))
}

fn anchors(html: &str) -> Vec<String> {
    texts(find_anchor_targets(&chars_of(html)))
}

#[test]
fn image_sources_in_each_quoting() {
    let html = "<img src=\"a.png\">\n<img src='b.png'>\n<img src=c.png >\n<img alt=x src=d.png>";
    assert_eq!(images(html), vec!["a.png", "b.png", "c.png", "d.png"]);
}

#[test]
fn image_sources_of_every_element_on_a_line() {
    assert_eq!(images("<img src='a.png'><img src=\"b.png\"><img src=c.png>"), vec!["a.png", "b.png", "c.png"]);
    assert_eq!(images("<IMG SRC=\"A.png\"><p><Img\tSrc=b.png></p>"), vec!["A.png", "b.png"]);
}

#[test]
fn image_sources_need_an_image_element() {
    assert_eq!(images("<script src=\"a.js\"></script>"), Vec::<String>::new());
    assert_eq!(images("<img alt=\"none\">"), Vec::<String>::new());
    assert_eq!(images("<imgx src=a.png>"), Vec::<String>::new());
    assert_eq!(images("<p>img src=a.png</p>"), Vec::<String>::new());
    assert_eq!(images(""), Vec::<String>::new());
}

#[test]
fn image_source_that_never_ends_is_passed_over() {
    assert_eq!(images("<img src=\"a.png"), Vec::<String>::new());
    assert_eq!(images("<img src='a.png>"), Vec::<String>::new());
    assert_eq!(images("<img src=a.png"), Vec::<String>::new());
    assert_eq!(images("<img src=\"a.png><img src=b.png>"), vec!["b.png"]);
}

#[test]
fn each_element_is_read_by_its_own_quoting() {
    assert_eq!(images("<img src='x' data-x=\"y\"><img data-src=\"z\">"), vec!["x", "z"]);
}

#[test]
fn attribute_value_by_name() {
    let tag = chars_of("<a HREF=\"/x\" title='t' id=i7");
    assert_eq!(read_attr(&tag, &chars_of("href=")).map(|v| string_of(&v)), Some("/x".to_string()));
    assert_eq!(read_attr(&tag, &chars_of("title=")).map(|v| string_of(&v)), Some("t".to_string()));
    assert_eq!(read_attr(&tag, &chars_of("id=")).map(|v| string_of(&v)), Some("i7".to_string()));
    assert_eq!(read_attr(&tag, &chars_of("class=")), None);
}

#[test]
fn anchor_targets_in_order() {
    let html = "<p><a href=\"/a\">A</a> <a class=x href='b.html'>B</a>\n<a href=c>C</a></p>";
    assert_eq!(anchors(html), vec!["/a", "b.html", "c"]);
}

#[test]
fn anchor_tags_in_capitals_are_read() {
    assert_eq!(anchors("<A HREF=\"/Upper\">x</A> <a Href='/Mixed'>y</a>"), vec!["/Upper", "/Mixed"]);
}

#[test]
fn anchor_targets_skip_other_elements() {
    let html = "<abbr href=\"/no\">x</abbr><link href=\"style.css\"><a\thref=\"/yes\">y</a><a>z</a>";
    assert_eq!(anchors(html), vec!["/yes"]);
}

#[test]
fn anchor_scan_survives_malformed_markup() {
    assert_eq!(anchors("<a href=\"/open"), Vec::<String>::new());
    assert_eq!(anchors("<a href=\"/never closed>"), Vec::<String>::new());
    assert_eq!(anchors("<a"), Vec::<String>::new());
    assert_eq!(anchors("<a <a href=/x>"), vec!["/x"]);
    assert_eq!(anchors("<<<>>><a href=>"), Vec::<String>::new());
    assert_eq!(anchors("<a href=\"\">"), vec![""]);
}

#[test]
fn references_that_cannot_be_fetched() {
    assert!(!fetchable(&chars_of("#top")));
    assert!(!fetchable(&chars_of("javascript:void(0)")));
    assert!(!fetchable(&chars_of("mailto:a@b.c")));
    assert!(!fetchable(&chars_of("JavaScript:alert(1)")));
    assert!(!fetchable(&chars_of("MAILTO:a@b.c")));
    assert!(fetchable(&chars_of("page.html#top")));
    assert!(fetchable(&chars_of("")));
}

#[test]
fn reference_resolution_discards_what_cannot_be_fetched() {
    let page = WebUrl::parse("https://example.com/docs/").unwrap();
    assert!(resolve_reference(&page, &chars_of("#frag")).is_none());
    assert!(resolve_reference(&page, &chars_of("mailto:x@example.com")).is_none());
    assert_eq!(
        resolve_reference(&page, &chars_of("a.png")).unwrap().href,
        "https://example.com/docs/a.png"
    );
}

#[test]
fn media_plan_names_each_download() {
    let page = WebUrl::parse("https://example.com/docs/").unwrap();
    let html = "<img src=\"a.png\">\n<img src=\"/img/b.jpg\">\n<img src=\"https://cdn.example.org/c.gif\">";
    let plan = plan_media(&page, html, &vec![]);
    let got: Vec<(String, String)> =
        plan.iter().map(|j| (j.url.href.clone(), j.file_name.clone())).collect();
    assert_eq!(
        got,
        vec![
            ("https://example.com/docs/a.png".to_string(), "example.com_docs_a.png.png".to_string()),
            ("https://example.com/img/b.jpg".to_string(), "example.com_img_b.jpg.jpg".to_string()),
            ("https://cdn.example.org/c.gif".to_string(), "cdn.example.org_c.gif.gif".to_string()),
        ]
    );
}

#[test]
fn media_plan_skips_files_on_disk_and_repeats() {
    let page = WebUrl::parse("https://example.com/").unwrap();
    let html = "<img src=\"a.png\"><img src=\"b.png\">\n<img src=\"a.png\">";
    let on_disk = vec!["example.com_b.png.png".to_string()];
    let plan = plan_media(&page, html, &on_disk);
    let names: Vec<&str> = plan.iter().map(|j| j.file_name.as_str()).collect();
    assert_eq!(names, vec!["example.com_a.png.png"]);
}

#[test]
fn second_media_run_downloads_nothing() {
    let page = WebUrl::parse("https://example.com/").unwrap();
    let html = "<img src=\"a.png\">\n<img src='b.png'>\n<img src=c.png >";
    let mut on_disk = vec!["unrelated.txt".to_string()];
    let first = plan_media(&page, html, &on_disk);
    assert_eq!(first.len(), 3);
    for job in &first {
        on_disk.push(job.file_name.clone());
    }
    let second = plan_media(&page, html, &on_disk);
    assert!(second.is_empty());
}

#[test]
fn media_is_accepted_by_status_and_content_type() {
    assert!(accept_media(200, "image/png"));
    assert!(accept_media(299, "image/svg+xml; charset=utf-8"));
    assert!(!accept_media(200, "text/html"));
    assert!(!accept_media(200, ""));
    assert!(!accept_media(404, "image/png"));
    assert!(!accept_media(300, "image/png"));
    assert!(!accept_media(199, "image/png"));
    assert!(!accept_media(200, "IMAGE/PNG"));
}

#[test]
fn a_status_outside_the_two_hundreds_is_a_failure_that_keeps_the_status() {
    assert_eq!(check_status(200), Ok(()));
    assert_eq!(check_status(204), Ok(()));
    assert_eq!(check_status(299), Ok(()));
    assert_eq!(check_status(199), Err(FetchError::Status(199)));
    assert_eq!(check_status(300), Err(FetchError::Status(300)));
    assert_eq!(check_status(404), Err(FetchError::Status(404)));
    assert_eq!(check_status(0), Err(FetchError::Status(0)));
    assert_eq!(FetchError::Status(503).message(), "HTTP 503");
}

#[test]
fn media_plan_reads_every_image_of_a_one_line_page() {
    let page = WebUrl::parse("https://example.com/").unwrap();
    let html = "<img src='a.png'><img src=\"b.png\"><img src=c.png>";
    let plan = plan_media(&page, html, &vec![]);
    let urls: Vec<&str> = plan.iter().map(|j| j.url.href.as_str()).collect();
    assert_eq!(
        urls,
        vec!["https://example.com/a.png", "https://example.com/b.png", "https://example.com/c.png"]
    );
}
