use docling::address::WebUrl;
use docling::frontier::Frontier;
use docling::robots::{allows_path, parse_robots, robots_address, Rule};

#[test]
fn robots_file_lies_at_the_root_of_the_host() {
    let seed = WebUrl::parse("https://example.com/docs/start?x=1").unwrap();
    assert_eq!(robots_address(&seed).unwrap().href, "https://example.com/robots.txt");
}

fn rules(text: &str, agent: &str) -> Vec<(bool, String)> {
    parse_robots(text, agent).into_iter().map(|r| (r.allow, r.prefix)).collect()
}

const FILE: &str = "# comment\nUser-agent: *\nDisallow: /private/ # not for anyone\nAllow: /private/open\n\nUser-Agent: docling-bot\nUser-agent: other\nDisallow: /tmp\nDisallow:\nSitemap: https://example.com/sitemap.xml\n";

#[test]
fn rules_of_the_group_for_every_crawler() {
    assert_eq!(
        rules(FILE, "somebody"),
        vec![(false, "/private/".to_string()), (true, "/private/open".to_string())]
    );
}

#[test]
fn rules_of_the_group_that_names_the_crawler() {
    assert_eq!(rules(FILE, "mi4uling-DOCLING-bot/1.0"), vec![(false, "/tmp".to_string())]);
    assert_eq!(rules(FILE, "Other"), vec![(false, "/tmp".to_string())]);
}

#[test]
fn a_file_without_groups_has_no_rules() {
    assert!(rules("", "bot").is_empty());
    assert!(rules("Disallow: /", "bot").is_empty());
    assert!(rules("no colon here\nUser-agent bot\n", "bot").is_empty());
}

#[test]
fn the_longest_rule_decides() {
    let r = parse_robots(FILE, "somebody");
    assert!(allows_path(&r, "/"));
    assert!(allows_path(&r, "/public/page"));
    assert!(!allows_path(&r, "/private/"));
    assert!(!allows_path(&r, "/private/x"));
    assert!(allows_path(&r, "/private/open"));
    assert!(allows_path(&r, "/private/open/door"));
    assert!(allows_path(&r, "/private"));
}

#[test]
fn of_two_equally_long_rules_the_one_that_allows_decides() {
    let r = vec![
        Rule { allow: false, prefix: "/a".to_string() },
        Rule { allow: true, prefix: "/a".to_string() },
    ];
    assert!(allows_path(&r, "/a/b"));
    assert!(allows_path(&vec![], "/anything"));
    let all = vec![Rule { allow: false, prefix: "/".to_string() }];
    assert!(!allows_path(&all, "/anything"));
}

#[test]
fn the_frontier_passes_over_disallowed_paths() {
    let seed = WebUrl::parse("https://example.com/").unwrap();
    let mut frontier = Frontier::new(seed, 1, true, 1);
    frontier.set_rules(parse_robots("User-agent: *\nDisallow: /private", "bot"));
    let item = frontier.next_fetch().unwrap();
    frontier.page_fetched(
        item.depth,
        &item.url,
        "<a href=\"/private/x\">no</a> <a href=\"/public\">yes</a> <a href=\"/public#part\">same</a>",
    );
    let found: Vec<&str> = frontier.discovered().iter().map(|i| i.url.href.as_str()).collect();
    assert_eq!(found, vec!["https://example.com/", "https://example.com/public"]);
}

#[test]
fn fragments_do_not_make_new_documents() {
    let seed = WebUrl::parse("https://example.com/start#intro").unwrap();
    let mut frontier = Frontier::new(seed, 2, true, 1);
    let item = frontier.next_fetch().unwrap();
    assert_eq!(item.url.href, "https://example.com/start");
    frontier.page_fetched(item.depth, &item.url, "<a href=\"/start#end\">x</a><a href=\"/a#1\">a</a><a href=\"/a#2\">a</a>");
    let found: Vec<&str> = frontier.discovered().iter().map(|i| i.url.href.as_str()).collect();
    assert_eq!(found, vec!["https://example.com/start", "https://example.com/a"]);
}
