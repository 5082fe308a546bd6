use docling::document::{file_extension, file_stem, image_line};
use docling::edit::{blank, cut, has_suffix, replace, trim_class, trim_end_class, trim_start_class};
use docling::filename::split_non_empty;
use docling::lines::{join_with, split_lines};
use docling::order::text_less;
use docling::text::{
    chars_of, find, find_class, matches_here, rfind_class, same_text, space_char, string_of,
    CharClass,
};

fn c(s: &str) -> Vec<char> {
    chars_of(s)
}

fn s(v: &Vec<char>) -> String {
    string_of(v)
}

#[test]
fn characters_round_trip() {
    for text in ["", "abc", "héllo wörld", "日本語", "a\u{1F600}b"] {
        assert_eq!(s(&c(text)), text);
        assert_eq!(c(text).len(), text.chars().count());
    }
}

#[test]
fn find_gives_the_first_occurrence() {
    assert_eq!(find(&c("abcabc"), &c("bc"), 0), Some(1));
    assert_eq!(find(&c("abcabc"), &c("bc"), 2), Some(4));
    assert_eq!(find(&c("abcabc"), &c("bc"), 5), None);
    assert_eq!(find(&c("abcabc"), &c("x"), 0), None);
    assert_eq!(find(&c("abc"), &c(""), 3), Some(3));
    assert_eq!(find(&c("abc"), &c(""), 4), None);
    assert_eq!(find(&c("ab"), &c("abc"), 0), None);
    assert_eq!(find(&c("héé"), &c("é"), 0), Some(1));
}

#[test]
fn match_at_an_index() {
    assert!(matches_here(&c("hello"), &c("ell"), 1));
    assert!(!matches_here(&c("hello"), &c("ell"), 2));
    assert!(!matches_here(&c("hello"), &c("lo!"), 3));
    assert!(matches_here(&c("hello"), &c(""), 5));
    assert!(!matches_here(&c("hello"), &c(""), 6));
}

#[test]
fn classes_of_characters() {
    assert_eq!(find_class(&c("ab cd"), CharClass::Space, 0), Some(2));
    assert_eq!(find_class(&c("ab>cd e"), CharClass::SpaceOr('>'), 0), Some(2));
    assert_eq!(find_class(&c("ab>cd e"), CharClass::SpaceOr('>'), 3), Some(5));
    assert_eq!(find_class(&c("abc"), CharClass::Just('c'), 3), None);
    assert_eq!(rfind_class(&c("a[b[c"), CharClass::Just('['), 5), Some(3));
    assert_eq!(rfind_class(&c("a[b[c"), CharClass::Just('['), 3), Some(1));
    assert_eq!(rfind_class(&c("a[b[c"), CharClass::Just('['), 1), None);
    assert_eq!(rfind_class(&c("abc"), CharClass::Just('a'), 9), None);
}

#[test]
fn white_space_is_what_unicode_says() {
    for ch in ['\t', '\n', '\u{b}', '\u{c}', '\r', ' ', '\u{85}', '\u{a0}', '\u{1680}', '\u{2000}',
               '\u{200a}', '\u{2028}', '\u{2029}', '\u{202f}', '\u{205f}', '\u{3000}'] {
        assert!(space_char(ch), "{:?}", ch);
    }
    for ch in ['a', '\u{8}', '\u{e}', '\u{200b}', '\u{feff}', '_', '\u{180e}'] {
        assert!(!space_char(ch), "{:?}", ch);
    }
    for code in 0..0x3100u32 {
        if let Some(ch) = char::from_u32(code) {
            assert_eq!(space_char(ch), ch.is_whitespace(), "{:x}", code);
        }
    }
}

#[test]
fn trimming() {
    assert_eq!(s(&trim_class(&c("  a b \t\n"), CharClass::Space)), "a b");
    assert_eq!(s(&trim_class(&c(" \u{a0} "), CharClass::Space)), "");
    assert_eq!(s(&trim_start_class(&c("__a_"), CharClass::Just('_'))), "a_");
    assert_eq!(s(&trim_end_class(&c("__a_"), CharClass::Just('_'))), "__a");
    assert_eq!(s(&trim_class(&c(""), CharClass::Space)), "");
    assert!(blank(&c(" \t ")));
    assert!(blank(&c("")));
    assert!(!blank(&c(" x ")));
}

#[test]
fn replacing() {
    assert_eq!(s(&replace(&c("a__b____c"), &c("__"), &c("_"))), "a_b__c");
    assert_eq!(s(&replace(&c("aaa"), &c("aa"), &c("b"))), "ba");
    assert_eq!(s(&replace(&c("abc"), &c(""), &c("x"))), "abc");
    assert_eq!(s(&replace(&c("abc"), &c("abc"), &c(""))), "");
    assert_eq!(s(&replace(&c("x&y"), &c("&"), &c("_and_"))), "x_and_y");
    assert_eq!(s(&replace(&c(""), &c("a"), &c("b"))), "");
}

#[test]
fn cutting_and_suffixes() {
    assert_eq!(s(&cut(&c("abcdef"), 2, 4)), "abef");
    assert_eq!(s(&cut(&c("abcdef"), 0, 6)), "");
    assert_eq!(s(&cut(&c("abcdef"), 3, 3)), "abcdef");
    assert!(has_suffix(&c("page.md"), &c(".md")));
    assert!(!has_suffix(&c("md"), &c(".md")));
    assert!(has_suffix(&c("md"), &c("")));
}

#[test]
fn lines_as_the_standard_library_splits_them() {
    for text in ["", "a", "a\n", "a\nb", "a\r\nb\r\n", "\n", "\n\n", "a\r", "a\rb\n", "\r\n", "x\n\ny\n\n"] {
        let ours: Vec<String> = split_lines(&c(text)).iter().map(s).collect();
        let theirs: Vec<String> = text.lines().map(|l| l.to_string()).collect();
        assert_eq!(ours, theirs, "{:?}", text);
    }
}

#[test]
fn joining() {
    assert_eq!(s(&join_with(&vec![c("a"), c("b"), c("")], &c(", "))), "a, b, ");
    assert_eq!(s(&join_with(&vec![], &c(", "))), "");
    assert_eq!(s(&join_with(&vec![c("only")], &c(", "))), "only");
}

#[test]
fn splitting_without_empty_pieces() {
    let parts: Vec<String> = split_non_empty(&c("/a//b/"), '/', 1).iter().map(s).collect();
    assert_eq!(parts, vec!["a", "b"]);
    assert!(split_non_empty(&c("///"), '/', 0).is_empty());
    assert!(split_non_empty(&c(""), '/', 0).is_empty());
}

#[test]
fn order_of_texts() {
    assert!(text_less(&c("a"), &c("b")));
    assert!(text_less(&c(""), &c("a")));
    assert!(text_less(&c("a"), &c("ab")));
    assert!(text_less(&c("Z"), &c("a")));
    assert!(!text_less(&c("a"), &c("a")));
    assert!(!text_less(&c("b"), &c("a")));
    assert!(!text_less(&c(""), &c("")));
    for (x, y) in [("a", "é"), ("é", "日"), ("z", "\u{1F600}"), ("ab", "b")] {
        assert_eq!(text_less(&c(x), &c(y)), x < y);
        assert_eq!(text_less(&c(y), &c(x)), y < x);
    }
}

#[test]
fn same_text_compares_characters() {
    assert!(same_text("abc", "abc"));
    assert!(!same_text("abc", "abd"));
    assert!(!same_text("abc", "ab"));
    assert!(same_text("", ""));
}

#[test]
fn stems_and_extensions() {
    assert_eq!(s(&file_stem(&c("page.md"))), "page");
    assert_eq!(s(&file_stem(&c("a.b.md"))), "a.b");
    assert_eq!(s(&file_stem(&c(".hidden"))), ".hidden");
    assert_eq!(s(&file_stem(&c("plain"))), "plain");
    assert_eq!(file_extension(&c("page.md")).map(|e| s(&e)), Some("md".to_string()));
    assert_eq!(file_extension(&c("page.")).map(|e| s(&e)), Some(String::new()));
    assert_eq!(file_extension(&c(".hidden")), None);
    assert_eq!(file_extension(&c("plain")), None);
}

#[test]
fn image_lines() {
    assert!(image_line(&c("![alt](x.png)")));
    assert!(image_line(&c("  ![](x.png)\t")));
    assert!(!image_line(&c("   ![alt](x.png) trailing")));
    assert!(!image_line(&c("![a](x.png)![b](y.png)")));
    assert!(!image_line(&c("![alt]")));
    assert!(!image_line(&c("text ![alt](x.png)")));
    assert!(!image_line(&c("![alt] (x.png)")));
    assert!(!image_line(&c("![alt](x.png")));
    assert!(!image_line(&c("")));
}
