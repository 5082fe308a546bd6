//! Turning one HTML document into Markdown: by the `htmd` converter, by a
//! converter that the caller runs, or by a minimal converter of the
//! library's own that strips the markup.

use vstd::prelude::*;
use std::rc::Rc;
use crate::address::{WebUrl, url_parsed};
use crate::config::{DoclingConfig, TransformMethod};
use crate::document::{extension_of, file_extension, file_stem, stem_of};
use crate::edit::{
    collapse, collapsed, lemma_collapsed, lemma_part_single_spaced, lemma_trimmed, replace,
    replace_all, single_spaced, skip_leading, trim, trim_class,
};
use crate::layout::{html, md, with_extension};

use crate::media::name_views;
use crate::text::{
    CharClass, append_chars, chars_of, find, find_class, find_from, first_in, is_space,
    lemma_find_from, lemma_first_in, lowered, same_chars, slice_of, string_of, to_lower,
};

verus! {

/// The pattern of an HTML tag: `<`, at least one character that is not
/// `>`, and `>`.
pub open spec fn tag_pattern() -> Seq<char> {
    "<[^>]+>"@
}

/// What `regex::Regex::replace_all` returns for the pattern `pattern`,
/// the text `text` and the replacement `rep`; nothing where
/// `regex::Regex::new` refuses the pattern.
pub uninterp spec fn regex_replaced(pattern: Seq<char>, text: Seq<char>, rep: Seq<char>) -> Option<
    Seq<char>,
>;

/// What `html_escape::decode_html_entities` returns for `text`.
pub uninterp spec fn entities_decoded(text: Seq<char>) -> Seq<char>;

/// What `htmd::HtmlToMarkdown::convert` returns for `html` with the
/// converter's default options, which is what `tree_to_markdown` returns
/// for the tree that `html_to_tree` makes of `html`; nothing where it
/// reports an error.
pub uninterp spec fn htmd_markdown(html: Seq<char>) -> Option<Seq<char>>;

/// An optional text as an optional sequence of characters.
pub open spec fn opt_text(t: Option<String>) -> Option<Seq<char>> {
    match t {
        Some(s) => Some(s@),
        None => None,
    }
}

/// Compiles `pattern` with `regex::Regex::new` and calls `replace_all` on
/// `text` with the replacement `rep`. The result is determined by the three
/// texts; nothing more is claimed of it.
#[verifier::external_body]
fn regex_replace_all(pattern: &str, text: &str, rep: &str) -> (r: Option<String>)
    ensures
        opt_text(r) == regex_replaced(pattern@, text@, rep@),
{
    match regex::Regex::new(pattern) {
        Ok(re) => Some(re.replace_all(text, rep).into_owned()),
        Err(_) => None,
    }
}

/// Calls `html_escape::decode_html_entities`. The result is determined by
/// the text; nothing more is claimed of it.
#[verifier::external_body]
fn decode_entities(text: &str) -> (r: String)
    ensures
        r@ == entities_decoded(text@),
{
    html_escape::decode_html_entities(text).into_owned()
}

/// The most levels of a document tree that is handed to `htmd`'s walker.
/// Pages as they are written stay far below it; their length does not
/// count.
pub const MAX_HTMD_LEVELS: usize = 200;

/// The node of the document tree that `htmd` builds and walks.
#[verifier::external_type_specification]
#[verifier::external_body]
pub struct ExNode(htmd::Node);

/// The levels of the tree under a node of `htmd`'s document tree, the node
/// counted: one for a node without children, and one more than its deepest
/// child has for any other. The children are those of the node's field
/// `children`.
pub uninterp spec fn tree_levels(node: htmd::Node) -> nat;

/// What `htmd::HtmlToMarkdown::tree_to_markdown` returns for a tree as
/// `html_to_tree` made it, with the converter's default options.
pub uninterp spec fn tree_markdown(node: htmd::Node) -> Seq<char>;

/// The levels of the tree that `htmd::HtmlToMarkdown::html_to_tree` makes
/// of `html`.
pub uninterp spec fn htmd_levels(html: Seq<char>) -> nat;

/// The most levels under any of the nodes.
pub open spec fn deepest(kids: Seq<Rc<htmd::Node>>) -> nat
    decreases kids.len(),
{
    if kids.len() == 0 {
        0
    } else if tree_levels(*kids.last()) > deepest(kids.drop_last()) {
        tree_levels(*kids.last())
    } else {
        deepest(kids.drop_last())
    }
}

/// Calls `htmd::HtmlToMarkdown::new` and `html_to_tree` on the result. The
/// tree is determined by the text, and `convert` is nothing but this call
/// followed by `tree_to_markdown`; nothing more is claimed.
#[verifier::external_body]
fn parse_tree(html: &str) -> (r: Option<Rc<htmd::Node>>)
    ensures
        match r {
            Some(tree) => htmd_markdown(html@) == Some(tree_markdown(*tree)) && tree_levels(*tree)
                == htmd_levels(html@),
            None => htmd_markdown(html@) is None,
        },
{
    match htmd::HtmlToMarkdown::new().html_to_tree(html) {
        Ok(tree) => Some(tree),
        Err(_) => None,
    }
}

/// Reads the field `children` of a node of `htmd`'s document tree. The
/// tree is finite and no node is its own descendant, so the node has one
/// level more than its deepest child.
#[verifier::external_body]
fn children_of(node: &Rc<htmd::Node>) -> (kids: Vec<Rc<htmd::Node>>)
    ensures
        tree_levels(**node) == 1 + deepest(kids@),
{
    node.children.borrow().clone()
}

/// Calls `htmd::HtmlToMarkdown::new` and `tree_to_markdown` on the result.
/// The walker goes down the tree by recursion: `walk_node` and
/// `walk_children` call each other once for each level, and nothing else
/// in it grows with the tree. A thread with two megabytes of stack holds
/// more than 400 levels of that recursion and fewer than 800, so a tree of
/// at most `MAX_HTMD_LEVELS` levels takes no more than half of such a
/// stack. Only such a tree is admitted. The walker joins neighbouring
/// blocks of the tree as it goes, so the tree is given up to it.
#[verifier::external_body]
fn walk_tree(tree: Rc<htmd::Node>) -> (r: String)
    requires
        tree_levels(*tree) <= MAX_HTMD_LEVELS,
    ensures
        r@ == tree_markdown(*tree),
{
    htmd::HtmlToMarkdown::new().tree_to_markdown(&tree)
}

/// The levels of the tree under `node`, where they are at most `room`.
fn levels_within(node: &Rc<htmd::Node>, room: usize) -> (r: Option<usize>)
    ensures
        match r {
            Some(n) => n == tree_levels(**node) && n <= room,
            None => tree_levels(**node) > room,
        },
    decreases room,
{
    let kids = children_of(node);
    if room == 0 {
        return None;
    }
    let mut most: usize = 0;
    let mut i: usize = 0;
    assert(kids@.take(0) =~= Seq::<Rc<htmd::Node>>::empty());
    while i < kids.len()
        invariant
            i <= kids.len(),
            room > 0,
            most == deepest(kids@.take(i as int)),
            most <= room - 1,
            tree_levels(**node) == 1 + deepest(kids@),
        decreases kids.len() - i,
    {
        proof {
            let next = kids@.take(i + 1);
            assert(next.drop_last() =~= kids@.take(i as int));
            assert(next.last() == kids@[i as int]);
            lemma_deepest_grows(kids@, i + 1);
        }
        match levels_within(&kids[i], room - 1) {
            Some(n) => {
                if n > most {
                    most = n;
                }
            },
            None => {
                return None;
            },
        }
        i += 1;
    }
    assert(kids@.take(kids.len() as int) =~= kids@);
    Some(most + 1)
}

/// The deepest of all is at least as deep as the deepest of the first.
proof fn lemma_deepest_grows(kids: Seq<Rc<htmd::Node>>, k: int)
    requires
        0 <= k <= kids.len(),
    ensures
        deepest(kids.take(k)) <= deepest(kids),
    decreases kids.len() - k,
{
    if k < kids.len() {
        let next = kids.take(k + 1);
        assert(next.drop_last() =~= kids.take(k));
        lemma_deepest_grows(kids, k + 1);
    } else {
        assert(kids.take(k) =~= kids);
    }
}

/// How the body element opens: `<body`.
pub open spec fn body_open() -> Seq<char> {
    seq!['<', 'b', 'o', 'd', 'y']
}

/// The closing tag of the body element.
pub open spec fn body_close() -> Seq<char> {
    seq!['<', '/', 'b', 'o', 'd', 'y', '>']
}

/// The opening tag of the title element.
pub open spec fn title_open() -> Seq<char> {
    seq!['<', 't', 'i', 't', 'l', 'e', '>']
}

/// The closing tag of the title element.
pub open spec fn title_close() -> Seq<char> {
    seq!['<', '/', 't', 'i', 't', 'l', 'e', '>']
}

/// The content of the body element: what stands between the `>` that ends
/// the first `<body` and the first `</body>` after it, whatever the case
/// of the tags' letters; the whole text where one of the three is missing.
pub open spec fn body_of(html: Seq<char>) -> Seq<char> {
    match find_from(lowered(html), body_open(), 0) {
        None => html,
        Some(open) => match first_in(html, CharClass::Just('>'), open) {
            None => html,
            Some(gt) => match find_from(lowered(html), body_close(), gt + 1) {
                None => html,
                Some(close) => if gt + 1 <= close <= html.len() {
                    html.subrange(gt + 1, close)
                } else {
                    html
                },
            },
        },
    }
}

/// `text` with the pattern's matches replaced by one space; `text` itself
/// where the pattern is refused.
pub open spec fn blanked(pattern: Seq<char>, text: Seq<char>) -> Seq<char> {
    match regex_replaced(pattern, text, seq![' ']) {
        Some(out) => out,
        None => text,
    }
}

/// `text` with the entities `&lt;`, `&gt;`, `&amp;`, `&quot;` and
/// `&nbsp;` replaced by what they stand for, in that order.
pub open spec fn basic_entities_decoded(text: Seq<char>) -> Seq<char> {
    let a = replace_all(text, seq!['&', 'l', 't', ';'], seq!['<']);
    let b = replace_all(a, seq!['&', 'g', 't', ';'], seq!['>']);
    let c = replace_all(b, seq!['&', 'a', 'm', 'p', ';'], seq!['&']);
    let d = replace_all(c, seq!['&', 'q', 'u', 'o', 't', ';'], seq!['"']);
    replace_all(d, seq!['&', 'n', 'b', 's', 'p', ';'], seq![' '])
}

/// The Markdown that the minimal converter makes of `html`: the text of
/// the body, without tags and with the basic entities decoded; each run of
/// white space is one space, and none stands at either end.
pub open spec fn simple_markdown(html: Seq<char>) -> Seq<char> {
    trim(collapsed(basic_entities_decoded(blanked(tag_pattern(), body_of(html)))))
}

/// For every HTML text: in what the minimal converter makes of it no
/// white space follows white space, and none stands at either end.
pub proof fn lemma_simple_markdown(html: Seq<char>)
    ensures
        single_spaced(simple_markdown(html)),
        simple_markdown(html).len() > 0 ==> !is_space(simple_markdown(html)[0]) && !is_space(
            simple_markdown(html).last(),
        ),
{
    let inner = basic_entities_decoded(blanked(tag_pattern(), body_of(html)));
    let flat = collapsed(inner);
    lemma_collapsed(inner, 0, false);
    lemma_trimmed(flat, CharClass::Space);
    let a = flat.len() - skip_leading(flat, CharClass::Space).len();
    lemma_part_single_spaced(flat, a, a + simple_markdown(html).len());
}

/// The title of the document: what stands between the first `<title>` and
/// the first `</title>` after it, whatever the case of the tags' letters,
/// trimmed and with its entities decoded.
pub open spec fn title_of(html: Seq<char>) -> Option<Seq<char>> {
    match find_from(lowered(html), title_open(), 0) {
        None => None,
        Some(open) => match find_from(lowered(html), title_close(), open) {
            None => None,
            Some(close) => if open + 7 <= close <= html.len() {
                Some(entities_decoded(trim(html.subrange(open + 7, close))))
            } else {
                None
            },
        },
    }
}

/// The Markdown used where the chosen converter fails: the minimal
/// conversion, under the document's title as a heading where it has one.
pub open spec fn fallback_markdown(html: Seq<char>) -> Seq<char> {
    match title_of(html) {
        Some(title) => seq!['#', ' '] + title + seq!['\n', '\n'] + simple_markdown(html),
        None => simple_markdown(html),
    }
}

/// What is written for a document: the chosen converter's Markdown, or
/// the fallback where it has none.
pub open spec fn markdown_for(primary: Option<Seq<char>>, html: Seq<char>) -> Seq<char> {
    match primary {
        Some(markdown) => markdown,
        None => fallback_markdown(html),
    }
}

/// The content of the body element.
pub fn body_content(html: &Vec<char>) -> (out: Vec<char>)
    ensures
        out@ == body_of(html@),
{
    let low = to_lower(html);
    let open_mark: Vec<char> = vec!['<', 'b', 'o', 'd', 'y'];
    let close_mark: Vec<char> = vec!['<', '/', 'b', 'o', 'd', 'y', '>'];
    assert(open_mark@ =~= body_open());
    assert(close_mark@ =~= body_close());
    let open = match find(&low, &open_mark, 0) {
        Some(open) => open,
        None => {
            return html.clone();
        },
    };
    let gt = match find_class(html, CharClass::Just('>'), open) {
        Some(gt) => gt,
        None => {
            return html.clone();
        },
    };
    proof {
        lemma_first_in(html@, CharClass::Just('>'), open as int);
    }
    assert(html@.len() == html.len());
    match find(&low, &close_mark, gt + 1) {
        Some(close) => if gt + 1 <= close && close <= html.len() {
            slice_of(html, gt + 1, close)
        } else {
            html.clone()
        },
        None => html.clone(),
    }
}

/// `text` with the pattern's matches replaced by one space.
fn blank_out(pattern: &str, text: &Vec<char>) -> (out: Vec<char>)
    ensures
        out@ == blanked(pattern@, text@),
{
    proof {
        reveal_strlit(" ");
    }
    assert(" "@ =~= seq![' ']);
    match regex_replace_all(pattern, string_of(text).as_str(), " ") {
        Some(replaced) => chars_of(replaced.as_str()),
        None => text.clone(),
    }
}

/// `text` with the five basic entities replaced by what they stand for.
pub fn decode_basic_entities(text: &Vec<char>) -> (out: Vec<char>)
    ensures
        out@ == basic_entities_decoded(text@),
{
    let lt: Vec<char> = vec!['&', 'l', 't', ';'];
    let gt: Vec<char> = vec!['&', 'g', 't', ';'];
    let amp: Vec<char> = vec!['&', 'a', 'm', 'p', ';'];
    let quot: Vec<char> = vec!['&', 'q', 'u', 'o', 't', ';'];
    let nbsp: Vec<char> = vec!['&', 'n', 'b', 's', 'p', ';'];
    let lt_char: Vec<char> = vec!['<'];
    let gt_char: Vec<char> = vec!['>'];
    let amp_char: Vec<char> = vec!['&'];
    let quot_char: Vec<char> = vec!['"'];
    let space: Vec<char> = vec![' '];
    assert(lt@ =~= seq!['&', 'l', 't', ';'] && lt_char@ =~= seq!['<']);
    assert(gt@ =~= seq!['&', 'g', 't', ';'] && gt_char@ =~= seq!['>']);
    assert(amp@ =~= seq!['&', 'a', 'm', 'p', ';'] && amp_char@ =~= seq!['&']);
    assert(quot@ =~= seq!['&', 'q', 'u', 'o', 't', ';'] && quot_char@ =~= seq!['"']);
    assert(nbsp@ =~= seq!['&', 'n', 'b', 's', 'p', ';'] && space@ =~= seq![' ']);
    let a = replace(text, &lt, &lt_char);
    let b = replace(&a, &gt, &gt_char);
    let c = replace(&b, &amp, &amp_char);
    let d = replace(&c, &quot, &quot_char);
    replace(&d, &nbsp, &space)
}

/// The Markdown that the minimal converter makes of `html`.
pub fn simple_html_to_markdown(html: &str) -> (out: String)
    ensures
        out@ == simple_markdown(html@),
{
    let body = body_content(&chars_of(html));
    let no_tags = blank_out("<[^>]+>", &body);
    let decoded = decode_basic_entities(&no_tags);
    let flat = collapse(&decoded);
    string_of(&trim_class(&flat, CharClass::Space))
}

/// The title of the document, where it has one.
pub fn extract_title_from_html(html: &str) -> (out: Option<String>)
    ensures
        opt_text(out) == title_of(html@),
{
    let text = chars_of(html);
    let low = to_lower(&text);
    let open_mark: Vec<char> = vec!['<', 't', 'i', 't', 'l', 'e', '>'];
    let close_mark: Vec<char> = vec!['<', '/', 't', 'i', 't', 'l', 'e', '>'];
    assert(open_mark@ =~= title_open());
    assert(close_mark@ =~= title_close());
    let open = match find(&low, &open_mark, 0) {
        Some(open) => open,
        None => {
            return None;
        },
    };
    match find(&low, &close_mark, open) {
        Some(close) => {
            proof {
                lemma_find_from(lowered(text@), title_open(), 0);
            }
            assert(low@.len() == low.len());
            if open + 7 <= close && close <= text.len() {
                let inner = trim_class(&slice_of(&text, open + 7, close), CharClass::Space);
                Some(decode_entities(string_of(&inner).as_str()))
            } else {
                None
            }
        },
        None => None,
    }
}

/// The Markdown used where the chosen converter fails.
pub fn fallback(html: &str) -> (out: String)
    ensures
        out@ == fallback_markdown(html@),
{
    let simple = simple_html_to_markdown(html);
    match extract_title_from_html(html) {
        Some(title) => {
            let mut out: Vec<char> = vec!['#', ' '];
            append_chars(&mut out, &chars_of(title.as_str()));
            out.push('\n');
            out.push('\n');
            append_chars(&mut out, &chars_of(simple.as_str()));
            assert(out@ =~= seq!['#', ' '] + title@ + seq!['\n', '\n'] + simple@);
            string_of(&out)
        },
        None => simple,
    }
}

/// What is written for a document, given what the chosen converter made
/// of it.
pub fn markdown_or_fallback(primary: Option<String>, html: &str) -> (out: String)
    ensures
        out@ == markdown_for(opt_text(primary), html@),
{
    match primary {
        Some(markdown) => markdown,
        None => fallback(html),
    }
}

/// The address of the reader service, before the page's URL.
pub open spec fn reader_prefix() -> Seq<char> {
    "https://r.jina.ai/"@
}

/// The page URL that a stored page's file stem stands for: underscores
/// and `-slash-` read as slashes, behind `https://`.
pub open spec fn url_from_stem(stem: Seq<char>) -> Seq<char> {
    "https://"@ + replace_all(
        replace_all(stem, seq!['_'], seq!['/']),
        seq!['-', 's', 'l', 'a', 's', 'h', '-'],
        seq!['/'],
    )
}

/// The request to the reader service for a stored page: the service's
/// address followed by the page's URL, where the file stem gives one.
pub open spec fn reader_request(stem: Seq<char>) -> Option<Seq<char>> {
    match url_parsed(url_from_stem(stem)) {
        Some(u) => Some(reader_prefix() + u.href),
        None => None,
    }
}

/// The request to the reader service for the stored page with the file
/// stem `stem`; none where the stem gives no URL.
pub fn reader_url(stem: &str) -> (out: Option<String>)
    ensures
        opt_text(out) == reader_request(stem@),
{
    let underscore: Vec<char> = vec!['_'];
    let slash: Vec<char> = vec!['/'];
    let word: Vec<char> = vec!['-', 's', 'l', 'a', 's', 'h', '-'];
    assert(underscore@ =~= seq!['_'] && slash@ =~= seq!['/']);
    assert(word@ =~= seq!['-', 's', 'l', 'a', 's', 'h', '-']);
    let a = replace(&chars_of(stem), &underscore, &slash);
    let b = replace(&a, &word, &slash);
    let mut written = chars_of("https://");
    append_chars(&mut written, &b);
    match WebUrl::parse(string_of(&written).as_str()) {
        Some(u) => {
            let mut out = chars_of("https://r.jina.ai/");
            append_chars(&mut out, &chars_of(u.href.as_str()));
            Some(string_of(&out))
        },
        None => None,
    }
}

/// The request to the reader service for the stored page in the file
/// named `html_file`; none where the file's stem gives no URL.
pub fn reader_url_for(html_file: &str) -> (out: Option<String>)
    ensures
        opt_text(out) == reader_request(stem_of(html_file@)),
{
    let stem = file_stem(&chars_of(html_file));
    reader_url(string_of(&stem).as_str())
}

/// Seconds after which a request to the reader service is given up.
pub const READER_TIMEOUT: u64 = 60;

/// Seconds after which connecting to the reader service is given up.
pub const READER_CONNECT_TIMEOUT: u64 = 30;

/// Why a conversion failed.
#[derive(Clone, Copy, Debug, PartialEq, Eq, Structural)]
pub enum ConvertError {
    /// The `htmd` converter reported an error.
    Htmd,
    /// The document is nested deeper than `htmd`'s walker is given.
    TooDeep,
}

/// One stored page to convert.
#[derive(Debug)]
pub struct ConversionJob {
    /// The name of the page's file in the HTML directory.
    pub html_file: String,
    /// The name of the Markdown file to write in the Markdown directory.
    pub md_file: String,
}

/// A conversion job as plain data.
pub struct ConversionJobView {
    /// The name of the page's file.
    pub html_file: Seq<char>,
    /// The name of the Markdown file to write.
    pub md_file: Seq<char>,
}

impl View for ConversionJob {
    type V = ConversionJobView;

    open spec fn view(&self) -> ConversionJobView {
        ConversionJobView { html_file: self.html_file@, md_file: self.md_file@ }
    }
}

/// The jobs as plain data.
pub open spec fn conversion_views(jobs: Seq<ConversionJob>) -> Seq<ConversionJobView> {
    Seq::new(jobs.len(), |i: int| jobs[i]@)
}

/// The conversions to make for the files named `names`: one for each name
/// with the extension `html`, to a Markdown file of the same stem.
pub open spec fn conversions(names: Seq<Seq<char>>) -> Seq<ConversionJobView>
    decreases names.len(),
{
    if names.len() == 0 {
        Seq::empty()
    } else if extension_of(names.last()) == Some(html()) {
        conversions(names.drop_last()).push(
            ConversionJobView {
                html_file: names.last(),
                md_file: with_extension(stem_of(names.last()), md()),
            },
        )
    } else {
        conversions(names.drop_last())
    }
}

/// Converts stored pages to Markdown.
pub struct Converter {
    config: DoclingConfig,
}

impl Converter {
    /// The settings the converter works with.
    pub closed spec fn settings(&self) -> DoclingConfig {
        self.config
    }

    /// What the chosen converter made of `html`: for `htmd` what that
    /// converter returns, and nothing for a document nested deeper than
    /// its walker is given; for the others what the caller got from them.
    pub open spec fn primary(&self, html: Seq<char>, outside: Option<Seq<char>>) -> Option<
        Seq<char>,
    > {
        if self.settings().transform_md_using == TransformMethod::Htmd {
            if htmd_levels(html) <= MAX_HTMD_LEVELS {
                htmd_markdown(html)
            } else {
                None
            }
        } else {
            outside
        }
    }

    /// A converter that works with the given settings.
    pub fn new(config: DoclingConfig) -> (r: Self)
        ensures
            r.settings() == config,
    {
        Converter { config }
    }

    /// Whether the chosen converter is one that the caller has to run.
    pub fn needs_outside_converter(&self) -> (r: bool)
        ensures
            r == (self.settings().transform_md_using != TransformMethod::Htmd),
    {
        self.config.transform_md_using != TransformMethod::Htmd
    }

    /// Converts `html` with the `htmd` converter: the text is parsed, and
    /// the tree is walked where it has at most `MAX_HTMD_LEVELS` levels.
    pub fn convert_with_htmd(&self, html: &str) -> (r: Result<String, ConvertError>)
        ensures
            match htmd_markdown(html@) {
                None => r == Err::<String, ConvertError>(ConvertError::Htmd),
                Some(markdown) => if htmd_levels(html@) <= MAX_HTMD_LEVELS {
                    r is Ok && r->Ok_0@ == markdown
                } else {
                    r == Err::<String, ConvertError>(ConvertError::TooDeep)
                },
            },
    {
        let tree = match parse_tree(html) {
            Some(tree) => tree,
            None => {
                return Err(ConvertError::Htmd);
            },
        };
        match levels_within(&tree, MAX_HTMD_LEVELS) {
            Some(_) => Ok(walk_tree(tree)),
            None => Err(ConvertError::TooDeep),
        }
    }

    /// The Markdown to write for one stored page. With `htmd` chosen the
    /// page is converted here; with another converter chosen, `outside` is
    /// what the caller got from it, or nothing where it failed. Where the
    /// chosen converter has no result, the fallback is written.
    pub fn convert_file(&self, html: &str, outside: Option<String>) -> (out: String)
        ensures
            out@ == markdown_for(self.primary(html@, opt_text(outside)), html@),
    {
        let primary = match self.config.transform_md_using {
            TransformMethod::Htmd => match self.convert_with_htmd(html) {
                Ok(markdown) => Some(markdown),
                Err(_) => None,
            },
            _ => outside,
        };
        markdown_or_fallback(primary, html)
    }

    /// The conversions to make for an entry, given the names of the files
    /// in its HTML directory.
    pub fn convert_directory(&self, names: &Vec<String>) -> (out: Vec<ConversionJob>)
        ensures
            conversion_views(out@) == conversions(name_views(names@)),
    {
        let ghost all = name_views(names@);
        let wanted: Vec<char> = vec!['h', 't', 'm', 'l'];
        let target: Vec<char> = vec!['m', 'd'];
        assert(wanted@ =~= html());
        assert(target@ =~= md());
        let mut out: Vec<ConversionJob> = Vec::new();
        let mut i: usize = 0;
        assert(all.take(0) =~= Seq::<Seq<char>>::empty());
        assert(conversion_views(out@) =~= Seq::<ConversionJobView>::empty());
        while i < names.len()
            invariant
                i <= names.len(),
                all == name_views(names@),
                wanted@ == html(),
                target@ == md(),
                conversion_views(out@) == conversions(all.take(i as int)),
            decreases names.len() - i,
        {
            let ghost before = conversion_views(out@);
            proof {
                let next = all.take(i + 1);
                assert(next.drop_last() =~= all.take(i as int));
                assert(next.last() == names@[i as int]@);
            }
            let name = chars_of(names[i].as_str());
            let is_html = match file_extension(&name) {
                Some(ext) => same_chars(&ext, &wanted),
                None => false,
            };
            if is_html {
                let mut md_name = file_stem(&name);
                md_name.push('.');
                append_chars(&mut md_name, &target);
                assert(md_name@ =~= with_extension(stem_of(name@), md()));
                let job = ConversionJob { html_file: string_of(&name), md_file: string_of(&md_name) };
                out.push(job);
                assert(conversion_views(out@) =~= before.push(job@));
            }
            i += 1;
        }
        assert(all.take(names.len() as int) =~= all);
        out
    }
}

} // verus!
