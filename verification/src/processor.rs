//! Cleaning and combining the Markdown of one entry.

use vstd::prelude::*;
use crate::address::{WebUrl, url_parsed};
use crate::config::DoclingConfig;
use crate::document::{
    clean, clean_text, extension_of, file_extension, section, tidy, tidy_up, write_section,
};
use crate::layout::{md, name_with_extension, with_extension};
use crate::links::{rewrite_line, rewrite_links};
use crate::markup::{remove_elements, strip_tag};
use crate::order::{lemma_text_le_transitive, lemma_text_lt_irreflexive, text_less, text_lt};
use crate::text::{chars_of, string_of};

verus! {

/// Why an entry's Markdown could not be combined.
#[derive(Clone, Copy, Debug, PartialEq, Eq, Structural)]
pub enum ProcessError {
    /// The entry's base URL does not parse.
    InvalidBaseUrl,
    /// The entry's base URL has no host.
    NoHost,
}

impl ProcessError {
    /// The error in words.
    pub fn message(&self) -> (r: String)
        ensures
            r@ == match *self {
                ProcessError::InvalidBaseUrl => "Invalid base URL"@,
                ProcessError::NoHost => "URL has no host"@,
            },
    {
        match self {
            ProcessError::InvalidBaseUrl => "Invalid base URL".to_owned(),
            ProcessError::NoHost => "URL has no host".to_owned(),
        }
    }
}

/// One page's Markdown as read from its file.
#[derive(Debug)]
pub struct MarkdownFile {
    /// The file's name, without its directory.
    pub name: String,
    /// The file's content.
    pub content: String,
}

/// The combined document of an entry and where it is to be written.
#[derive(Debug)]
pub struct ResultDocument {
    /// The directory of the document.
    pub directory: String,
    /// The document's file name.
    pub file_name: String,
    /// The document.
    pub content: String,
}

/// Where a file named `name` goes into `sorted`: before the first file
/// whose name does not come before `name`.
pub open spec fn insertion_point(sorted: Seq<MarkdownFile>, name: Seq<char>) -> int
    decreases sorted.len(),
{
    if sorted.len() == 0 || !text_lt(sorted[0].name@, name) {
        0
    } else {
        1 + insertion_point(sorted.drop_first(), name)
    }
}

/// The files in the order of their names; files of one name keep their
/// order.
pub open spec fn sorted_by_name(files: Seq<MarkdownFile>) -> Seq<MarkdownFile>
    decreases files.len(),
{
    if files.len() == 0 {
        Seq::empty()
    } else {
        let rest = sorted_by_name(files.drop_first());
        rest.insert(insertion_point(rest, files[0].name@), files[0])
    }
}

/// No file stands before one whose name comes before its own.
pub open spec fn in_name_order(files: Seq<MarkdownFile>) -> bool {
    forall|i: int, j: int|
        0 <= i < j < files.len() ==> !text_lt(#[trigger] files[j].name@, #[trigger] files[i].name@)
}

/// The insertion point lies in the sequence; the names before it come
/// before `name`, and the name at it does not.
pub proof fn lemma_insertion_point(sorted: Seq<MarkdownFile>, name: Seq<char>)
    ensures
        0 <= insertion_point(sorted, name) <= sorted.len(),
        forall|i: int|
            0 <= i < insertion_point(sorted, name) ==> text_lt(#[trigger] sorted[i].name@, name),
        insertion_point(sorted, name) < sorted.len() ==> !text_lt(
            sorted[insertion_point(sorted, name)].name@,
            name,
        ),
    decreases sorted.len(),
{
    if sorted.len() == 0 || !text_lt(sorted[0].name@, name) {
    } else {
        let rest = sorted.drop_first();
        lemma_insertion_point(rest, name);
        assert forall|i: int| 0 <= i < insertion_point(sorted, name) implies text_lt(
            #[trigger] sorted[i].name@,
            name,
        ) by {
            if i > 0 {
                assert(sorted[i] == rest[i - 1]);
            }
        }
        let k = insertion_point(rest, name);
        if k < rest.len() {
            assert(sorted[k + 1] == rest[k]);
        }
    }
}

/// Sorting yields the same files, each as often as before, in the order of
/// their names.
pub proof fn lemma_sorted_by_name(files: Seq<MarkdownFile>)
    ensures
        in_name_order(sorted_by_name(files)),
        sorted_by_name(files).to_multiset() == files.to_multiset(),
        sorted_by_name(files).len() == files.len(),
    decreases files.len(),
{
    broadcast use vstd::seq_lib::group_to_multiset_ensures;

    if files.len() == 0 {
    } else {
        let rest = sorted_by_name(files.drop_first());
        let x = files[0];
        let k = insertion_point(rest, x.name@);
        lemma_sorted_by_name(files.drop_first());
        lemma_insertion_point(rest, x.name@);
        let out = rest.insert(k, x);
        assert forall|i: int, j: int| 0 <= i < j < out.len() implies !text_lt(
            #[trigger] out[j].name@,
            #[trigger] out[i].name@,
        ) by {
            if j < k {
                assert(out[i] == rest[i] && out[j] == rest[j]);
            } else if j == k {
                assert(out[i] == rest[i]);
                lemma_text_asymmetric(rest[i].name@, x.name@);
            } else if i < k {
                assert(out[i] == rest[i] && out[j] == rest[j - 1]);
            } else if i == k {
                assert(out[j] == rest[j - 1]);
                if j - 1 > k {
                    assert(!text_lt(rest[j - 1].name@, rest[k].name@));
                } else {
                    lemma_text_lt_irreflexive(rest[k].name@);
                }
                lemma_text_le_transitive(x.name@, rest[k].name@, rest[j - 1].name@);
            } else {
                assert(out[i] == rest[i - 1] && out[j] == rest[j - 1]);
            }
        }
        assert(out.remove(k) =~= rest);
        assert(out.to_multiset().remove(x) =~= rest.to_multiset());
        assert(out.to_multiset() =~= rest.to_multiset().insert(x));
        assert(files =~= seq![x] + files.drop_first());
        assert(files.drop_first().push(x).to_multiset() =~= files.drop_first().to_multiset().insert(
            x,
        ));
        assert(files.to_multiset() =~= files.drop_first().to_multiset().insert(x)) by {
            let tail = files.drop_first();
            assert(files.remove(0) =~= tail);
            assert(files.to_multiset().remove(x) =~= tail.to_multiset());
        }
    }
}

/// Of two texts not both come before the other.
pub proof fn lemma_text_asymmetric(a: Seq<char>, b: Seq<char>)
    ensures
        !(text_lt(a, b) && text_lt(b, a)),
    decreases a.len(),
{
    if a.len() > 0 && b.len() > 0 && a[0] == b[0] {
        lemma_text_asymmetric(a.drop_first(), b.drop_first());
    }
}

/// Where a file named `name` goes into `sorted`.
fn find_insertion_point(sorted: &Vec<MarkdownFile>, name: &Vec<char>) -> (k: usize)
    ensures
        k == insertion_point(sorted@, name@),
        k <= sorted.len(),
{
    let mut k: usize = 0;
    assert(sorted@.skip(0) =~= sorted@);
    while k < sorted.len()
        invariant
            k <= sorted.len(),
            insertion_point(sorted@, name@) == k + insertion_point(sorted@.skip(k as int), name@),
        decreases sorted.len() - k,
    {
        let ghost rest = sorted@.skip(k as int);
        assert(rest[0] == sorted@[k as int]);
        let other = chars_of(sorted[k].name.as_str());
        if !text_less(&other, name) {
            return k;
        }
        assert(rest.drop_first() =~= sorted@.skip(k + 1));
        k += 1;
    }
    k
}

/// The files in the order of their names.
pub fn sort_by_name(files: Vec<MarkdownFile>) -> (out: Vec<MarkdownFile>)
    ensures
        out@ == sorted_by_name(files@),
{
    let mut rest = files;
    let mut out: Vec<MarkdownFile> = Vec::new();
    assert(files@.skip(files@.len() as int) =~= Seq::<MarkdownFile>::empty());
    while rest.len() > 0
        invariant
            rest.len() <= files.len(),
            rest@ == files@.take(rest.len() as int),
            out@ == sorted_by_name(files@.skip(rest.len() as int)),
        decreases rest.len(),
    {
        let ghost n = rest.len() as int;
        let file = rest.pop().unwrap();
        proof {
            let tail = files@.skip(n - 1);
            assert(tail[0] == file);
            assert(tail.drop_first() =~= files@.skip(n));
            assert(rest@ =~= files@.take(n - 1));
        }
        let name = chars_of(file.name.as_str());
        let k = find_insertion_point(&out, &name);
        out.insert(k, file);
    }
    assert(files@.skip(0) =~= files@);
    out
}

/// The sections of the given files, in the given order.
pub open spec fn sections(files: Seq<MarkdownFile>, base: Seq<char>) -> Seq<char>
    decreases files.len(),
{
    if files.len() == 0 {
        Seq::empty()
    } else {
        sections(files.drop_last(), base) + section(
            files.last().name@,
            files.last().content@,
            base,
        )
    }
}

/// The document made of the given files for the domain `base`: their
/// sections in the order of the file names, tidied.
pub open spec fn combined(files: Seq<MarkdownFile>, base: Seq<char>) -> Seq<char> {
    tidy(sections(sorted_by_name(files), base))
}

/// The host of an entry's base URL, or why it has none.
pub open spec fn base_host(base_url: Seq<char>) -> Result<Seq<char>, ProcessError> {
    match url_parsed(base_url) {
        None => Err(ProcessError::InvalidBaseUrl),
        Some(u) => match u.host {
            None => Err(ProcessError::NoHost),
            Some(h) => Ok(h),
        },
    }
}

/// The files whose names have the extension `md`, in the given order.
pub open spec fn markdown_only(files: Seq<MarkdownFile>) -> Seq<MarkdownFile>
    decreases files.len(),
{
    if files.len() == 0 {
        Seq::empty()
    } else if extension_of(files.last().name@) == Some(md()) {
        markdown_only(files.drop_last()).push(files.last())
    } else {
        markdown_only(files.drop_last())
    }
}

/// Whether the file name has the extension `md`.
pub fn is_markdown_name(name: &str) -> (b: bool)
    ensures
        b == (extension_of(name@) == Some(md())),
{
    let text = chars_of(name);
    match file_extension(&text) {
        Some(ext) => {
            let b = ext.len() == 2 && ext[0] == 'm' && ext[1] == 'd';
            assert(b == (ext@ =~= md()));
            b
        },
        None => false,
    }
}

/// The files whose names have the extension `md`, in the given order.
pub fn keep_markdown(files: Vec<MarkdownFile>) -> (out: Vec<MarkdownFile>)
    ensures
        out@ == markdown_only(files@),
{
    let mut out: Vec<MarkdownFile> = Vec::new();
    for file in it: files.into_iter()
        invariant
            it.seq() == files@,
            out@ == markdown_only(files@.take(it.index())),
    {
        proof {
            let next = files@.take(it.index() + 1);
            assert(next.drop_last() =~= files@.take(it.index()));
            assert(next.last() == file);
        }
        if is_markdown_name(file.name.as_str()) {
            out.push(file);
        }
    }
    assert(files@.take(files@.len() as int) =~= files@);
    out
}

/// Cleans and combines the Markdown of an entry.
pub struct Processor {
    config: DoclingConfig,
}

impl Processor {
    /// The settings the processor works with.
    pub closed spec fn settings(&self) -> DoclingConfig {
        self.config
    }

    /// A processor that works with the given settings.
    pub fn new(config: DoclingConfig) -> (r: Self)
        ensures
            r.settings() == config,
    {
        Processor { config }
    }

    /// Reduces the off-domain links of one line to their text.
    pub fn process_links(&self, line: &str, base_domain: &str) -> (r: String)
        ensures
            r@ == rewrite_links(line@, base_domain@, 0),
    {
        let text = chars_of(line);
        let base = chars_of(base_domain);
        let out = rewrite_line(&text, &base);
        string_of(&out)
    }

    /// Cleans one page's Markdown: image lines are dropped, off-domain
    /// links are reduced to their text, and every line ends with a line
    /// feed.
    pub fn clean_content(&self, content: &str, base_domain: &str) -> (r: String)
        ensures
            r@ == clean_text(content@, base_domain@),
    {
        let text = chars_of(content);
        let base = chars_of(base_domain);
        let out = clean(&text, &base);
        string_of(&out)
    }

    /// Removes the elements named `tag` from `content`.
    pub fn remove_html_tags(&self, content: &str, tag: &str) -> (r: String)
        ensures
            r@ == strip_tag(content@, tag@),
    {
        let text = chars_of(content);
        let name = chars_of(tag);
        let out = remove_elements(&text, &name);
        string_of(&out)
    }

    /// Brings the combined content into its final form. This step has no
    /// way to fail.
    pub fn final_cleanup(&self, content: &str) -> (r: Result<String, ProcessError>)
        ensures
            r is Ok,
            r->Ok_0@ == tidy(content@),
    {
        let text = chars_of(content);
        let out = tidy_up(&text);
        Ok(string_of(&out))
    }

    /// Makes the combined document of the entry from the files found in
    /// its Markdown directory, and says where it belongs. Files without
    /// the extension `md` are left aside. Fails where the base URL does not
    /// parse or has no host.
    pub fn process_entry(&self, entry_name: &str, base_url: &str, files: Vec<MarkdownFile>) -> (r:
        Result<ResultDocument, ProcessError>)
        ensures
            match base_host(base_url@) {
                Ok(host) => {
                    &&& r is Ok
                    &&& r->Ok_0.directory@ == self.settings().results_path(entry_name@)
                    &&& r->Ok_0.file_name@ == with_extension(entry_name@, md())
                    &&& r->Ok_0.content@ == combined(markdown_only(files@), host)
                },
                Err(e) => r is Err && r->Err_0 == e,
            },
    {
        let pages = keep_markdown(files);
        match self.combine_files(pages, base_url) {
            Ok(content) => {
                proof {
                    reveal_strlit("md");
                }
                assert("md"@ =~= md());
                Ok(
                    ResultDocument {
                        directory: self.config.results_dir(entry_name),
                        file_name: name_with_extension(entry_name, "md"),
                        content,
                    },
                )
            },
            Err(e) => Err(e),
        }
    }

    /// Combines the given files into one document. Fails where the base
    /// URL does not parse or has no host.
    pub fn combine_files(&self, files: Vec<MarkdownFile>, base_url: &str) -> (r: Result<
        String,
        ProcessError,
    >)
        ensures
            match base_host(base_url@) {
                Ok(host) => r is Ok && r->Ok_0@ == combined(files@, host),
                Err(e) => r == Err::<String, ProcessError>(e),
            },
    {
        match host_of_base(base_url) {
            Ok(base) => {
                let ordered = sort_by_name(files);
                let out = write_sections(&ordered, &base);
                let done = tidy_up(&out);
                Ok(string_of(&done))
            },
            Err(e) => Err(e),
        }
    }
}

/// The host of an entry's base URL, or why it has none.
pub fn host_of_base(base_url: &str) -> (r: Result<Vec<char>, ProcessError>)
    ensures
        match base_host(base_url@) {
            Ok(host) => r is Ok && r->Ok_0@ == host,
            Err(e) => r == Err::<Vec<char>, ProcessError>(e),
        },
{
    match WebUrl::parse(base_url) {
        None => Err(ProcessError::InvalidBaseUrl),
        Some(u) => match u.host {
            None => Err(ProcessError::NoHost),
            Some(h) => Ok(chars_of(h.as_str())),
        },
    }
}

/// The sections of the given files, in the given order.
pub fn write_sections(files: &Vec<MarkdownFile>, base: &Vec<char>) -> (out: Vec<char>)
    ensures
        out@ == sections(files@, base@),
{
    let mut out: Vec<char> = Vec::new();
    let mut i: usize = 0;
    assert(files@.take(0) =~= Seq::<MarkdownFile>::empty());
    while i < files.len()
        invariant
            i <= files.len(),
            out@ == sections(files@.take(i as int), base@),
        decreases files.len() - i,
    {
        proof {
            let next = files@.take(i + 1);
            assert(next.drop_last() =~= files@.take(i as int));
            assert(next.last() == files@[i as int]);
        }
        let name = chars_of(files[i].name.as_str());
        let content = chars_of(files[i].content.as_str());
        write_section(&mut out, &name, &content, base);
        i += 1;
    }
    assert(files@.take(files.len() as int) =~= files@);
    out
}

} // verus!
