//! Where an entry's files lie under the output directory.

use vstd::prelude::*;
use crate::config::DoclingConfig;
use crate::text::{append_chars, chars_of, string_of};

verus! {

/// The name of the directory that holds one file per failed attempt.
pub open spec fn errors_name() -> Seq<char> {
    seq!['E', 'R', 'R', 'O', 'R', 'S']
}

/// The path of `name` inside the directory `dir`.
pub open spec fn under(dir: Seq<char>, name: Seq<char>) -> Seq<char> {
    dir + seq!['/'] + name
}

/// `stem` with a dot and `ext` behind it.
pub open spec fn with_extension(stem: Seq<char>, ext: Seq<char>) -> Seq<char> {
    stem + seq!['.'] + ext
}

/// The extension of Markdown files.
pub open spec fn md() -> Seq<char> {
    seq!['m', 'd']
}

/// The extension of stored pages.
pub open spec fn html() -> Seq<char> {
    seq!['h', 't', 'm', 'l']
}

/// The path of `name` inside the directory `dir`.
pub fn path_under(dir: &str, name: &str) -> (r: String)
    ensures
        r@ == under(dir@, name@),
{
    let mut out = chars_of(dir);
    out.push('/');
    let tail = chars_of(name);
    append_chars(&mut out, &tail);
    string_of(&out)
}

/// `stem` with a dot and `ext` behind it.
pub fn name_with_extension(stem: &str, ext: &str) -> (r: String)
    ensures
        r@ == with_extension(stem@, ext@),
{
    let mut out = chars_of(stem);
    out.push('.');
    let tail = chars_of(ext);
    append_chars(&mut out, &tail);
    string_of(&out)
}

impl DoclingConfig {
    /// The directory of everything stored for `entry`.
    pub open spec fn entry_path(self, entry: Seq<char>) -> Seq<char> {
        under(self.outputs_path@, entry)
    }

    /// The directory of `entry`'s stored pages.
    pub open spec fn html_path(self, entry: Seq<char>) -> Seq<char> {
        under(self.entry_path(entry), self.output_parts_html_suffix@)
    }

    /// The directory of `entry`'s stored media.
    pub open spec fn media_path(self, entry: Seq<char>) -> Seq<char> {
        under(self.entry_path(entry), self.output_parts_media_suffix@)
    }

    /// The directory of `entry`'s per-page Markdown.
    pub open spec fn markdown_path(self, entry: Seq<char>) -> Seq<char> {
        under(self.entry_path(entry), self.output_parts_markdown_suffix@)
    }

    /// The directory of `entry`'s combined document.
    pub open spec fn results_path(self, entry: Seq<char>) -> Seq<char> {
        under(self.entry_path(entry), self.output_parts_markdown_results_suffix@)
    }

    /// The directory of `entry`'s error reports.
    pub open spec fn errors_path(self, entry: Seq<char>) -> Seq<char> {
        under(self.entry_path(entry), errors_name())
    }

    /// The file of `entry`'s combined document.
    pub open spec fn result_file(self, entry: Seq<char>) -> Seq<char> {
        under(self.results_path(entry), with_extension(entry, md()))
    }

    /// The directory of everything stored for `entry`.
    pub fn entry_dir(&self, entry: &str) -> (r: String)
        ensures
            r@ == self.entry_path(entry@),
    {
        path_under(self.outputs_path.as_str(), entry)
    }

    /// The directory of `entry`'s stored pages.
    pub fn html_dir(&self, entry: &str) -> (r: String)
        ensures
            r@ == self.html_path(entry@),
    {
        let base = self.entry_dir(entry);
        path_under(base.as_str(), self.output_parts_html_suffix.as_str())
    }

    /// The directory of `entry`'s stored media.
    pub fn media_dir(&self, entry: &str) -> (r: String)
        ensures
            r@ == self.media_path(entry@),
    {
        let base = self.entry_dir(entry);
        path_under(base.as_str(), self.output_parts_media_suffix.as_str())
    }

    /// The directory of `entry`'s per-page Markdown.
    pub fn markdown_dir(&self, entry: &str) -> (r: String)
        ensures
            r@ == self.markdown_path(entry@),
    {
        let base = self.entry_dir(entry);
        path_under(base.as_str(), self.output_parts_markdown_suffix.as_str())
    }

    /// The directory of `entry`'s combined document.
    pub fn results_dir(&self, entry: &str) -> (r: String)
        ensures
            r@ == self.results_path(entry@),
    {
        let base = self.entry_dir(entry);
        path_under(base.as_str(), self.output_parts_markdown_results_suffix.as_str())
    }

    /// The directory of `entry`'s error reports.
    pub fn errors_dir(&self, entry: &str) -> (r: String)
        ensures
            r@ == self.errors_path(entry@),
    {
        let base = self.entry_dir(entry);
        proof {
            reveal_strlit("ERRORS");
        }
        assert("ERRORS"@ =~= errors_name());
        path_under(base.as_str(), "ERRORS")
    }
}

} // verus!
