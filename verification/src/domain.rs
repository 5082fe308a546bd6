//! No link of a combined document leads off the entry's domain.

use vstd::prelude::*;
use crate::document::{
    clean_text, kept_lines, lemma_cleaned_lines_stay_on_domain, section, squeeze_blank, stem_of,
    terminated, without_media,
};
use crate::lines::{
    ends_lines, join, lemma_lines_concat, lemma_lines_have_no_line_feed, lemma_lines_of_one, lines,
    no_line_feed, strip_cr,
};
use crate::links::{
    lemma_rewrite_no_line_feed, lemma_strip_cr_stays_on_domain, reducible_at, stays_on_domain,
};
use crate::processor::{MarkdownFile, combined, lemma_sorted_by_name, sections, sorted_by_name};

verus! {

/// In none of the lines does a link lead off the domain.
pub open spec fn all_on_domain(ls: Seq<Seq<char>>, base: Seq<char>) -> bool {
    forall|i: int| 0 <= i < ls.len() ==> stays_on_domain(#[trigger] ls[i], base)
}

/// None of the lines holds a line feed.
pub open spec fn all_single(ls: Seq<Seq<char>>) -> bool {
    forall|i: int| 0 <= i < ls.len() ==> no_line_feed(#[trigger] ls[i])
}

/// The heading line made of a file name.
pub open spec fn heading_line(name: Seq<char>) -> Seq<char> {
    seq!['#', '#', ' '] + stem_of(name)
}

/// The heading made of the file name is one line, and no link in it leads
/// off the domain.
pub open spec fn plain_heading(name: Seq<char>, base: Seq<char>) -> bool {
    no_line_feed(stem_of(name)) && stays_on_domain(heading_line(name), base)
}

/// The lines of the combined document where its sections hold no media
/// element.
pub open spec fn document_lines(files: Seq<MarkdownFile>, base: Seq<char>) -> Seq<Seq<char>> {
    squeeze_blank(lines(sections(sorted_by_name(files), base)))
}

/// Two runs of lines in which no link leads off the domain make one.
proof fn lemma_all_on_domain_concat(a: Seq<Seq<char>>, b: Seq<Seq<char>>, base: Seq<char>)
    requires
        all_on_domain(a, base),
        all_on_domain(b, base),
    ensures
        all_on_domain(a + b, base),
{
    assert forall|i: int| 0 <= i < (a + b).len() implies stays_on_domain(
        #[trigger] (a + b)[i],
        base,
    ) by {
        if i < a.len() {
            assert((a + b)[i] == a[i]);
        } else {
            assert((a + b)[i] == b[i - a.len()]);
        }
    }
}

/// Lines ended by line feeds read back as themselves, each without a
/// carriage return at its end.
proof fn lemma_lines_of_terminated(ls: Seq<Seq<char>>)
    requires
        all_single(ls),
    ensures
        ends_lines(terminated(ls)),
        lines(terminated(ls)) == Seq::new(ls.len(), |i: int| strip_cr(ls[i])),
    decreases ls.len(),
{
    let want = Seq::new(ls.len(), |i: int| strip_cr(ls[i]));
    if ls.len() == 0 {
        assert(lines(terminated(ls)) =~= want);
    } else {
        let head = ls.drop_last();
        assert(all_single(head)) by {
            assert forall|i: int| 0 <= i < head.len() implies no_line_feed(#[trigger] head[i]) by {
                assert(head[i] == ls[i]);
            }
        }
        lemma_lines_of_terminated(head);
        let last = ls.last();
        assert(no_line_feed(ls[ls.len() - 1]));
        lemma_lines_of_one(last);
        lemma_lines_concat(terminated(head), last + seq!['\n']);
        assert(terminated(ls) =~= terminated(head) + (last + seq!['\n']));
        assert(Seq::new(head.len(), |i: int| strip_cr(head[i])) + seq![strip_cr(last)] =~= want);
    }
}

/// The lines that a cleaned page keeps hold no line feed.
proof fn lemma_kept_lines_single(ls: Seq<Seq<char>>, base: Seq<char>)
    requires
        all_single(ls),
    ensures
        all_single(kept_lines(ls, base)),
    decreases ls.len(),
{
    if ls.len() > 0 {
        let head = ls.drop_last();
        assert(all_single(head)) by {
            assert forall|i: int| 0 <= i < head.len() implies no_line_feed(#[trigger] head[i]) by {
                assert(head[i] == ls[i]);
            }
        }
        lemma_kept_lines_single(head, base);
        assert(no_line_feed(ls[ls.len() - 1]));
        lemma_rewrite_no_line_feed(ls.last(), base, 0);
        let kept = kept_lines(ls, base);
        let before = kept_lines(head, base);
        assert forall|i: int| 0 <= i < kept.len() implies no_line_feed(#[trigger] kept[i]) by {
            if i < before.len() {
                assert(kept[i] == before[i]);
            }
        }
    }
}

/// In no line of a cleaned page, read line by line, does a link lead off
/// the domain.
pub proof fn lemma_clean_text_on_domain(content: Seq<char>, base: Seq<char>)
    ensures
        ends_lines(clean_text(content, base)),
        all_on_domain(lines(clean_text(content, base)), base),
{
    let kept = kept_lines(lines(content), base);
    lemma_lines_have_no_line_feed(content, 0);
    lemma_kept_lines_single(lines(content), base);
    lemma_lines_of_terminated(kept);
    lemma_cleaned_lines_stay_on_domain(lines(content), base);
    let read = lines(clean_text(content, base));
    assert forall|i: int| 0 <= i < read.len() implies stays_on_domain(#[trigger] read[i], base) by {
        lemma_strip_cr_stays_on_domain(kept[i], base);
    }
}

/// An empty line holds no link.
proof fn lemma_empty_line_on_domain(base: Seq<char>)
    ensures
        stays_on_domain(Seq::<char>::empty(), base),
        lines(seq!['\n']) == seq![Seq::<char>::empty()],
{
    let nothing = Seq::<char>::empty();
    lemma_lines_of_one(nothing);
    assert(nothing + seq!['\n'] =~= seq!['\n']);
    assert(strip_cr(nothing) == nothing);
    assert forall|p: int| !reducible_at(nothing, base, p) by {}
}

/// In no line of a page's section does a link lead off the domain, where
/// the heading is plain.
pub proof fn lemma_section_on_domain(name: Seq<char>, content: Seq<char>, base: Seq<char>)
    requires
        plain_heading(name, base),
    ensures
        ends_lines(section(name, content, base)),
        all_on_domain(lines(section(name, content, base)), base),
{
    let feed = seq!['\n'];
    let blank = seq![Seq::<char>::empty()];
    let heading = heading_line(name);
    let body = clean_text(content, base);
    lemma_empty_line_on_domain(base);
    lemma_clean_text_on_domain(content, base);
    assert(no_line_feed(heading)) by {
        assert forall|i: int| 0 <= i < heading.len() implies heading[i] != '\n' by {
            if i >= 3 {
                assert(heading[i] == stem_of(name)[i - 3]);
            }
        }
    }
    lemma_lines_of_one(heading);
    lemma_strip_cr_stays_on_domain(heading, base);
    let d = feed + body;
    let c = (heading + feed) + d;
    let b = feed + c;
    let a = feed + b;
    assert(a =~= section(name, content, base));
    lemma_lines_concat(feed, body);
    lemma_lines_concat(heading + feed, d);
    lemma_lines_concat(feed, c);
    lemma_lines_concat(feed, b);
    assert(all_on_domain(blank, base));
    assert(all_on_domain(seq![strip_cr(heading)], base));
    lemma_all_on_domain_concat(blank, lines(body), base);
    lemma_all_on_domain_concat(seq![strip_cr(heading)], lines(d), base);
    lemma_all_on_domain_concat(blank, lines(c), base);
    lemma_all_on_domain_concat(blank, lines(b), base);
    assert(a.last() == '\n') by {
        if body.len() > 0 {
            assert(a.last() == body.last());
        }
    }
}

/// In no line of the sections of the given files does a link lead off the
/// domain, where the headings are plain.
pub proof fn lemma_sections_on_domain(files: Seq<MarkdownFile>, base: Seq<char>)
    requires
        forall|i: int| 0 <= i < files.len() ==> plain_heading((#[trigger] files[i]).name@, base),
    ensures
        ends_lines(sections(files, base)),
        all_on_domain(lines(sections(files, base)), base),
    decreases files.len(),
{
    if files.len() == 0 {
        assert(lines(sections(files, base)) =~= Seq::<Seq<char>>::empty());
    } else {
        let head = files.drop_last();
        assert forall|i: int| 0 <= i < head.len() implies plain_heading(
            (#[trigger] head[i]).name@,
            base,
        ) by {
            assert(head[i] == files[i]);
        }
        lemma_sections_on_domain(head, base);
        let last = files[files.len() - 1];
        let part = section(last.name@, last.content@, base);
        lemma_section_on_domain(last.name@, last.content@, base);
        lemma_lines_concat(sections(head, base), part);
        lemma_all_on_domain_concat(lines(sections(head, base)), lines(part), base);
        assert(sections(files, base).last() == part.last());
    }
}

/// Reducing runs of blank lines keeps the other lines as they are.
proof fn lemma_squeeze_on_domain(ls: Seq<Seq<char>>, base: Seq<char>)
    requires
        all_on_domain(ls, base),
    ensures
        all_on_domain(squeeze_blank(ls), base),
    decreases ls.len(),
{
    if ls.len() > 0 {
        let head = ls.drop_last();
        assert(all_on_domain(head, base)) by {
            assert forall|i: int| 0 <= i < head.len() implies stays_on_domain(
                #[trigger] head[i],
                base,
            ) by {
                assert(head[i] == ls[i]);
            }
        }
        lemma_squeeze_on_domain(head, base);
        assert(stays_on_domain(ls[ls.len() - 1], base));
        let out = squeeze_blank(ls);
        let before = squeeze_blank(head);
        assert forall|i: int| 0 <= i < out.len() implies stays_on_domain(#[trigger] out[i], base) by {
            if i < before.len() {
                assert(out[i] == before[i]);
            }
        }
    }
}

/// For all files with plain headings whose sections hold no media
/// element: the combined document is made of lines in none of which a link
/// leads off the domain.
pub proof fn lemma_document_stays_on_domain(files: Seq<MarkdownFile>, base: Seq<char>)
    requires
        forall|i: int| 0 <= i < files.len() ==> plain_heading((#[trigger] files[i]).name@, base),
        without_media(sections(sorted_by_name(files), base)) == sections(
            sorted_by_name(files),
            base,
        ),
    ensures
        combined(files, base) == join(document_lines(files, base), seq!['\n']),
        all_on_domain(document_lines(files, base), base),
{
    broadcast use vstd::seq_lib::group_to_multiset_ensures;

    let sorted = sorted_by_name(files);
    lemma_sorted_by_name(files);
    assert forall|i: int| 0 <= i < sorted.len() implies plain_heading(
        (#[trigger] sorted[i]).name@,
        base,
    ) by {
        assert(sorted.contains(sorted[i]));
        assert(sorted.to_multiset().count(sorted[i]) > 0);
        assert(files.to_multiset().count(sorted[i]) > 0);
        assert(files.contains(sorted[i]));
        let k = choose|k: int| 0 <= k < files.len() && files[k] == sorted[i];
        assert(plain_heading(files[k].name@, base));
    }
    lemma_sections_on_domain(sorted, base);
    lemma_squeeze_on_domain(lines(sections(sorted, base)), base);
}

} // verus!
