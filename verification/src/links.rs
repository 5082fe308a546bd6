//! Markdown links that lead away from an entry's own domain are reduced to
//! their text.

use vstd::prelude::*;
use crate::address::{WebUrl, url_parsed};
use crate::edit::{
    clear_of, lemma_replace_len, lemma_replace_spares, replace, replace_all, replace_from,
};
use crate::lines::{no_line_feed, strip_cr};
use crate::text::{
    CharClass, chars_of, contains, find, find_class, find_from, first_in, last_in, lemma_contains,
    lemma_find_from, lemma_first_in, lemma_first_in_prefix, lemma_last_in, lemma_last_in_prefix,
    matches_at, rfind_class, slice_of, string_of,
};

verus! {

/// The two characters between a link's text and its target: `](`.
pub open spec fn link_mark() -> Seq<char> {
    seq![']', '(']
}

/// `url` parses as an absolute URL with a host, and `base` does not occur in
/// that host.
pub open spec fn off_domain(url: Seq<char>, base: Seq<char>) -> bool {
    match url_parsed(url) {
        Some(u) => match u.host {
            Some(h) => !contains(h, base),
            None => false,
        },
        None => false,
    }
}

/// `text` with its off-domain links reduced to their text, scanning from
/// `start`.
///
/// A link is found at the first `](` at or after `start`: its text begins
/// after the last `[` before the mark, its target ends before the first `)`
/// after the mark. Where the target is off-domain, every occurrence of that
/// link in `text` is replaced by the link's text and the scan begins again
/// at the start; else it goes on behind the mark. A mark with no `)` after
/// it ends the scan.
pub open spec fn rewrite_links(text: Seq<char>, base: Seq<char>, start: int) -> Seq<char>
    decreases text.len(), text.len() - start,
{
    if start < 0 {
        text
    } else {
        match find_from(text, link_mark(), start) {
            None => text,
            Some(p) => match (
                last_in(text, CharClass::Just('['), p),
                first_in(text, CharClass::Just(')'), p + 2),
            ) {
                (None, _) => {
                    proof {
                        lemma_find_from(text, link_mark(), start);
                    }
                    rewrite_links(text, base, p + 2)
                },
                (Some(_), None) => text,
                (Some(open), Some(close)) => {
                    proof {
                        lemma_find_from(text, link_mark(), start);
                        lemma_link_shrinks(text, open, p, close);
                    }
                    if off_domain(text.subrange(p + 2, close), base) {
                        rewrite_links(
                            replace_all(
                                text,
                                text.subrange(open, close + 1),
                                text.subrange(open + 1, p),
                            ),
                            base,
                            0,
                        )
                    } else {
                        rewrite_links(text, base, p + 2)
                    }
                },
            },
        }
    }
}

/// Replacing the link that stands at `open..=close` by its text shortens
/// the text.
pub proof fn lemma_link_shrinks(text: Seq<char>, open: int, p: int, close: int)
    requires
        0 <= p,
        p + 2 <= text.len(),
        last_in(text, CharClass::Just('['), p) == Some(open),
        first_in(text, CharClass::Just(')'), p + 2) == Some(close),
    ensures
        0 <= open < p,
        p + 2 <= close < text.len(),
        replace_all(text, text.subrange(open, close + 1), text.subrange(open + 1, p)).len()
            < text.len(),
{
    lemma_last_in(text, CharClass::Just('['), p);
    lemma_first_in(text, CharClass::Just(')'), p + 2);
    let link = text.subrange(open, close + 1);
    let label = text.subrange(open + 1, p);
    assert(matches_at(text, link, open));
    lemma_find_from(text, link, 0);
    lemma_replace_len(text, link, label, 0);
}

/// At the mark `p` of `text` stands a link that the rewrite reduces: it has
/// an opening bracket before the mark, a closing parenthesis after it, and
/// an off-domain target between.
pub open spec fn reducible_at(text: Seq<char>, base: Seq<char>, p: int) -> bool {
    &&& matches_at(text, link_mark(), p)
    &&& last_in(text, CharClass::Just('['), p) is Some
    &&& match first_in(text, CharClass::Just(')'), p + 2) {
        Some(close) => off_domain(text.subrange(p + 2, close), base),
        None => false,
    }
}

/// No link of `text` leads off the domain.
pub open spec fn stays_on_domain(text: Seq<char>, base: Seq<char>) -> bool {
    forall|p: int| !reducible_at(text, base, p)
}

/// Where no link before `start` is reducible, none is left in the
/// rewritten text.
pub proof fn lemma_rewrite_from(text: Seq<char>, base: Seq<char>, start: int)
    requires
        0 <= start,
        forall|q: int| 0 <= q < start ==> !reducible_at(text, base, q),
    ensures
        stays_on_domain(rewrite_links(text, base, start), base),
    decreases text.len(), text.len() - start,
{
    lemma_find_from(text, link_mark(), start);
    match find_from(text, link_mark(), start) {
        None => {},
        Some(p) => {
            assert(text.subrange(p, p + 2)[1] == '(');
            assert(!matches_at(text, link_mark(), p + 1)) by {
                if matches_at(text, link_mark(), p + 1) {
                    assert(text.subrange(p + 1, p + 3)[0] == ']');
                }
            }
            match (
                last_in(text, CharClass::Just('['), p),
                first_in(text, CharClass::Just(')'), p + 2),
            ) {
                (None, _) => {
                    lemma_rewrite_from(text, base, p + 2);
                },
                (Some(_), None) => {
                    lemma_first_in(text, CharClass::Just(')'), p + 2);
                    assert forall|q: int| !reducible_at(text, base, q) by {
                        if q >= p && matches_at(text, link_mark(), q) {
                            lemma_first_in(text, CharClass::Just(')'), q + 2);
                        }
                    }
                },
                (Some(open), Some(close)) => {
                    lemma_link_shrinks(text, open, p, close);
                    if off_domain(text.subrange(p + 2, close), base) {
                        lemma_rewrite_from(
                            replace_all(
                                text,
                                text.subrange(open, close + 1),
                                text.subrange(open + 1, p),
                            ),
                            base,
                            0,
                        );
                    } else {
                        lemma_rewrite_from(text, base, p + 2);
                    }
                },
            }
        },
    }
}

/// After the rewrite no link with an off-domain target is left in the line.
pub proof fn lemma_no_off_domain_link_left(line: Seq<char>, base: Seq<char>)
    ensures
        stays_on_domain(rewrite_links(line, base, 0), base),
{
    lemma_rewrite_from(line, base, 0);
}

/// A text in which no link leads off the domain is left as it is, from
/// wherever the scan starts.
pub proof fn lemma_on_domain_from(text: Seq<char>, base: Seq<char>, start: int)
    requires
        stays_on_domain(text, base),
    ensures
        rewrite_links(text, base, start) == text,
    decreases text.len(), text.len() - start,
{
    if start >= 0 {
        lemma_find_from(text, link_mark(), start);
        match find_from(text, link_mark(), start) {
            None => {},
            Some(p) => {
                assert(!reducible_at(text, base, p));
                match (
                    last_in(text, CharClass::Just('['), p),
                    first_in(text, CharClass::Just(')'), p + 2),
                ) {
                    (None, _) => {
                        lemma_on_domain_from(text, base, p + 2);
                    },
                    (Some(_), None) => {},
                    (Some(open), Some(close)) => {
                        lemma_on_domain_from(text, base, p + 2);
                    },
                }
            },
        }
    }
}

/// A line in which every link stays on the domain is preserved unchanged.
pub proof fn lemma_on_domain_links_kept(line: Seq<char>, base: Seq<char>)
    requires
        stays_on_domain(line, base),
    ensures
        rewrite_links(line, base, 0) == line,
{
    lemma_on_domain_from(line, base, 0);
}

/// Rewriting a rewritten line changes nothing more.
pub proof fn lemma_rewrite_idempotent(line: Seq<char>, base: Seq<char>)
    ensures
        rewrite_links(rewrite_links(line, base, 0), base, 0) == rewrite_links(line, base, 0),
{
    lemma_no_off_domain_link_left(line, base);
    lemma_on_domain_links_kept(rewrite_links(line, base, 0), base);
}

/// `part` stays clear of every link that the rewrite of `text` reduces:
/// whenever a link is reduced, none of its occurrences overlaps an
/// occurrence of `part`.
pub open spec fn stays_clear(text: Seq<char>, base: Seq<char>, start: int, part: Seq<char>) -> bool
    decreases text.len(), text.len() - start,
{
    if start < 0 {
        true
    } else {
        match find_from(text, link_mark(), start) {
            None => true,
            Some(p) => match (
                last_in(text, CharClass::Just('['), p),
                first_in(text, CharClass::Just(')'), p + 2),
            ) {
                (None, _) => {
                    proof {
                        lemma_find_from(text, link_mark(), start);
                    }
                    stays_clear(text, base, p + 2, part)
                },
                (Some(_), None) => true,
                (Some(open), Some(close)) => {
                    proof {
                        lemma_find_from(text, link_mark(), start);
                        lemma_link_shrinks(text, open, p, close);
                    }
                    if off_domain(text.subrange(p + 2, close), base) {
                        clear_of(text, part, text.subrange(open, close + 1)) && stays_clear(
                            replace_all(
                                text,
                                text.subrange(open, close + 1),
                                text.subrange(open + 1, p),
                            ),
                            base,
                            0,
                            part,
                        )
                    } else {
                        stays_clear(text, base, p + 2, part)
                    }
                },
            },
        }
    }
}

/// Whatever stands in the text and stays clear of the links that are
/// reduced, stands in the rewritten text as it was written.
pub proof fn lemma_clear_part_kept(text: Seq<char>, base: Seq<char>, start: int, part: Seq<char>)
    requires
        contains(text, part),
        stays_clear(text, base, start, part),
    ensures
        contains(rewrite_links(text, base, start), part),
    decreases text.len(), text.len() - start,
{
    if start >= 0 {
        lemma_find_from(text, link_mark(), start);
        match find_from(text, link_mark(), start) {
            None => {},
            Some(p) => {
                match (
                    last_in(text, CharClass::Just('['), p),
                    first_in(text, CharClass::Just(')'), p + 2),
                ) {
                    (None, _) => {
                        lemma_clear_part_kept(text, base, p + 2, part);
                    },
                    (Some(_), None) => {},
                    (Some(open), Some(close)) => {
                        lemma_link_shrinks(text, open, p, close);
                        if off_domain(text.subrange(p + 2, close), base) {
                            let link = text.subrange(open, close + 1);
                            let label = text.subrange(open + 1, p);
                            lemma_replace_spares(text, link, label, part);
                            lemma_clear_part_kept(replace_all(text, link, label), base, 0, part);
                        } else {
                            lemma_clear_part_kept(text, base, p + 2, part);
                        }
                    },
                }
            },
        }
    }
}

/// A link whose host holds the base domain, and which stays clear of the
/// links that are reduced, is preserved as it was written when other
/// links of the line are rewritten.
pub proof fn lemma_on_domain_link_kept(
    line: Seq<char>,
    base: Seq<char>,
    open: int,
    mark: int,
    close: int,
)
    requires
        matches_at(line, link_mark(), mark),
        last_in(line, CharClass::Just('['), mark) == Some(open),
        first_in(line, CharClass::Just(')'), mark + 2) == Some(close),
        !off_domain(line.subrange(mark + 2, close), base),
        stays_clear(line, base, 0, line.subrange(open, close + 1)),
    ensures
        contains(rewrite_links(line, base, 0), line.subrange(open, close + 1)),
{
    lemma_link_shrinks(line, open, mark, close);
    let link = line.subrange(open, close + 1);
    assert(matches_at(line, link, open));
    lemma_contains(line, link);
    lemma_clear_part_kept(line, base, 0, link);
}

/// A link written out: `[label](target)`.
pub open spec fn link_text(label: Seq<char>, target: Seq<char>) -> Seq<char> {
    seq!['['] + label + link_mark() + target + seq![')']
}

/// A line that is one link, with a label free of `[` and `](` and a
/// target free of `)` and `](`, is reduced to its label where the target
/// is off-domain, and left as it is where it is not.
pub proof fn lemma_lone_link(label: Seq<char>, target: Seq<char>, base: Seq<char>)
    requires
        forall|i: int| 0 <= i < label.len() ==> label[i] != '[',
        forall|i: int| 0 <= i < target.len() ==> target[i] != ')',
        !contains(label, link_mark()),
        !contains(target, link_mark()),
    ensures
        rewrite_links(link_text(label, target), base, 0) == if off_domain(target, base) {
            label
        } else {
            link_text(label, target)
        },
{
    let line = link_text(label, target);
    let mark = link_mark();
    let p = 1 + label.len() as int;
    let end = line.len() as int - 1;
    assert(line.len() == label.len() + target.len() + 4);
    assert(line[0] == '[');
    assert(line[p] == ']' && line[p + 1] == '(');
    assert(line[end] == ')');
    assert forall|i: int| 0 <= i < label.len() implies line[1 + i] == label[i] by {}
    assert forall|i: int| 0 <= i < target.len() implies line[p + 2 + i] == target[i] by {}
    assert(line.subrange(p, p + 2) =~= mark);
    lemma_contains(label, mark);
    lemma_contains(target, mark);
    assert forall|j: int| 0 <= j && j != p implies !matches_at(line, mark, j) by {
        if matches_at(line, mark, j) {
            assert(line.subrange(j, j + 2)[0] == ']');
            assert(line.subrange(j, j + 2)[1] == '(');
            if 1 <= j && j + 1 < p {
                assert(label.subrange(j - 1, j + 1) =~= mark);
                assert(matches_at(label, mark, j - 1));
            } else if p + 2 <= j && j + 1 < end {
                assert(target.subrange(j - p - 2, j - p) =~= mark);
                assert(matches_at(target, mark, j - p - 2));
            }
        }
    }
    lemma_find_from(line, mark, 0);
    lemma_find_from(line, mark, p + 2);
    assert(matches_at(line, mark, p));
    assert(find_from(line, mark, 0) == Some(p)) by {
        let found = find_from(line, mark, 0);
        if found is Some {
            assert(matches_at(line, mark, found->0));
        }
    }
    assert(find_from(line, mark, p + 2) is None);
    lemma_last_in(line, CharClass::Just('['), p);
    assert(last_in(line, CharClass::Just('['), p) == Some(0int)) by {
        let k = last_in(line, CharClass::Just('['), p);
        if k is Some && k->0 >= 1 {
            assert(line[k->0] == label[k->0 - 1]);
        }
    }
    lemma_first_in(line, CharClass::Just(')'), p + 2);
    assert(first_in(line, CharClass::Just(')'), p + 2) == Some(end)) by {
        let c = first_in(line, CharClass::Just(')'), p + 2);
        if c is Some && c->0 < end {
            assert(line[c->0] == target[c->0 - p - 2]);
        }
    }
    assert(line.subrange(p + 2, end) =~= target);
    assert(line.subrange(0, end + 1) =~= line);
    assert(line.subrange(1, p) =~= label);
    if off_domain(target, base) {
        assert(matches_at(line, line, 0));
        assert(replace_from(line, line, label, line.len() as int) =~= Seq::<char>::empty());
        assert(replace_all(line, line, label) =~= label);
        lemma_find_from(label, mark, 0);
        assert(rewrite_links(label, base, 0) == label);
    } else {
        assert(rewrite_links(line, base, p + 2) == line);
    }
}

/// Replacing in a text without line feed, by a text without line feed,
/// gives a text without line feed.
pub proof fn lemma_replace_no_line_feed(
    hay: Seq<char>,
    needle: Seq<char>,
    rep: Seq<char>,
    from: int,
)
    requires
        no_line_feed(hay),
        no_line_feed(rep),
    ensures
        no_line_feed(replace_from(hay, needle, rep, from)),
    decreases hay.len() - from,
{
    if from < 0 || from >= hay.len() || needle.len() == 0 {
    } else if matches_at(hay, needle, from) {
        lemma_replace_no_line_feed(hay, needle, rep, from + needle.len());
        let rest = replace_from(hay, needle, rep, from + needle.len());
        let out = rep + rest;
        assert forall|i: int| 0 <= i < out.len() implies out[i] != '\n' by {
            if i < rep.len() {
                assert(out[i] == rep[i]);
            } else {
                assert(out[i] == rest[i - rep.len()]);
            }
        }
    } else {
        lemma_replace_no_line_feed(hay, needle, rep, from + 1);
        let rest = replace_from(hay, needle, rep, from + 1);
        let out = seq![hay[from]] + rest;
        assert forall|i: int| 0 <= i < out.len() implies out[i] != '\n' by {
            if i > 0 {
                assert(out[i] == rest[i - 1]);
            }
        }
    }
}

/// Rewriting the links of a text without line feed gives a text without
/// line feed.
pub proof fn lemma_rewrite_no_line_feed(text: Seq<char>, base: Seq<char>, start: int)
    requires
        no_line_feed(text),
    ensures
        no_line_feed(rewrite_links(text, base, start)),
    decreases text.len(), text.len() - start,
{
    if start >= 0 {
        lemma_find_from(text, link_mark(), start);
        match find_from(text, link_mark(), start) {
            None => {},
            Some(p) => {
                match (
                    last_in(text, CharClass::Just('['), p),
                    first_in(text, CharClass::Just(')'), p + 2),
                ) {
                    (None, _) => {
                        lemma_rewrite_no_line_feed(text, base, p + 2);
                    },
                    (Some(_), None) => {},
                    (Some(open), Some(close)) => {
                        lemma_link_shrinks(text, open, p, close);
                        if off_domain(text.subrange(p + 2, close), base) {
                            let link = text.subrange(open, close + 1);
                            let label = text.subrange(open + 1, p);
                            assert(no_line_feed(label)) by {
                                assert forall|i: int| 0 <= i < label.len() implies label[i]
                                    != '\n' by {
                                    assert(label[i] == text[open + 1 + i]);
                                }
                            }
                            lemma_replace_no_line_feed(text, link, label, 0);
                            lemma_rewrite_no_line_feed(replace_all(text, link, label), base, 0);
                        } else {
                            lemma_rewrite_no_line_feed(text, base, p + 2);
                        }
                    },
                }
            },
        }
    }
}

/// A link that is reducible in a text without its last character is
/// reducible in the text.
pub proof fn lemma_reducible_in_longer(text: Seq<char>, base: Seq<char>, p: int)
    requires
        text.len() > 0,
        reducible_at(text.drop_last(), base, p),
    ensures
        reducible_at(text, base, p),
{
    let head = text.drop_last();
    let tail = seq![text.last()];
    assert(head + tail =~= text);
    assert(text.subrange(p, p + 2) =~= head.subrange(p, p + 2));
    lemma_last_in_prefix(head, tail, CharClass::Just('['), p);
    lemma_first_in_prefix(head, tail, CharClass::Just(')'), p + 2);
    lemma_first_in(head, CharClass::Just(')'), p + 2);
    let close = first_in(head, CharClass::Just(')'), p + 2)->0;
    assert(text.subrange(p + 2, close) =~= head.subrange(p + 2, close));
}

/// A line in which no link leads off the domain stays so without a
/// carriage return at its end.
pub proof fn lemma_strip_cr_stays_on_domain(line: Seq<char>, base: Seq<char>)
    requires
        stays_on_domain(line, base),
    ensures
        stays_on_domain(strip_cr(line), base),
{
    if line.len() > 0 && line.last() == '\r' {
        assert forall|p: int| !reducible_at(line.drop_last(), base, p) by {
            if reducible_at(line.drop_last(), base, p) {
                lemma_reducible_in_longer(line, base, p);
            }
        }
    }
}

/// Whether `url` is an absolute URL whose host does not hold `base`.
pub fn is_off_domain(url: &Vec<char>, base: &Vec<char>) -> (b: bool)
    ensures
        b == off_domain(url@, base@),
{
    let written = string_of(url);
    match WebUrl::parse(written.as_str()) {
        Some(u) => match u.host {
            Some(h) => {
                let host = chars_of(h.as_str());
                find(&host, base, 0).is_none()
            },
            None => false,
        },
        None => false,
    }
}

/// `line` with its off-domain links reduced to their text.
pub fn rewrite_line(line: &Vec<char>, base: &Vec<char>) -> (out: Vec<char>)
    ensures
        out@ == rewrite_links(line@, base@, 0),
{
    let mark: Vec<char> = vec![']', '('];
    assert(mark@ =~= link_mark());
    let mut text: Vec<char> = line.clone();
    let mut start: usize = 0;
    loop
        invariant
            mark@ == link_mark(),
            rewrite_links(text@, base@, start as int) == rewrite_links(line@, base@, 0),
        decreases text.len(), text.len() - start,
    {
        proof {
            lemma_find_from(text@, link_mark(), start as int);
        }
        let p = match find(&text, &mark, start) {
            Some(p) => p,
            None => {
                return text;
            },
        };
        let open = rfind_class(&text, CharClass::Just('['), p);
        let close = find_class(&text, CharClass::Just(')'), p + 2);
        match (open, close) {
            (None, _) => {
                start = p + 2;
            },
            (Some(_), None) => {
                return text;
            },
            (Some(open), Some(close)) => {
                proof {
                    lemma_link_shrinks(text@, open as int, p as int, close as int);
                }
                let url = slice_of(&text, p + 2, close);
                if is_off_domain(&url, base) {
                    let link = slice_of(&text, open, close + 1);
                    let label = slice_of(&text, open + 1, p);
                    text = replace(&text, &link, &label);
                    start = 0;
                } else {
                    start = p + 2;
                }
            },
        }
    }
}

} // verus!
