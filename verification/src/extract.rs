//! References found in raw HTML: image sources and anchor targets. The
//! markup is scanned as text, element by element; what cannot be read is
//! passed over.

use vstd::prelude::*;
use crate::edit::starts_with;
use crate::lines::views;
use crate::text::{
    CharClass, find, find_class, find_from, first_in, is_space, lemma_find_from, lemma_first_in,
    lowered, matches_here, slice_of, space_char, to_lower,
};

verus! {

/// How an image element opens: `<img`.
pub open spec fn img_open() -> Seq<char> {
    seq!['<', 'i', 'm', 'g']
}

/// The source attribute up to its value: `src=`.
pub open spec fn src_attr() -> Seq<char> {
    seq!['s', 'r', 'c', '=']
}

/// The target attribute up to its value: `href=`.
pub open spec fn href_attr() -> Seq<char> {
    seq!['h', 'r', 'e', 'f', '=']
}

/// How an anchor element opens: `<a`.
pub open spec fn anchor_open() -> Seq<char> {
    seq!['<', 'a']
}

/// The text from `from` up to the first character of `class`; nothing
/// where no such character follows.
pub open spec fn value_until(line: Seq<char>, from: int, class: CharClass) -> Option<Seq<char>> {
    match first_in(line, class, from) {
        Some(end) => Some(line.subrange(from, end)),
        None => None,
    }
}

/// The value that begins at `at`: quoted where a quote stands there, up to
/// the matching quote; else up to white space or the end of `tag`.
pub open spec fn value_at(tag: Seq<char>, at: int) -> Option<Seq<char>> {
    if at < 0 || at >= tag.len() {
        None
    } else if tag[at] == '"' {
        value_until(tag, at + 1, CharClass::Just('"'))
    } else if tag[at] == '\'' {
        value_until(tag, at + 1, CharClass::Just('\''))
    } else {
        match first_in(tag, CharClass::Space, at) {
            Some(end) => Some(tag.subrange(at, end)),
            None => Some(tag.subrange(at, tag.len() as int)),
        }
    }
}

/// The value of the attribute `attr`, written in lower case with its `=`,
/// in an opening tag given without its `>`: the value behind the first
/// `attr`, whatever the case of its letters and whatever its quoting.
pub open spec fn attr_value(tag: Seq<char>, attr: Seq<char>) -> Option<Seq<char>> {
    match find_from(lowered(tag), attr, 0) {
        Some(s) => value_at(tag, s + attr.len()),
        None => None,
    }
}

/// The values of the attribute `attr` in the elements of `html[from..]`
/// that open with `opener`. An element opens with `opener`, in either case,
/// and white space, and its opening tag reaches to the next `>`; the scan
/// goes on behind that `>`. An opening whose tag never closes ends the
/// scan. Every element is read, however many stand on one line.
pub open spec fn attr_values_from(
    html: Seq<char>,
    opener: Seq<char>,
    attr: Seq<char>,
    from: int,
) -> Seq<Seq<char>>
    decreases html.len() - from,
{
    if from < 0 || opener.len() == 0 {
        Seq::empty()
    } else {
        match find_from(lowered(html), opener, from) {
            None => Seq::empty(),
            Some(open) => {
                let after = open + opener.len();
                if from <= open && after < html.len() && is_space(html[after]) {
                    match first_in(html, CharClass::Just('>'), after) {
                        None => Seq::empty(),
                        Some(gt) => if after <= gt < html.len() {
                            match attr_value(html.subrange(open, gt), attr) {
                                Some(value) => seq![value] + attr_values_from(
                                    html,
                                    opener,
                                    attr,
                                    gt + 1,
                                ),
                                None => attr_values_from(html, opener, attr, gt + 1),
                            }
                        } else {
                            Seq::empty()
                        },
                    }
                } else if from <= open && after <= html.len() {
                    attr_values_from(html, opener, attr, after)
                } else {
                    Seq::empty()
                }
            },
        }
    }
}

/// The image sources of an HTML text, in the order in which they stand:
/// the `src` of every `img` element.
pub open spec fn image_sources(html: Seq<char>) -> Seq<Seq<char>> {
    attr_values_from(html, img_open(), src_attr(), 0)
}

/// The anchor targets of an HTML text, in the order in which they stand:
/// the `href` of every `a` element.
pub open spec fn anchor_targets(html: Seq<char>) -> Seq<Seq<char>> {
    attr_values_from(html, anchor_open(), href_attr(), 0)
}

/// A reference that can be fetched: not a fragment of the page itself,
/// not a script, not a mail address. The case of a scheme's letters does
/// not matter.
pub open spec fn is_fetchable(reference: Seq<char>) -> bool {
    &&& !starts_with(reference, seq!['#'])
    &&& !starts_with(
        lowered(reference),
        seq!['j', 'a', 'v', 'a', 's', 'c', 'r', 'i', 'p', 't', ':'],
    )
    &&& !starts_with(lowered(reference), seq!['m', 'a', 'i', 'l', 't', 'o', ':'])
}

/// The text from `from` up to the first character of `class`.
fn read_until(line: &Vec<char>, from: usize, class: CharClass) -> (r: Option<Vec<char>>)
    ensures
        match r {
            Some(v) => value_until(line@, from as int, class) == Some(v@),
            None => value_until(line@, from as int, class) is None,
        },
{
    proof {
        lemma_first_in(line@, class, from as int);
    }
    match find_class(line, class, from) {
        Some(end) => Some(slice_of(line, from, end)),
        None => None,
    }
}

/// The value that begins at `at` in an opening tag.
fn read_value_at(tag: &Vec<char>, at: usize) -> (r: Option<Vec<char>>)
    ensures
        match r {
            Some(v) => value_at(tag@, at as int) == Some(v@),
            None => value_at(tag@, at as int) is None,
        },
{
    if at >= tag.len() {
        None
    } else if tag[at] == '"' {
        read_until(tag, at + 1, CharClass::Just('"'))
    } else if tag[at] == '\'' {
        read_until(tag, at + 1, CharClass::Just('\''))
    } else {
        proof {
            lemma_first_in(tag@, CharClass::Space, at as int);
        }
        match find_class(tag, CharClass::Space, at) {
            Some(end) => Some(slice_of(tag, at, end)),
            None => Some(slice_of(tag, at, tag.len())),
        }
    }
}

/// The value of the attribute `attr` in an opening tag given without its
/// `>`.
pub fn read_attr(tag: &Vec<char>, attr: &Vec<char>) -> (r: Option<Vec<char>>)
    ensures
        match r {
            Some(v) => attr_value(tag@, attr@) == Some(v@),
            None => attr_value(tag@, attr@) is None,
        },
{
    let low = to_lower(tag);
    proof {
        lemma_find_from(lowered(tag@), attr@, 0);
    }
    assert(low@.len() == low.len());
    match find(&low, attr, 0) {
        Some(s) => read_value_at(tag, s + attr.len()),
        None => None,
    }
}

/// The values of the attribute `attr` in the elements of `html` that open
/// with `opener`.
pub fn find_attr_values(html: &Vec<char>, opener: &Vec<char>, attr: &Vec<char>) -> (out: Vec<
    Vec<char>,
>)
    ensures
        views(out@) == attr_values_from(html@, opener@, attr@, 0),
{
    let mut out: Vec<Vec<char>> = Vec::new();
    assert(views(out@) =~= Seq::<Seq<char>>::empty());
    if opener.len() == 0 {
        return out;
    }
    let low = to_lower(html);
    let mut from: usize = 0;
    loop
        invariant
            low@ == lowered(html@),
            opener.len() > 0,
            from <= html.len(),
            views(out@) + attr_values_from(html@, opener@, attr@, from as int) == attr_values_from(
                html@,
                opener@,
                attr@,
                0,
            ),
        decreases html.len() - from,
    {
        let ghost before = views(out@);
        proof {
            lemma_find_from(lowered(html@), opener@, from as int);
            assert(before + Seq::<Seq<char>>::empty() =~= before);
        }
        assert(low@.len() == low.len());
        let open = match find(&low, opener, from) {
            Some(open) => open,
            None => {
                return out;
            },
        };
        let after = open + opener.len();
        if after < html.len() && space_char(html[after]) {
            proof {
                lemma_first_in(html@, CharClass::Just('>'), after as int);
            }
            let gt = match find_class(html, CharClass::Just('>'), after) {
                Some(gt) => gt,
                None => {
                    return out;
                },
            };
            let tag = slice_of(html, open, gt);
            if let Some(value) = read_attr(&tag, attr) {
                proof {
                    let rest = attr_values_from(html@, opener@, attr@, gt + 1);
                    assert(before.push(value@) + rest =~= before + (seq![value@] + rest));
                }
                out.push(value);
                assert(views(out@) =~= before.push(value@));
            }
            from = gt + 1;
        } else {
            from = after;
        }
    }
}

/// The image sources of an HTML text, in the order in which they stand.
pub fn find_image_sources(html: &Vec<char>) -> (out: Vec<Vec<char>>)
    ensures
        views(out@) == image_sources(html@),
{
    let opener: Vec<char> = vec!['<', 'i', 'm', 'g'];
    let attr: Vec<char> = vec!['s', 'r', 'c', '='];
    assert(opener@ =~= img_open());
    assert(attr@ =~= src_attr());
    find_attr_values(html, &opener, &attr)
}

/// The anchor targets of an HTML text, in the order in which they stand.
pub fn find_anchor_targets(html: &Vec<char>) -> (out: Vec<Vec<char>>)
    ensures
        views(out@) == anchor_targets(html@),
{
    let opener: Vec<char> = vec!['<', 'a'];
    let attr: Vec<char> = vec!['h', 'r', 'e', 'f', '='];
    assert(opener@ =~= anchor_open());
    assert(attr@ =~= href_attr());
    find_attr_values(html, &opener, &attr)
}

/// Whether the reference can be fetched.
pub fn fetchable(reference: &Vec<char>) -> (b: bool)
    ensures
        b == is_fetchable(reference@),
{
    let hash: Vec<char> = vec!['#'];
    let script: Vec<char> = vec!['j', 'a', 'v', 'a', 's', 'c', 'r', 'i', 'p', 't', ':'];
    let mail: Vec<char> = vec!['m', 'a', 'i', 'l', 't', 'o', ':'];
    assert(hash@ =~= seq!['#']);
    assert(script@ =~= seq!['j', 'a', 'v', 'a', 's', 'c', 'r', 'i', 'p', 't', ':']);
    assert(mail@ =~= seq!['m', 'a', 'i', 'l', 't', 'o', ':']);
    let low = to_lower(reference);
    !matches_here(reference, &hash, 0) && !matches_here(&low, &script, 0) && !matches_here(
        &low,
        &mail,
        0,
    )
}

} // verus!
