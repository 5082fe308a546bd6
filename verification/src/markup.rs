//! Removal of leftover HTML elements from Markdown.

use vstd::prelude::*;
use crate::edit::{cut, without};
use crate::text::{
    CharClass, append_chars, contains, find, find_class, find_from, first_in, lemma_find_from,
    lemma_first_in,
};

verus! {

/// How an element named `tag` opens: `<tag`.
pub open spec fn open_tag(tag: Seq<char>) -> Seq<char> {
    seq!['<'] + tag
}

/// The closing tag of an element named `tag`: `</tag>`.
pub open spec fn close_tag(tag: Seq<char>) -> Seq<char> {
    seq!['<', '/'] + tag + seq!['>']
}

/// Where the element ends that opens at `start` and whose opening tag ends
/// with the `>` at `gt`: behind that `>` where the tag closes itself with
/// `/>` or no closing tag follows, else behind the first closing tag.
pub open spec fn element_end(text: Seq<char>, tag: Seq<char>, start: int, gt: int) -> int {
    if gt > start && text[gt - 1] == '/' {
        gt + 1
    } else {
        match find_from(text, close_tag(tag), gt + 1) {
            Some(c) => c + close_tag(tag).len(),
            None => gt + 1,
        }
    }
}

/// Where a fragment ends that opens at `start` and has no `>` behind it:
/// before the next `<`, or at the end of the text.
pub open spec fn fragment_end(text: Seq<char>, start: int) -> int {
    match first_in(text, CharClass::Just('<'), start + 1) {
        Some(lt) => lt,
        None => text.len() as int,
    }
}

/// The first element named `tag` in `text`, as the range it occupies. It
/// begins where `<tag` first stands. Where a `>` follows, it reaches as
/// `element_end` says; an opening that no `>` follows is a fragment and
/// reaches as `fragment_end` says.
pub open spec fn first_element(text: Seq<char>, tag: Seq<char>) -> Option<(int, int)> {
    match find_from(text, open_tag(tag), 0) {
        None => None,
        Some(start) => match first_in(text, CharClass::Just('>'), start) {
            Some(gt) => Some((start, element_end(text, tag, start, gt))),
            None => Some((start, fragment_end(text, start))),
        },
    }
}

/// The range of the first element lies in the text and is not empty.
pub proof fn lemma_first_element(text: Seq<char>, tag: Seq<char>)
    ensures
        match first_element(text, tag) {
            Some((start, end)) => 0 <= start < end <= text.len(),
            None => true,
        },
{
    lemma_find_from(text, open_tag(tag), 0);
    match find_from(text, open_tag(tag), 0) {
        None => {},
        Some(start) => {
            lemma_first_in(text, CharClass::Just('>'), start);
            lemma_first_in(text, CharClass::Just('<'), start + 1);
            match first_in(text, CharClass::Just('>'), start) {
                None => {},
                Some(gt) => {
                    lemma_find_from(text, close_tag(tag), gt + 1);
                },
            }
        },
    }
}

/// `text` without its elements named `tag`: the first element is cut out,
/// and the rest is searched again from its start, until none is left.
pub open spec fn strip_tag(text: Seq<char>, tag: Seq<char>) -> Seq<char>
    decreases text.len(),
{
    match first_element(text, tag) {
        None => text,
        Some((start, end)) => {
            proof {
                lemma_first_element(text, tag);
            }
            strip_tag(without(text, start, end), tag)
        },
    }
}

/// In the stripped text `<tag` stands nowhere: no element and no fragment
/// of one is left.
pub proof fn lemma_strip_tag_complete(text: Seq<char>, tag: Seq<char>)
    ensures
        !contains(strip_tag(text, tag), open_tag(tag)),
    decreases text.len(),
{
    match first_element(text, tag) {
        None => {},
        Some((start, end)) => {
            lemma_first_element(text, tag);
            lemma_strip_tag_complete(without(text, start, end), tag);
        },
    }
}

/// Stripping a stripped text changes nothing more.
pub proof fn lemma_strip_tag_idempotent(text: Seq<char>, tag: Seq<char>)
    ensures
        strip_tag(strip_tag(text, tag), tag) == strip_tag(text, tag),
{
    lemma_strip_tag_complete(text, tag);
}

/// The first element named `tag` in `text`, as the range it occupies.
pub fn find_element(text: &Vec<char>, tag: &Vec<char>) -> (r: Option<(usize, usize)>)
    ensures
        match r {
            Some((start, end)) => first_element(text@, tag@) == Some((start as int, end as int))
                && start < end <= text.len(),
            None => first_element(text@, tag@) is None,
        },
{
    let mut opening: Vec<char> = vec!['<'];
    append_chars(&mut opening, tag);
    let mut closing: Vec<char> = vec!['<', '/'];
    append_chars(&mut closing, tag);
    closing.push('>');
    assert(opening@ =~= open_tag(tag@));
    assert(closing@ =~= close_tag(tag@));
    proof {
        lemma_first_element(text@, tag@);
    }
    let start = match find(text, &opening, 0) {
        Some(start) => start,
        None => {
            return None;
        },
    };
    proof {
        lemma_find_from(text@, open_tag(tag@), 0);
        lemma_first_in(text@, CharClass::Just('>'), start as int);
        lemma_first_in(text@, CharClass::Just('<'), start + 1);
    }
    assert(text@.len() == text.len());
    match find_class(text, CharClass::Just('>'), start) {
        Some(gt) => {
            proof {
                lemma_find_from(text@, close_tag(tag@), gt + 1);
            }
            let end: usize = if gt > start && text[gt - 1] == '/' {
                gt + 1
            } else {
                match find(text, &closing, gt + 1) {
                    Some(c) => c + closing.len(),
                    None => gt + 1,
                }
            };
            Some((start, end))
        },
        None => match find_class(text, CharClass::Just('<'), start + 1) {
            Some(lt) => Some((start, lt)),
            None => Some((start, text.len())),
        },
    }
}

/// `text` without its elements named `tag`.
pub fn remove_elements(text: &Vec<char>, tag: &Vec<char>) -> (out: Vec<char>)
    ensures
        out@ == strip_tag(text@, tag@),
{
    let mut out: Vec<char> = text.clone();
    loop
        invariant
            strip_tag(out@, tag@) == strip_tag(text@, tag@),
        decreases out.len(),
    {
        match find_element(&out, tag) {
            Some((start, end)) => {
                out = cut(&out, start, end);
            },
            None => {
                return out;
            },
        }
    }
}

} // verus!
