//! The combined document of an entry: per-page Markdown is cleaned, put
//! under a heading taken from its file name, and concatenated in the order
//! of the file names.

use vstd::prelude::*;
use crate::edit::{blank, cut, is_blank, starts_with, trim, trim_class, without};
use crate::lines::{join, join_with, lines, lines_from, split_lines, strip_cr, views};
use crate::edit::lemma_trimmed;
use crate::links::{
    lemma_lone_link, lemma_no_off_domain_link_left, lemma_on_domain_links_kept, link_mark,
    link_text, off_domain, rewrite_line, rewrite_links, stays_on_domain,
};
use crate::markup::{find_element, first_element, lemma_first_element, open_tag};
use crate::text::{
    CharClass, append_chars, contains, find, find_class, find_from, first_in, last_in,
    lemma_contains_in_part, lemma_find_from, lemma_first_in, lemma_last_in, matches_here,
    rfind_class, slice_of,
};

verus! {

/// How a Markdown image begins: `![`.
pub open spec fn image_mark() -> Seq<char> {
    seq!['!', '[']
}

/// A line that is nothing but an image reference: without the white
/// space around it, it begins with `![`, holds `](` behind that, and the
/// first `)` after the `](` is its last character.
pub open spec fn is_image_line(line: Seq<char>) -> bool {
    let body = trim(line);
    &&& starts_with(body, image_mark())
    &&& match find_from(body, link_mark(), 2) {
        Some(mark) => first_in(body, CharClass::Just(')'), mark + 2) == Some(body.len() - 1),
        None => false,
    }
}

/// The given lines without image lines, each with its off-domain links
/// reduced to text.
pub open spec fn kept_lines(ls: Seq<Seq<char>>, base: Seq<char>) -> Seq<Seq<char>>
    decreases ls.len(),
{
    if ls.len() == 0 {
        Seq::empty()
    } else if is_image_line(ls.last()) {
        kept_lines(ls.drop_last(), base)
    } else {
        kept_lines(ls.drop_last(), base).push(rewrite_links(ls.last(), base, 0))
    }
}

/// The lines in a row, each ended by a line feed.
pub open spec fn terminated(ls: Seq<Seq<char>>) -> Seq<char>
    decreases ls.len(),
{
    if ls.len() == 0 {
        Seq::empty()
    } else {
        terminated(ls.drop_last()) + ls.last() + seq!['\n']
    }
}

/// One page's Markdown, cleaned for the domain `base`: its lines without
/// image lines, each with its off-domain links reduced to text and ended
/// by a line feed.
pub open spec fn clean_text(content: Seq<char>, base: Seq<char>) -> Seq<char> {
    terminated(kept_lines(lines(content), base))
}

/// In no line of a cleaned page does a link lead off the domain.
pub proof fn lemma_cleaned_lines_stay_on_domain(ls: Seq<Seq<char>>, base: Seq<char>)
    ensures
        forall|i: int|
            0 <= i < kept_lines(ls, base).len() ==> stays_on_domain(
                #[trigger] kept_lines(ls, base)[i],
                base,
            ),
    decreases ls.len(),
{
    if ls.len() > 0 {
        let head = kept_lines(ls.drop_last(), base);
        let all = kept_lines(ls, base);
        lemma_cleaned_lines_stay_on_domain(ls.drop_last(), base);
        lemma_no_off_domain_link_left(ls.last(), base);
        assert forall|i: int| 0 <= i < all.len() implies stays_on_domain(#[trigger] all[i], base) by {
            if i < head.len() {
                assert(all[i] == head[i]);
            }
        }
    }
}

/// A page without image lines in which every link stays on the domain is
/// preserved line by line.
pub proof fn lemma_on_domain_page_kept(ls: Seq<Seq<char>>, base: Seq<char>)
    requires
        forall|i: int| 0 <= i < ls.len() ==> !is_image_line(#[trigger] ls[i]),
        forall|i: int| 0 <= i < ls.len() ==> stays_on_domain(#[trigger] ls[i], base),
    ensures
        kept_lines(ls, base) == ls,
    decreases ls.len(),
{
    if ls.len() > 0 {
        let head = ls.drop_last();
        assert forall|i: int| 0 <= i < head.len() implies !is_image_line(#[trigger] head[i]) by {
            assert(head[i] == ls[i]);
        }
        assert forall|i: int| 0 <= i < head.len() implies stays_on_domain(
            #[trigger] head[i],
            base,
        ) by {
            assert(head[i] == ls[i]);
        }
        lemma_on_domain_page_kept(head, base);
        assert(!is_image_line(ls[ls.len() - 1]));
        assert(stays_on_domain(ls[ls.len() - 1], base));
        lemma_on_domain_links_kept(ls.last(), base);
        assert(head.push(ls.last()) =~= ls);
    }
}

/// A page that is one link on one line comes out as that line, ended by a
/// line feed: reduced to the link's label where the target is off-domain,
/// and as it was written where it is not.
pub proof fn lemma_lone_link_page(label: Seq<char>, target: Seq<char>, base: Seq<char>)
    requires
        forall|i: int| 0 <= i < label.len() ==> label[i] != '[' && label[i] != '\n',
        forall|i: int| 0 <= i < target.len() ==> target[i] != ')' && target[i] != '\n',
        !contains(label, link_mark()),
        !contains(target, link_mark()),
    ensures
        clean_text(link_text(label, target), base) == if off_domain(target, base) {
            label + seq!['\n']
        } else {
            link_text(label, target) + seq!['\n']
        },
{
    let line = link_text(label, target);
    let end = line.len() as int - 1;
    assert(line.len() == label.len() + target.len() + 4);
    assert(line[0] == '[');
    assert(line[end] == ')');
    assert forall|i: int| 0 <= i < line.len() implies line[i] != '\n' by {
        if 1 <= i <= label.len() {
            assert(line[i] == label[i - 1]);
        } else if label.len() + 3 <= i < end {
            assert(line[i] == target[i - label.len() - 3]);
        }
    }
    lemma_first_in(line, CharClass::Just('\n'), 0);
    assert(line.subrange(0, line.len() as int) =~= line);
    assert(lines(line) =~= seq![line]);
    assert(!is_image_line(line)) by {
        let body = trim(line);
        lemma_trimmed(line, CharClass::Space);
        if starts_with(body, image_mark()) {
            assert(body.subrange(0, 2)[0] == '!');
            assert(body[0] == line[0]);
        }
    }
    lemma_lone_link(label, target, base);
    let ls = seq![line];
    assert(ls.drop_last() =~= Seq::<Seq<char>>::empty());
    assert(kept_lines(ls.drop_last(), base) =~= Seq::<Seq<char>>::empty());
    let kept = kept_lines(ls, base);
    assert(kept =~= seq![rewrite_links(line, base, 0)]);
    assert(kept.drop_last() =~= Seq::<Seq<char>>::empty());
    assert(terminated(kept.drop_last()) =~= Seq::<char>::empty());
    assert(terminated(kept) =~= rewrite_links(line, base, 0) + seq!['\n']);
}

/// The given lines without each blank line that follows a blank line.
pub open spec fn squeeze_blank(ls: Seq<Seq<char>>) -> Seq<Seq<char>>
    decreases ls.len(),
{
    if ls.len() == 0 {
        Seq::empty()
    } else if ls.len() >= 2 && is_blank(ls.last()) && is_blank(ls[ls.len() - 2]) {
        squeeze_blank(ls.drop_last())
    } else {
        squeeze_blank(ls.drop_last()).push(ls.last())
    }
}

/// After the squeeze no blank line follows a blank line, and the text
/// ends blank exactly where it did before.
pub proof fn lemma_squeeze_blank(ls: Seq<Seq<char>>)
    ensures
        forall|i: int|
            0 <= i < squeeze_blank(ls).len() - 1 ==> !(is_blank(#[trigger] squeeze_blank(ls)[i])
                && is_blank(squeeze_blank(ls)[i + 1])),
        ls.len() > 0 ==> squeeze_blank(ls).len() > 0 && is_blank(squeeze_blank(ls).last())
            == is_blank(ls.last()),
        squeeze_blank(ls).len() <= ls.len(),
    decreases ls.len(),
{
    if ls.len() > 0 {
        let head = ls.drop_last();
        lemma_squeeze_blank(head);
        let before = squeeze_blank(head);
        let out = squeeze_blank(ls);
        if ls.len() >= 2 {
            assert(head.last() == ls[ls.len() - 2]);
        }
        if !(ls.len() >= 2 && is_blank(ls.last()) && is_blank(ls[ls.len() - 2])) {
            assert forall|i: int| 0 <= i < out.len() - 1 implies !(is_blank(#[trigger] out[i])
                && is_blank(out[i + 1])) by {
                if i < before.len() - 1 {
                    assert(out[i] == before[i] && out[i + 1] == before[i + 1]);
                } else {
                    assert(out[i] == before.last());
                    assert(out[i + 1] == ls.last());
                }
            }
        }
    }
}

/// The element name `img`.
pub open spec fn img() -> Seq<char> {
    seq!['i', 'm', 'g']
}

/// The element name `video`.
pub open spec fn video() -> Seq<char> {
    seq!['v', 'i', 'd', 'e', 'o']
}

/// The element name `audio`.
pub open spec fn audio() -> Seq<char> {
    seq!['a', 'u', 'd', 'i', 'o']
}

/// The first media element of `text`: the first `img` element, or where
/// there is none the first `video` element, or else the first `audio`
/// element.
pub open spec fn first_media(text: Seq<char>) -> Option<(int, int)> {
    match first_element(text, img()) {
        Some(range) => Some(range),
        None => match first_element(text, video()) {
            Some(range) => Some(range),
            None => first_element(text, audio()),
        },
    }
}

/// `text` without its `img`, `video` and `audio` elements: the first media
/// element is cut out, again and again, until none of the three is left.
pub open spec fn without_media(text: Seq<char>) -> Seq<char>
    decreases text.len(),
{
    match first_media(text) {
        None => text,
        Some((start, end)) => {
            proof {
                lemma_first_element(text, img());
                lemma_first_element(text, video());
                lemma_first_element(text, audio());
            }
            without_media(without(text, start, end))
        },
    }
}

/// Where the media are cut out, no opening of a media element is left.
pub proof fn lemma_without_media_complete(text: Seq<char>)
    ensures
        !contains(without_media(text), open_tag(img())),
        !contains(without_media(text), open_tag(video())),
        !contains(without_media(text), open_tag(audio())),
    decreases text.len(),
{
    match first_media(text) {
        None => {},
        Some((start, end)) => {
            lemma_first_element(text, img());
            lemma_first_element(text, video());
            lemma_first_element(text, audio());
            lemma_without_media_complete(without(text, start, end));
        },
    }
}

/// The lines of the document in its final form: leftover media elements
/// are cut out of the text, and of its lines each blank line that follows
/// a blank line is left out.
pub open spec fn tidy_lines(content: Seq<char>) -> Seq<Seq<char>> {
    squeeze_blank(lines(without_media(content)))
}

/// The document in its final form: the tidy lines, joined by line feeds.
pub open spec fn tidy(content: Seq<char>) -> Seq<char> {
    join(tidy_lines(content), seq!['\n'])
}

/// What a text does not hold, none of its lines holds.
pub proof fn lemma_lines_hold_no_more(s: Seq<char>, needle: Seq<char>, from: int)
    requires
        0 <= from,
        !contains(s, needle),
    ensures
        forall|i: int|
            0 <= i < lines_from(s, from).len() ==> !contains(
                #[trigger] lines_from(s, from)[i],
                needle,
            ),
    decreases s.len() - from,
{
    if from < s.len() {
        lemma_first_in(s, CharClass::Just('\n'), from);
        let all = lines_from(s, from);
        match first_in(s, CharClass::Just('\n'), from) {
            Some(nl) => {
                lemma_lines_hold_no_more(s, needle, nl + 1);
                let raw = s.subrange(from, nl);
                let line = strip_cr(raw);
                let end = if raw.len() > 0 && raw.last() == '\r' {
                    nl - 1
                } else {
                    nl
                };
                assert(line =~= s.subrange(from, end));
                if contains(line, needle) {
                    lemma_contains_in_part(s, needle, from, end);
                }
                let rest = lines_from(s, nl + 1);
                assert forall|i: int| 0 <= i < all.len() implies !contains(
                    #[trigger] all[i],
                    needle,
                ) by {
                    if i > 0 {
                        assert(all[i] == rest[i - 1]);
                    }
                }
            },
            None => {
                if contains(s.subrange(from, s.len() as int), needle) {
                    lemma_contains_in_part(s, needle, from, s.len() as int);
                }
            },
        }
    }
}

/// Every line that the squeeze keeps is one of the lines it was given.
pub proof fn lemma_squeeze_keeps_lines(ls: Seq<Seq<char>>)
    ensures
        forall|i: int| 0 <= i < squeeze_blank(ls).len() ==> ls.contains(#[trigger] squeeze_blank(ls)[i]),
    decreases ls.len(),
{
    if ls.len() > 0 {
        let head = ls.drop_last();
        lemma_squeeze_keeps_lines(head);
        let before = squeeze_blank(head);
        let out = squeeze_blank(ls);
        assert forall|i: int| 0 <= i < out.len() implies ls.contains(#[trigger] out[i]) by {
            if i < before.len() {
                assert(out[i] == before[i]);
                assert(head.contains(before[i]));
                let k = choose|k: int| 0 <= k < head.len() && head[k] == before[i];
                assert(ls[k] == before[i]);
            } else {
                assert(ls[ls.len() - 1] == out[i]);
            }
        }
    }
}

/// For every content: in the final form no blank line follows a blank
/// line, and no line holds the opening of a media element.
pub proof fn lemma_tidy(content: Seq<char>)
    ensures
        forall|i: int|
            0 <= i < tidy_lines(content).len() - 1 ==> !(is_blank(#[trigger] tidy_lines(content)[i])
                && is_blank(tidy_lines(content)[i + 1])),
        forall|i: int|
            0 <= i < tidy_lines(content).len() ==> {
                let line = #[trigger] tidy_lines(content)[i];
                &&& !contains(line, open_tag(img()))
                &&& !contains(line, open_tag(video()))
                &&& !contains(line, open_tag(audio()))
            },
{
    let clean = without_media(content);
    let ls = lines(clean);
    lemma_squeeze_blank(ls);
    lemma_squeeze_keeps_lines(ls);
    lemma_without_media_complete(content);
    lemma_lines_hold_no_more(clean, open_tag(img()), 0);
    lemma_lines_hold_no_more(clean, open_tag(video()), 0);
    lemma_lines_hold_no_more(clean, open_tag(audio()), 0);
    assert forall|i: int| 0 <= i < tidy_lines(content).len() implies {
        let line = #[trigger] tidy_lines(content)[i];
        &&& !contains(line, open_tag(img()))
        &&& !contains(line, open_tag(video()))
        &&& !contains(line, open_tag(audio()))
    } by {
        let line = tidy_lines(content)[i];
        assert(ls.contains(line));
        let k = choose|k: int| 0 <= k < ls.len() && ls[k] == line;
    }
}

/// Whether `line` is nothing but an image reference.
pub fn image_line(line: &Vec<char>) -> (b: bool)
    ensures
        b == is_image_line(line@),
{
    let mark: Vec<char> = vec!['!', '['];
    let link: Vec<char> = vec![']', '('];
    assert(mark@ =~= image_mark());
    assert(link@ =~= link_mark());
    let body = trim_class(line, CharClass::Space);
    if !matches_here(&body, &mark, 0) {
        return false;
    }
    proof {
        lemma_find_from(body@, link_mark(), 2);
    }
    assert(body@.len() == body.len());
    match find(&body, &link, 2) {
        Some(p) => match find_class(&body, CharClass::Just(')'), p + 2) {
            Some(close) => {
                proof {
                    lemma_first_in(body@, CharClass::Just(')'), p + 2);
                }
                close == body.len() - 1
            },
            None => false,
        },
        None => false,
    }
}

/// One page's Markdown, cleaned for the domain `base`.
pub fn clean(content: &Vec<char>, base: &Vec<char>) -> (out: Vec<char>)
    ensures
        out@ == clean_text(content@, base@),
{
    let ls = split_lines(content);
    let mut out: Vec<char> = Vec::new();
    let mut i: usize = 0;
    assert(views(ls@).take(0) =~= Seq::<Seq<char>>::empty());
    while i < ls.len()
        invariant
            i <= ls.len(),
            views(ls@) == lines(content@),
            out@ == terminated(kept_lines(views(ls@).take(i as int), base@)),
        decreases ls.len() - i,
    {
        proof {
            let next = views(ls@).take(i + 1);
            assert(next.drop_last() =~= views(ls@).take(i as int));
            assert(next.last() == ls@[i as int]@);
        }
        if !image_line(&ls[i]) {
            let kept = rewrite_line(&ls[i], base);
            append_chars(&mut out, &kept);
            out.push('\n');
            assert(out@ =~= terminated(kept_lines(views(ls@).take(i as int), base@)) + kept@
                + seq!['\n']);
            assert(kept_lines(views(ls@).take(i + 1), base@).drop_last() =~= kept_lines(
                views(ls@).take(i as int),
                base@,
            ));
        }
        i += 1;
    }
    assert(views(ls@).take(ls.len() as int) =~= views(ls@));
    out
}

/// The document in its final form.
/// The first media element of `text`.
pub fn find_media(text: &Vec<char>) -> (r: Option<(usize, usize)>)
    ensures
        match r {
            Some((start, end)) => first_media(text@) == Some((start as int, end as int)) && start
                < end <= text.len(),
            None => first_media(text@) is None,
        },
{
    let img_tag: Vec<char> = vec!['i', 'm', 'g'];
    let video_tag: Vec<char> = vec!['v', 'i', 'd', 'e', 'o'];
    let audio_tag: Vec<char> = vec!['a', 'u', 'd', 'i', 'o'];
    assert(img_tag@ =~= img());
    assert(video_tag@ =~= video());
    assert(audio_tag@ =~= audio());
    match find_element(text, &img_tag) {
        Some(range) => Some(range),
        None => match find_element(text, &video_tag) {
            Some(range) => Some(range),
            None => find_element(text, &audio_tag),
        },
    }
}

/// `text` without its `img`, `video` and `audio` elements.
pub fn remove_media(text: &Vec<char>) -> (out: Vec<char>)
    ensures
        out@ == without_media(text@),
{
    let mut out: Vec<char> = text.clone();
    loop
        invariant
            without_media(out@) == without_media(text@),
        decreases out.len(),
    {
        match find_media(&out) {
            Some((start, end)) => {
                out = cut(&out, start, end);
            },
            None => {
                return out;
            },
        }
    }
}

/// The document in its final form.
pub fn tidy_up(content: &Vec<char>) -> (out: Vec<char>)
    ensures
        out@ == tidy(content@),
{
    let clean = remove_media(content);
    let ls = split_lines(&clean);
    let mut kept: Vec<Vec<char>> = Vec::new();
    let mut prev_blank = false;
    let mut i: usize = 0;
    assert(views(ls@).take(0) =~= Seq::<Seq<char>>::empty());
    assert(views(kept@) =~= Seq::<Seq<char>>::empty());
    while i < ls.len()
        invariant
            i <= ls.len(),
            views(ls@) == lines(without_media(content@)),
            views(kept@) == squeeze_blank(views(ls@).take(i as int)),
            prev_blank == (i > 0 && is_blank(ls@[i - 1]@)),
        decreases ls.len() - i,
    {
        let ghost before = views(kept@);
        proof {
            let next = views(ls@).take(i + 1);
            assert(next.drop_last() =~= views(ls@).take(i as int));
            assert(next.last() == ls@[i as int]@);
            if i > 0 {
                assert(next[next.len() - 2] == ls@[i - 1]@);
            }
        }
        let is_blank_line = blank(&ls[i]);
        if !(is_blank_line && prev_blank) {
            let line = ls[i].clone();
            kept.push(line);
            assert(views(kept@) =~= before.push(ls@[i as int]@));
        }
        prev_blank = is_blank_line;
        i += 1;
    }
    assert(views(ls@).take(ls.len() as int) =~= views(ls@));
    let sep: Vec<char> = vec!['\n'];
    assert(sep@ =~= seq!['\n']);
    join_with(&kept, &sep)
}

/// The part of a file name before its last dot; the whole name where it
/// has no dot, or none but a leading one.
pub open spec fn stem_of(name: Seq<char>) -> Seq<char> {
    match last_in(name, CharClass::Just('.'), name.len() as int) {
        Some(dot) => if dot > 0 {
            name.subrange(0, dot)
        } else {
            name
        },
        None => name,
    }
}

/// The part of a file name after its last dot, where it has a dot that is
/// not its first character.
pub open spec fn extension_of(name: Seq<char>) -> Option<Seq<char>> {
    match last_in(name, CharClass::Just('.'), name.len() as int) {
        Some(dot) => if dot > 0 {
            Some(name.subrange(dot + 1, name.len() as int))
        } else {
            None
        },
        None => None,
    }
}

/// The part of a file name before its last dot.
pub fn file_stem(name: &Vec<char>) -> (out: Vec<char>)
    ensures
        out@ == stem_of(name@),
{
    proof {
        lemma_last_in(name@, CharClass::Just('.'), name.len() as int);
    }
    match rfind_class(name, CharClass::Just('.'), name.len()) {
        Some(dot) => if dot > 0 {
            slice_of(name, 0, dot)
        } else {
            name.clone()
        },
        None => name.clone(),
    }
}

/// The part of a file name after its last dot.
pub fn file_extension(name: &Vec<char>) -> (out: Option<Vec<char>>)
    ensures
        match out {
            Some(ext) => extension_of(name@) == Some(ext@),
            None => extension_of(name@) is None,
        },
{
    proof {
        lemma_last_in(name@, CharClass::Just('.'), name.len() as int);
    }
    match rfind_class(name, CharClass::Just('.'), name.len()) {
        Some(dot) => if dot > 0 {
            Some(slice_of(name, dot + 1, name.len()))
        } else {
            None
        },
        None => None,
    }
}

/// The heading and body that one page contributes to the document.
pub open spec fn section(name: Seq<char>, content: Seq<char>, base: Seq<char>) -> Seq<char> {
    seq!['\n', '\n', '#', '#', ' '] + stem_of(name) + seq!['\n', '\n'] + clean_text(content, base)
}

/// The heading and body that one page contributes to the document.
pub fn write_section(out: &mut Vec<char>, name: &Vec<char>, content: &Vec<char>, base: &Vec<char>)
    ensures
        final(out)@ == old(out)@ + section(name@, content@, base@),
{
    let head: Vec<char> = vec!['\n', '\n', '#', '#', ' '];
    let gap: Vec<char> = vec!['\n', '\n'];
    let stem = file_stem(name);
    let body = clean(content, base);
    append_chars(out, &head);
    append_chars(out, &stem);
    append_chars(out, &gap);
    append_chars(out, &body);
    assert(out@ =~= old(out)@ + section(name@, content@, base@));
}

} // verus!
