//! File names for stored pages and media, derived from their URLs.

use vstd::prelude::*;
use vstd::utf8::{encode_scalar, encode_utf8};
use crate::address::{WebUrl, text_view};
use crate::edit::{
    all_chars, drop_trailing, lemma_drop_trailing_end, lemma_drop_trailing_is_prefix,
    lemma_drop_trailing_keeps, lemma_halving_keeps_ends, lemma_replace_char_gone,
    lemma_replace_keeps, lemma_replace_len, lemma_skip_leading_keeps, lemma_trimmed, replace,
    replace_all, skip_leading, trim_class, trim_end_class, trimmed,
};
use crate::lines::{join, join_with, views};
use crate::text::{
    CharClass, append_chars, chars_of, contains, find, find_class, first_in, lemma_contains,
    lemma_contains_in_longer, lemma_first_in, matches_at, slice_of, string_of,
};

verus! {

/// The longest file name, in bytes, that is kept whole.
pub const MAX_NAME_BYTES: usize = 200;

/// The pieces of `s[from..]` between occurrences of `sep`.
pub open spec fn pieces(s: Seq<char>, sep: char, from: int) -> Seq<Seq<char>>
    decreases s.len() - from,
{
    if from < 0 || from > s.len() {
        Seq::empty()
    } else {
        match first_in(s, CharClass::Just(sep), from) {
            Some(k) => if from <= k < s.len() {
                seq![s.subrange(from, k)] + pieces(s, sep, k + 1)
            } else {
                Seq::empty()
            },
            None => seq![s.subrange(from, s.len() as int)],
        }
    }
}

/// The parts that are not empty, in order.
pub open spec fn non_empty(parts: Seq<Seq<char>>) -> Seq<Seq<char>>
    decreases parts.len(),
{
    if parts.len() == 0 {
        Seq::empty()
    } else if parts[0].len() > 0 {
        seq![parts[0]] + non_empty(parts.drop_first())
    } else {
        non_empty(parts.drop_first())
    }
}

/// The segments of a URL path that begins with a slash; none where it
/// does not.
pub open spec fn path_segments(path: Seq<char>) -> Option<Seq<Seq<char>>> {
    if path.len() > 0 && path[0] == '/' {
        Some(pieces(path, '/', 1))
    } else {
        None
    }
}

/// The non-empty segments of a URL path, joined by underscores.
pub open spec fn path_part(path: Seq<char>) -> Seq<char> {
    match path_segments(path) {
        Some(segments) => join(non_empty(segments), seq!['_']),
        None => Seq::empty(),
    }
}

/// Characters that file systems refuse in names.
pub open spec fn is_reserved(c: char) -> bool {
    c == '/' || c == '\\' || c == ':' || c == '*' || c == '?' || c == '"' || c == '<' || c == '>'
        || c == '|'
}

/// `s` with each reserved character replaced by an underscore.
pub open spec fn without_reserved(s: Seq<char>) -> Seq<char> {
    Seq::new(
        s.len(),
        |i: int|
            if is_reserved(s[i]) {
                '_'
            } else {
                s[i]
            },
    )
}

/// `s` with `&`, `=` and `+` spelled out, in that order.
pub open spec fn spelled_out(s: Seq<char>) -> Seq<char> {
    replace_all(
        replace_all(
            replace_all(s, seq!['&'], seq!['_', 'a', 'n', 'd', '_']),
            seq!['='],
            seq!['_', 'e', 'q', '_'],
        ),
        seq!['+'],
        seq!['_', 'p', 'l', 'u', 's', '_'],
    )
}

/// `s` with each pair of underscores replaced by one, again and again
/// until no pair is left.
pub open spec fn squeezed(s: Seq<char>) -> Seq<char>
    decreases s.len(),
{
    if contains(s, seq!['_', '_']) {
        proof {
            lemma_replace_len(s, seq!['_', '_'], seq!['_'], 0);
        }
        squeezed(replace_all(s, seq!['_', '_'], seq!['_']))
    } else {
        s
    }
}

/// The bytes that a character takes in UTF-8.
pub open spec fn width(c: char) -> int {
    encode_scalar(c as u32).len() as int
}

/// How many characters from the start of `s` fit into `room` bytes.
pub open spec fn fitting(s: Seq<char>, room: int) -> int
    decreases s.len(),
{
    if s.len() == 0 || width(s[0]) > room {
        0
    } else {
        1 + fitting(s.drop_first(), room - width(s[0]))
    }
}

/// `s` cut to the characters that fit into `MAX_NAME_BYTES` bytes, and to
/// no trailing underscore, where it takes more than that in UTF-8.
pub open spec fn capped(s: Seq<char>) -> Seq<char> {
    if encode_utf8(s).len() > MAX_NAME_BYTES {
        drop_trailing(s.take(fitting(s, MAX_NAME_BYTES as int)), CharClass::Just('_'))
    } else {
        s
    }
}

/// The characters that fit are a beginning of the text and take no more
/// bytes than there is room.
pub proof fn lemma_fitting(s: Seq<char>, room: int)
    requires
        0 <= room,
    ensures
        0 <= fitting(s, room) <= s.len(),
        encode_utf8(s.take(fitting(s, room))).len() <= room,
    decreases s.len(),
{
    if s.len() == 0 || width(s[0]) > room {
        assert(s.take(0) =~= Seq::<char>::empty());
    } else {
        let rest = s.drop_first();
        lemma_fitting(rest, room - width(s[0]));
        let k = fitting(rest, room - width(s[0]));
        let head = s.take(1 + k);
        assert(head[0] == s[0]);
        assert(head.drop_first() =~= rest.take(k));
    }
}

/// A beginning of a text takes no more bytes than the text.
pub proof fn lemma_beginning_takes_less(s: Seq<char>, k: int)
    requires
        0 <= k <= s.len(),
    ensures
        encode_utf8(s.take(k)).len() <= encode_utf8(s).len(),
    decreases s.len(),
{
    if k == 0 {
        assert(s.take(0) =~= Seq::<char>::empty());
    } else {
        let head = s.take(k);
        assert(head[0] == s[0]);
        assert(head.drop_first() =~= s.drop_first().take(k - 1));
        lemma_beginning_takes_less(s.drop_first(), k - 1);
    }
}

/// A text of ASCII characters takes one byte for each.
pub proof fn lemma_ascii_takes_one_each(s: Seq<char>)
    requires
        forall|i: int| 0 <= i < s.len() ==> (#[trigger] s[i]) as u32 <= 0x7f,
    ensures
        encode_utf8(s).len() == s.len(),
    decreases s.len(),
{
    if s.len() > 0 {
        assert forall|i: int| 0 <= i < s.drop_first().len() implies (
        #[trigger] s.drop_first()[i]) as u32 <= 0x7f by {
            assert(s.drop_first()[i] == s[i + 1]);
        }
        lemma_ascii_takes_one_each(s.drop_first());
    }
}

/// The name used where the URL has no host.
pub open spec fn unknown_host() -> Seq<char> {
    seq!['u', 'n', 'k', 'n', 'o', 'w', 'n', '_', 'h', 'o', 's', 't']
}

/// The name used where nothing is left of the URL.
pub open spec fn index_name() -> Seq<char> {
    seq!['i', 'n', 'd', 'e', 'x']
}

/// Host and path segments, joined by underscores.
pub open spec fn raw_name(host: Option<Seq<char>>, path: Seq<char>) -> Seq<char> {
    let h = match host {
        Some(h) => h,
        None => unknown_host(),
    };
    if path_part(path).len() == 0 {
        h
    } else {
        h + seq!['_'] + path_part(path)
    }
}

/// The file name for a URL with the given host and path: host and
/// non-empty path segments joined by underscores; reserved characters
/// replaced and `&`, `=`, `+` spelled out; no underscore at either end and
/// no two in a row; capped in length; `index` where nothing is left.
pub open spec fn file_name_of(host: Option<Seq<char>>, path: Seq<char>) -> Seq<char> {
    let name = capped(
        squeezed(trimmed(spelled_out(without_reserved(raw_name(host, path))), CharClass::Just('_'))),
    );
    if name.len() == 0 {
        index_name()
    } else {
        name
    }
}

/// What holds of a character that file systems do not refuse.
pub open spec fn unreserved() -> spec_fn(char) -> bool {
    |c: char| !is_reserved(c)
}

/// What holds of a character that is neither refused nor `&`.
pub open spec fn without_amp() -> spec_fn(char) -> bool {
    |c: char| !is_reserved(c) && c != '&'
}

/// What holds of a character that is neither refused nor `&` nor `=`.
pub open spec fn without_eq() -> spec_fn(char) -> bool {
    |c: char| !is_reserved(c) && c != '&' && c != '='
}

/// What holds of a character that a file name may hold: it is not
/// refused by file systems, and it is none of `&`, `=`, `+`.
pub open spec fn accepted() -> spec_fn(char) -> bool {
    |c: char| !is_reserved(c) && c != '&' && c != '=' && c != '+'
}

/// A squeezed text that neither began nor ended with an underscore does
/// not do so, and is empty only where it was.
pub proof fn lemma_squeezed_ends(s: Seq<char>)
    requires
        s.len() > 0,
        s[0] != '_',
        s.last() != '_',
    ensures
        squeezed(s).len() > 0,
        squeezed(s)[0] == s[0],
        squeezed(s).last() == s.last(),
    decreases s.len(),
{
    if contains(s, seq!['_', '_']) {
        lemma_replace_len(s, seq!['_', '_'], seq!['_'], 0);
        lemma_halving_keeps_ends(s, '_', 0);
        lemma_squeezed_ends(replace_all(s, seq!['_', '_'], seq!['_']));
    }
}

/// Squeezing keeps what holds of every character, where it holds of the
/// underscore.
pub proof fn lemma_squeezed_keeps(s: Seq<char>, ok: spec_fn(char) -> bool)
    requires
        all_chars(s, ok),
        ok('_'),
    ensures
        all_chars(squeezed(s), ok),
    decreases s.len(),
{
    if contains(s, seq!['_', '_']) {
        lemma_replace_len(s, seq!['_', '_'], seq!['_'], 0);
        lemma_replace_keeps(s, seq!['_', '_'], seq!['_'], ok);
        lemma_squeezed_keeps(replace_all(s, seq!['_', '_'], seq!['_']), ok);
    }
}

/// No pair of underscores is left in a squeezed text.
pub proof fn lemma_squeezed_has_no_pair(s: Seq<char>)
    ensures
        !contains(squeezed(s), seq!['_', '_']),
    decreases s.len(),
{
    if contains(s, seq!['_', '_']) {
        lemma_replace_len(s, seq!['_', '_'], seq!['_'], 0);
        lemma_squeezed_has_no_pair(replace_all(s, seq!['_', '_'], seq!['_']));
    }
}

/// For every host and path the file name is not empty and takes at most
/// `MAX_NAME_BYTES` bytes; it holds no character that file systems refuse
/// and none of `&`, `=`, `+`; no two underscores stand in a row, and none
/// at either end.
pub proof fn lemma_file_name_is_usable(host: Option<Seq<char>>, path: Seq<char>)
    ensures
        file_name_of(host, path).len() > 0,
        encode_utf8(file_name_of(host, path)).len() <= MAX_NAME_BYTES,
        all_chars(file_name_of(host, path), accepted()),
        !contains(file_name_of(host, path), seq!['_', '_']),
        file_name_of(host, path)[0] != '_',
        file_name_of(host, path).last() != '_',
{
    let ok = accepted();
    let raw = raw_name(host, path);
    let clean = without_reserved(raw);
    assert(all_chars(clean, unreserved()));
    let a = replace_all(clean, seq!['&'], seq!['_', 'a', 'n', 'd', '_']);
    let b = replace_all(a, seq!['='], seq!['_', 'e', 'q', '_']);
    let c = replace_all(b, seq!['+'], seq!['_', 'p', 'l', 'u', 's', '_']);
    lemma_replace_char_gone(
        clean,
        '&',
        seq!['_', 'a', 'n', 'd', '_'],
        0,
        unreserved(),
        without_amp(),
    );
    lemma_replace_char_gone(a, '=', seq!['_', 'e', 'q', '_'], 0, without_amp(), without_eq());
    lemma_replace_char_gone(b, '+', seq!['_', 'p', 'l', 'u', 's', '_'], 0, without_eq(), ok);
    lemma_trimmed(c, CharClass::Just('_'));
    if trimmed(c, CharClass::Just('_')).len() > 0 {
        lemma_squeezed_ends(trimmed(c, CharClass::Just('_')));
    }
    let head = skip_leading(c, CharClass::Just('_'));
    lemma_skip_leading_keeps(c, CharClass::Just('_'), ok);
    lemma_drop_trailing_keeps(head, CharClass::Just('_'), ok);
    let tight = squeezed(trimmed(c, CharClass::Just('_')));
    lemma_squeezed_keeps(trimmed(c, CharClass::Just('_')), ok);
    lemma_squeezed_has_no_pair(trimmed(c, CharClass::Just('_')));
    let pair = seq!['_', '_'];
    lemma_ascii_takes_one_each(index_name());
    if encode_utf8(tight).len() > MAX_NAME_BYTES {
        lemma_fitting(tight, MAX_NAME_BYTES as int);
        let cut = tight.take(fitting(tight, MAX_NAME_BYTES as int));
        lemma_drop_trailing_is_prefix(cut, CharClass::Just('_'));
        lemma_beginning_takes_less(
            cut,
            drop_trailing(cut, CharClass::Just('_')).len() as int,
        );
        assert(all_chars(cut, ok)) by {
            assert forall|i: int| 0 <= i < cut.len() implies ok(#[trigger] cut[i]) by {
                assert(cut[i] == tight[i]);
            }
        }
        lemma_drop_trailing_keeps(cut, CharClass::Just('_'), ok);
        let kept = drop_trailing(cut, CharClass::Just('_'));
        lemma_drop_trailing_is_prefix(cut, CharClass::Just('_'));
        lemma_drop_trailing_end(cut, CharClass::Just('_'));
        if kept.len() > 0 {
            assert(kept[0] == tight[0]);
        }
        assert(kept =~= tight.take(kept.len() as int));
        if contains(kept, pair) {
            lemma_contains_in_longer(tight, pair, kept.len() as int);
        }
    }
    assert(all_chars(index_name(), ok));
    assert(!contains(index_name(), pair)) by {
        lemma_contains(index_name(), pair);
        if exists|i: int| matches_at(index_name(), pair, i) {
            let i = choose|i: int| matches_at(index_name(), pair, i);
            assert(index_name().subrange(i, i + 2)[0] == '_');
        }
    }
}

/// Filtering the parts goes part by part.
proof fn lemma_non_empty_push(before: Seq<Seq<char>>, part: Seq<char>, rest: Seq<Seq<char>>)
    ensures
        part.len() > 0 ==> before.push(part) + non_empty(rest) == before + non_empty(
            seq![part] + rest,
        ),
        part.len() == 0 ==> before + non_empty(rest) == before + non_empty(seq![part] + rest),
{
    let all = seq![part] + rest;
    assert(all.drop_first() =~= rest);
    assert(all[0] == part);
    if part.len() > 0 {
        assert(before.push(part) + non_empty(rest) =~= before + (seq![part] + non_empty(rest)));
    }
}

/// The non-empty pieces of `s[from..]` between occurrences of `sep`.
pub fn split_non_empty(s: &Vec<char>, sep: char, from: usize) -> (out: Vec<Vec<char>>)
    requires
        from <= s.len(),
    ensures
        views(out@) == non_empty(pieces(s@, sep, from as int)),
{
    let mut out: Vec<Vec<char>> = Vec::new();
    let mut start: usize = from;
    assert(views(out@) =~= Seq::<Seq<char>>::empty());
    loop
        invariant
            from <= start <= s.len(),
            views(out@) + non_empty(pieces(s@, sep, start as int)) == non_empty(
                pieces(s@, sep, from as int),
            ),
        decreases s.len() - start,
    {
        let ghost before = views(out@);
        proof {
            lemma_first_in(s@, CharClass::Just(sep), start as int);
        }
        match find_class(s, CharClass::Just(sep), start) {
            Some(k) => {
                let part = slice_of(s, start, k);
                proof {
                    lemma_non_empty_push(before, part@, pieces(s@, sep, k + 1));
                }
                if part.len() > 0 {
                    out.push(part);
                    assert(views(out@) =~= before.push(part@));
                }
                start = k + 1;
            },
            None => {
                let part = slice_of(s, start, s.len());
                proof {
                    lemma_non_empty_push(before, part@, Seq::empty());
                    assert(seq![part@] + Seq::<Seq<char>>::empty() =~= seq![part@]);
                    assert(non_empty(Seq::<Seq<char>>::empty()) =~= Seq::<Seq<char>>::empty());
                    assert(before + Seq::<Seq<char>>::empty() =~= before);
                    assert(before.push(part@) + Seq::<Seq<char>>::empty() =~= before.push(part@));
                }
                if part.len() > 0 {
                    out.push(part);
                    assert(views(out@) =~= before.push(part@));
                }
                return out;
            },
        }
    }
}

/// The non-empty segments of a URL path, joined by underscores.
pub fn joined_segments(path: &Vec<char>) -> (out: Vec<char>)
    ensures
        out@ == path_part(path@),
{
    if path.len() > 0 && path[0] == '/' {
        let segments = split_non_empty(path, '/', 1);
        let sep: Vec<char> = vec!['_'];
        assert(sep@ =~= seq!['_']);
        join_with(&segments, &sep)
    } else {
        Vec::new()
    }
}

/// `s` with each reserved character replaced by an underscore.
pub fn replace_reserved(s: &Vec<char>) -> (out: Vec<char>)
    ensures
        out@ == without_reserved(s@),
{
    let mut out: Vec<char> = Vec::new();
    let mut i: usize = 0;
    while i < s.len()
        invariant
            i <= s.len(),
            out@ == without_reserved(s@).take(i as int),
        decreases s.len() - i,
    {
        let c = s[i];
        let reserved = c == '/' || c == '\\' || c == ':' || c == '*' || c == '?' || c == '"' || c
            == '<' || c == '>' || c == '|';
        out.push(if reserved { '_' } else { c });
        assert(out@ =~= without_reserved(s@).take(i + 1));
        i += 1;
    }
    assert(without_reserved(s@).take(s.len() as int) =~= without_reserved(s@));
    out
}

/// `s` with each pair of underscores replaced by one, until no pair is left.
pub fn squeeze_underscores(s: Vec<char>) -> (out: Vec<char>)
    ensures
        out@ == squeezed(s@),
{
    let pair: Vec<char> = vec!['_', '_'];
    let one: Vec<char> = vec!['_'];
    assert(pair@ =~= seq!['_', '_']);
    assert(one@ =~= seq!['_']);
    let mut out = s;
    while find(&out, &pair, 0).is_some()
        invariant
            pair@ == seq!['_', '_'],
            one@ == seq!['_'],
            squeezed(out@) == squeezed(s@),
        decreases out.len(),
    {
        proof {
            lemma_replace_len(out@, pair@, one@, 0);
        }
        out = replace(&out, &pair, &one);
    }
    out
}

/// The bytes that a character takes in UTF-8.
pub fn char_width(c: char) -> (w: usize)
    ensures
        w == width(c),
        1 <= w <= 4,
{
    broadcast use vstd::utf8::char_is_scalar;

    let u: u32 = c as u32;
    assert(vstd::utf8::is_scalar(c as u32));
    if u <= 0x7F {
        1
    } else if u <= 0x7FF {
        2
    } else if u <= 0xFFFF {
        3
    } else {
        4
    }
}

/// The characters from the start of `s` that fit into `room` bytes.
pub fn fitting_chars(s: &Vec<char>, room: usize) -> (out: Vec<char>)
    ensures
        out@ == s@.take(fitting(s@, room as int)),
{
    let mut left: usize = room;
    let mut i: usize = 0;
    assert(s@.skip(0) =~= s@);
    while i < s.len() && char_width(s[i]) <= left
        invariant
            i <= s.len(),
            fitting(s@, room as int) == i + fitting(s@.skip(i as int), left as int),
        decreases s.len() - i,
    {
        proof {
            let rest = s@.skip(i as int);
            assert(rest[0] == s@[i as int]);
            assert(rest.drop_first() =~= s@.skip(i + 1));
        }
        left = left - char_width(s[i]);
        i += 1;
    }
    proof {
        let rest = s@.skip(i as int);
        if i < s.len() {
            assert(rest[0] == s@[i as int]);
        }
    }
    slice_of(s, 0, i)
}

/// The file name for the given host and path.
pub fn name_for(host: &Option<String>, path: &str) -> (out: String)
    ensures
        out@ == file_name_of(text_view(*host), path@),
{
    let mut name: Vec<char> = match host {
        Some(h) => chars_of(h.as_str()),
        None => {
            let unknown: Vec<char> = vec!['u', 'n', 'k', 'n', 'o', 'w', 'n', '_', 'h', 'o', 's', 't'];
            assert(unknown@ =~= unknown_host());
            unknown
        },
    };
    let segments = joined_segments(&chars_of(path));
    if segments.len() > 0 {
        name.push('_');
        append_chars(&mut name, &segments);
    }
    assert(name@ =~= raw_name(text_view(*host), path@));
    let name = replace_reserved(&name);
    let amp: Vec<char> = vec!['&'];
    let and: Vec<char> = vec!['_', 'a', 'n', 'd', '_'];
    let eq: Vec<char> = vec!['='];
    let eq_word: Vec<char> = vec!['_', 'e', 'q', '_'];
    let plus: Vec<char> = vec!['+'];
    let plus_word: Vec<char> = vec!['_', 'p', 'l', 'u', 's', '_'];
    assert(amp@ =~= seq!['&'] && and@ =~= seq!['_', 'a', 'n', 'd', '_']);
    assert(eq@ =~= seq!['='] && eq_word@ =~= seq!['_', 'e', 'q', '_']);
    assert(plus@ =~= seq!['+'] && plus_word@ =~= seq!['_', 'p', 'l', 'u', 's', '_']);
    let name = replace(&name, &amp, &and);
    let name = replace(&name, &eq, &eq_word);
    let name = replace(&name, &plus, &plus_word);
    let name = trim_class(&name, CharClass::Just('_'));
    let name = squeeze_underscores(name);
    let written = string_of(&name);
    let bytes: usize = written.as_str().as_bytes().len();
    let name = if bytes > MAX_NAME_BYTES {
        let head = fitting_chars(&name, MAX_NAME_BYTES);
        trim_end_class(&head, CharClass::Just('_'))
    } else {
        name
    };
    if name.len() == 0 {
        proof {
            reveal_strlit("index");
        }
        assert("index"@ =~= index_name());
        "index".to_owned()
    } else {
        string_of(&name)
    }
}

/// The file name under which the page or media file at `url` is stored.
pub fn url_to_filename(url: &WebUrl) -> (out: String)
    ensures
        out@ == file_name_of(url@.host, url@.path),
{
    name_for(&url.host, url.path.as_str())
}

} // verus!
