//! Trimming and replacing in sequences of characters.

use vstd::prelude::*;
use crate::text::{
    CharClass, append_chars, contains, find_from, is_space, lemma_contains, matches_at,
    matches_here, slice_of, space_char,
};

verus! {

/// `s` without its leading characters of `class`.
pub open spec fn skip_leading(s: Seq<char>, class: CharClass) -> Seq<char>
    decreases s.len(),
{
    if s.len() > 0 && class.has(s[0]) {
        skip_leading(s.drop_first(), class)
    } else {
        s
    }
}

/// `s` without its trailing characters of `class`.
pub open spec fn drop_trailing(s: Seq<char>, class: CharClass) -> Seq<char>
    decreases s.len(),
{
    if s.len() > 0 && class.has(s.last()) {
        drop_trailing(s.drop_last(), class)
    } else {
        s
    }
}

/// `s` without leading and trailing characters of `class`.
pub open spec fn trimmed(s: Seq<char>, class: CharClass) -> Seq<char> {
    drop_trailing(skip_leading(s, class), class)
}

/// `s` without leading and trailing white space.
pub open spec fn trim(s: Seq<char>) -> Seq<char> {
    trimmed(s, CharClass::Space)
}

/// A line is blank when nothing but white space stands in it.
pub open spec fn is_blank(s: Seq<char>) -> bool {
    trim(s).len() == 0
}

/// `hay` begins with `prefix`.
pub open spec fn starts_with(hay: Seq<char>, prefix: Seq<char>) -> bool {
    matches_at(hay, prefix, 0)
}

/// `hay` ends with `suffix`.
pub open spec fn ends_with(hay: Seq<char>, suffix: Seq<char>) -> bool {
    matches_at(hay, suffix, hay.len() - suffix.len())
}

/// `hay[from..]` with every occurrence of a non-empty `needle` replaced by
/// `rep`, leftmost first and without overlap.
pub open spec fn replace_from(hay: Seq<char>, needle: Seq<char>, rep: Seq<char>, from: int) -> Seq<
    char,
>
    decreases hay.len() - from,
{
    if from < 0 || from >= hay.len() || needle.len() == 0 {
        Seq::empty()
    } else if matches_at(hay, needle, from) {
        rep + replace_from(hay, needle, rep, from + needle.len())
    } else {
        seq![hay[from]] + replace_from(hay, needle, rep, from + 1)
    }
}

/// `hay` with every occurrence of `needle` replaced by `rep`, leftmost first
/// and without overlap. An empty `needle` occurs nowhere.
pub open spec fn replace_all(hay: Seq<char>, needle: Seq<char>, rep: Seq<char>) -> Seq<char> {
    if needle.len() == 0 {
        hay
    } else {
        replace_from(hay, needle, rep, 0)
    }
}

/// `s` without the characters at `from..to`.
pub open spec fn without(s: Seq<char>, from: int, to: int) -> Seq<char> {
    s.subrange(0, from) + s.subrange(to, s.len() as int)
}

/// Every character of `s` meets `ok`.
pub open spec fn all_chars(s: Seq<char>, ok: spec_fn(char) -> bool) -> bool {
    forall|i: int| 0 <= i < s.len() ==> ok(#[trigger] s[i])
}

/// Replacing keeps what holds of every character of the text and of the
/// replacement.
pub proof fn lemma_replace_from_keeps(
    hay: Seq<char>,
    needle: Seq<char>,
    rep: Seq<char>,
    from: int,
    ok: spec_fn(char) -> bool,
)
    requires
        all_chars(hay, ok),
        all_chars(rep, ok),
    ensures
        all_chars(replace_from(hay, needle, rep, from), ok),
    decreases hay.len() - from,
{
    if from < 0 || from >= hay.len() || needle.len() == 0 {
    } else if matches_at(hay, needle, from) {
        lemma_replace_from_keeps(hay, needle, rep, from + needle.len(), ok);
        let rest = replace_from(hay, needle, rep, from + needle.len());
        let out = rep + rest;
        assert forall|i: int| 0 <= i < out.len() implies ok(#[trigger] out[i]) by {
            if i < rep.len() {
                assert(out[i] == rep[i]);
            } else {
                assert(out[i] == rest[i - rep.len()]);
            }
        }
    } else {
        lemma_replace_from_keeps(hay, needle, rep, from + 1, ok);
        let rest = replace_from(hay, needle, rep, from + 1);
        let out = seq![hay[from]] + rest;
        assert forall|i: int| 0 <= i < out.len() implies ok(#[trigger] out[i]) by {
            if i > 0 {
                assert(out[i] == rest[i - 1]);
            }
        }
    }
}

/// Replacing keeps what holds of every character of the text and of the
/// replacement.
pub proof fn lemma_replace_keeps(
    hay: Seq<char>,
    needle: Seq<char>,
    rep: Seq<char>,
    ok: spec_fn(char) -> bool,
)
    requires
        all_chars(hay, ok),
        all_chars(rep, ok),
    ensures
        all_chars(replace_all(hay, needle, rep), ok),
{
    lemma_replace_from_keeps(hay, needle, rep, 0, ok);
}

/// Replacing a character removes it: what held of the text's other
/// characters and holds of the replacement holds of every character then.
pub proof fn lemma_replace_char_gone(
    hay: Seq<char>,
    c: char,
    rep: Seq<char>,
    from: int,
    before: spec_fn(char) -> bool,
    after: spec_fn(char) -> bool,
)
    requires
        all_chars(hay, before),
        all_chars(rep, after),
        forall|x: char| #[trigger] before(x) && x != c ==> after(x),
    ensures
        all_chars(replace_from(hay, seq![c], rep, from), after),
        from == 0 ==> all_chars(replace_all(hay, seq![c], rep), after),
    decreases hay.len() - from,
{
    let needle = seq![c];
    if from < 0 || from >= hay.len() {
    } else if matches_at(hay, needle, from) {
        lemma_replace_char_gone(hay, c, rep, from + 1, before, after);
        let rest = replace_from(hay, needle, rep, from + 1);
        let out = rep + rest;
        assert forall|i: int| 0 <= i < out.len() implies after(#[trigger] out[i]) by {
            if i < rep.len() {
                assert(out[i] == rep[i]);
            } else {
                assert(out[i] == rest[i - rep.len()]);
            }
        }
    } else {
        lemma_replace_char_gone(hay, c, rep, from + 1, before, after);
        let rest = replace_from(hay, needle, rep, from + 1);
        let out = seq![hay[from]] + rest;
        if hay[from] == c {
            assert(hay.subrange(from, from + 1) =~= needle);
        }
        assert(before(hay[from]));
        assert forall|i: int| 0 <= i < out.len() implies after(#[trigger] out[i]) by {
            if i > 0 {
                assert(out[i] == rest[i - 1]);
            }
        }
    }
}

/// Replacing pairs of a character by one leaves the ends of a text that
/// neither begins nor ends with that character as they are.
pub proof fn lemma_halving_keeps_ends(hay: Seq<char>, c: char, from: int)
    requires
        0 <= from < hay.len(),
        hay.last() != c,
    ensures
        replace_from(hay, seq![c, c], seq![c], from).len() > 0,
        replace_from(hay, seq![c, c], seq![c], from).last() == hay.last(),
        hay[from] != c ==> replace_from(hay, seq![c, c], seq![c], from)[0] == hay[from],
    decreases hay.len() - from,
{
    let pair = seq![c, c];
    if matches_at(hay, pair, from) {
        assert(hay.subrange(from, from + 2)[0] == hay[from]);
        assert(hay.subrange(from, from + 2)[1] == hay[from + 1]);
        lemma_halving_keeps_ends(hay, c, from + 2);
    } else if from + 1 < hay.len() {
        lemma_halving_keeps_ends(hay, c, from + 1);
    } else {
        assert(replace_from(hay, pair, seq![c], from + 1) =~= Seq::<char>::empty());
    }
}

/// Dropping characters at the start keeps what holds of every character.
pub proof fn lemma_skip_leading_keeps(s: Seq<char>, class: CharClass, ok: spec_fn(char) -> bool)
    requires
        all_chars(s, ok),
    ensures
        all_chars(skip_leading(s, class), ok),
    decreases s.len(),
{
    if s.len() > 0 && class.has(s[0]) {
        assert forall|i: int| 0 <= i < s.drop_first().len() implies ok(
            #[trigger] s.drop_first()[i],
        ) by {
            assert(s.drop_first()[i] == s[i + 1]);
        }
        lemma_skip_leading_keeps(s.drop_first(), class, ok);
    }
}

/// What is left when characters are dropped at the start is an end of
/// the text, and does not begin with a character of the class.
pub proof fn lemma_skip_leading(s: Seq<char>, class: CharClass)
    ensures
        skip_leading(s, class).len() <= s.len(),
        skip_leading(s, class) == s.skip(s.len() - skip_leading(s, class).len()),
        skip_leading(s, class).len() > 0 ==> !class.has(skip_leading(s, class)[0]),
    decreases s.len(),
{
    if s.len() > 0 && class.has(s[0]) {
        lemma_skip_leading(s.drop_first(), class);
        let k = s.len() - skip_leading(s, class).len();
        assert(s.drop_first().skip(k - 1) =~= s.skip(k));
    } else {
        assert(s.skip(0) =~= s);
    }
}

/// What is left when characters are dropped at the end does not end with
/// a character of the class.
pub proof fn lemma_drop_trailing_end(s: Seq<char>, class: CharClass)
    ensures
        drop_trailing(s, class).len() > 0 ==> !class.has(drop_trailing(s, class).last()),
    decreases s.len(),
{
    if s.len() > 0 && class.has(s.last()) {
        lemma_drop_trailing_end(s.drop_last(), class);
    }
}

/// A trimmed text is a part of the text, and neither begins nor ends with
/// a character of the class.
pub proof fn lemma_trimmed(s: Seq<char>, class: CharClass)
    ensures
        ({
            let t = trimmed(s, class);
            let a = s.len() - skip_leading(s, class).len();
            &&& 0 <= a <= a + t.len() <= s.len()
            &&& t == s.subrange(a, a + t.len())
            &&& t.len() > 0 ==> !class.has(t[0]) && !class.has(t.last())
        }),
{
    let head = skip_leading(s, class);
    let t = trimmed(s, class);
    lemma_skip_leading(s, class);
    lemma_drop_trailing_is_prefix(head, class);
    lemma_drop_trailing_end(head, class);
    let a = s.len() - head.len();
    assert(t =~= s.subrange(a, a + t.len()));
    if t.len() > 0 {
        assert(t[0] == head[0]);
    }
}

/// No occurrence of `needle` in `text` overlaps an occurrence of `part`.
pub open spec fn clear_of(text: Seq<char>, part: Seq<char>, needle: Seq<char>) -> bool {
    forall|j: int, k: int|
        #![trigger matches_at(text, needle, j), matches_at(text, part, k)]
        matches_at(text, needle, j) && matches_at(text, part, k) ==> j + needle.len() <= k || k
            + part.len() <= j
}

/// What stands at `at` in a text stands behind whatever is put before the
/// text.
pub proof fn lemma_matches_behind(before: Seq<char>, text: Seq<char>, part: Seq<char>, at: int)
    requires
        matches_at(text, part, at),
    ensures
        matches_at(before + text, part, before.len() + at),
{
    assert((before + text).subrange(before.len() + at, before.len() + at + part.len())
        =~= text.subrange(at, at + part.len()));
}

/// Through an occurrence of `part` that no occurrence of the needle
/// overlaps, replacing copies the text.
proof fn lemma_replace_copies(
    hay: Seq<char>,
    needle: Seq<char>,
    rep: Seq<char>,
    part: Seq<char>,
    k: int,
    i: int,
)
    requires
        needle.len() > 0,
        matches_at(hay, part, k),
        0 <= i <= part.len(),
        forall|j: int| #[trigger]
            matches_at(hay, needle, j) ==> j + needle.len() <= k || k + part.len() <= j,
    ensures
        replace_from(hay, needle, rep, k + i) == part.subrange(i, part.len() as int)
            + replace_from(hay, needle, rep, k + part.len()),
    decreases part.len() - i,
{
    let rest = replace_from(hay, needle, rep, k + part.len());
    if i == part.len() {
        assert(part.subrange(i, part.len() as int) + rest =~= rest);
    } else {
        assert(!matches_at(hay, needle, k + i));
        lemma_replace_copies(hay, needle, rep, part, k, i + 1);
        assert(hay.subrange(k, k + part.len())[i] == hay[k + i]);
        assert(seq![hay[k + i]] + (part.subrange(i + 1, part.len() as int) + rest)
            =~= part.subrange(i, part.len() as int) + rest);
    }
}

/// A part of the text that no occurrence of the needle overlaps stands in
/// what replacing leaves of the text from `from` on.
proof fn lemma_replace_from_spares(
    hay: Seq<char>,
    needle: Seq<char>,
    rep: Seq<char>,
    part: Seq<char>,
    k: int,
    from: int,
)
    requires
        needle.len() > 0,
        matches_at(hay, part, k),
        0 <= from <= k,
        forall|j: int| #[trigger]
            matches_at(hay, needle, j) ==> j + needle.len() <= k || k + part.len() <= j,
    ensures
        exists|at: int| matches_at(replace_from(hay, needle, rep, from), part, at),
    decreases k - from,
{
    if from == k {
        lemma_replace_copies(hay, needle, rep, part, k, 0);
        let rest = replace_from(hay, needle, rep, k + part.len());
        assert(part.subrange(0, part.len() as int) =~= part);
        assert((part + rest).subrange(0, part.len() as int) =~= part);
        assert(matches_at(replace_from(hay, needle, rep, from), part, 0));
    } else if matches_at(hay, needle, from) {
        lemma_replace_from_spares(hay, needle, rep, part, k, from + needle.len());
        let rest = replace_from(hay, needle, rep, from + needle.len());
        let at = choose|at: int| matches_at(rest, part, at);
        lemma_matches_behind(rep, rest, part, at);
        assert(replace_from(hay, needle, rep, from) == rep + rest);
        assert(matches_at(replace_from(hay, needle, rep, from), part, rep.len() + at));
    } else {
        lemma_replace_from_spares(hay, needle, rep, part, k, from + 1);
        let rest = replace_from(hay, needle, rep, from + 1);
        let at = choose|at: int| matches_at(rest, part, at);
        lemma_matches_behind(seq![hay[from]], rest, part, at);
        assert(replace_from(hay, needle, rep, from) == seq![hay[from]] + rest);
        assert(matches_at(replace_from(hay, needle, rep, from), part, 1 + at));
    }
}

/// A part of the text that no occurrence of the needle overlaps is still
/// there, as written, after the needle is replaced.
pub proof fn lemma_replace_spares(
    hay: Seq<char>,
    needle: Seq<char>,
    rep: Seq<char>,
    part: Seq<char>,
)
    requires
        contains(hay, part),
        clear_of(hay, part, needle),
    ensures
        contains(replace_all(hay, needle, rep), part),
{
    if needle.len() > 0 {
        lemma_contains(hay, part);
        let k = choose|k: int| matches_at(hay, part, k);
        assert forall|j: int| #[trigger] matches_at(hay, needle, j) implies j + needle.len() <= k
            || k + part.len() <= j by {
            assert(matches_at(hay, part, k));
        }
        lemma_replace_from_spares(hay, needle, rep, part, k, 0);
        lemma_contains(replace_all(hay, needle, rep), part);
    }
}

/// `s[from..]` with each run of white space reduced to one space; `seen`
/// tells that white space stands right before `from`.
pub open spec fn collapsed_from(s: Seq<char>, from: int, seen: bool) -> Seq<char>
    decreases s.len() - from,
{
    if from < 0 || from >= s.len() {
        Seq::empty()
    } else if is_space(s[from]) {
        if seen {
            collapsed_from(s, from + 1, true)
        } else {
            seq![' '] + collapsed_from(s, from + 1, true)
        }
    } else {
        seq![s[from]] + collapsed_from(s, from + 1, false)
    }
}

/// `s` with each run of white space reduced to one space.
pub open spec fn collapsed(s: Seq<char>) -> Seq<char> {
    collapsed_from(s, 0, false)
}

/// No white space follows white space in `s`.
pub open spec fn single_spaced(s: Seq<char>) -> bool {
    forall|i: int| 0 <= i < s.len() - 1 ==> !(is_space(#[trigger] s[i]) && is_space(s[i + 1]))
}

/// In a collapsed text no white space follows white space.
pub proof fn lemma_collapsed(s: Seq<char>, from: int, seen: bool)
    requires
        0 <= from,
    ensures
        single_spaced(collapsed_from(s, from, seen)),
        seen && collapsed_from(s, from, seen).len() > 0 ==> !is_space(
            collapsed_from(s, from, seen)[0],
        ),
    decreases s.len() - from,
{
    if from < s.len() {
        let out = collapsed_from(s, from, seen);
        if is_space(s[from]) {
            lemma_collapsed(s, from + 1, true);
            if !seen {
                let rest = collapsed_from(s, from + 1, true);
                assert forall|i: int| 0 <= i < out.len() - 1 implies !(is_space(#[trigger] out[i])
                    && is_space(out[i + 1])) by {
                    if i > 0 {
                        assert(out[i] == rest[i - 1] && out[i + 1] == rest[i]);
                    } else {
                        assert(out[1] == rest[0]);
                    }
                }
            }
        } else {
            lemma_collapsed(s, from + 1, false);
            let rest = collapsed_from(s, from + 1, false);
            assert forall|i: int| 0 <= i < out.len() - 1 implies !(is_space(#[trigger] out[i])
                && is_space(out[i + 1])) by {
                if i > 0 {
                    assert(out[i] == rest[i - 1] && out[i + 1] == rest[i]);
                }
            }
        }
    }
}

/// A part of a text in which no white space follows white space is such a
/// text.
pub proof fn lemma_part_single_spaced(s: Seq<char>, a: int, b: int)
    requires
        0 <= a <= b <= s.len(),
        single_spaced(s),
    ensures
        single_spaced(s.subrange(a, b)),
{
    let part = s.subrange(a, b);
    assert forall|i: int| 0 <= i < part.len() - 1 implies !(is_space(#[trigger] part[i])
        && is_space(part[i + 1])) by {
        assert(part[i] == s[a + i] && part[i + 1] == s[a + i + 1]);
    }
}

/// `s` with each run of white space reduced to one space.
pub fn collapse(s: &Vec<char>) -> (out: Vec<char>)
    ensures
        out@ == collapsed(s@),
{
    let mut out: Vec<char> = Vec::new();
    let mut seen = false;
    let mut i: usize = 0;
    while i < s.len()
        invariant
            i <= s.len(),
            out@ + collapsed_from(s@, i as int, seen) == collapsed(s@),
        decreases s.len() - i,
    {
        let ghost before = out@;
        let ghost rest = collapsed_from(s@, i + 1, is_space(s@[i as int]));
        if space_char(s[i]) {
            if !seen {
                out.push(' ');
                assert(before.push(' ') + rest =~= before + (seq![' '] + rest));
            }
            seen = true;
        } else {
            out.push(s[i]);
            assert(before.push(s@[i as int]) + rest =~= before + (seq![s@[i as int]] + rest));
            seen = false;
        }
        i += 1;
    }
    assert(out@ + Seq::<char>::empty() =~= out@);
    out
}

/// What is left when characters are dropped at the end is a beginning of
/// the text.
pub proof fn lemma_drop_trailing_is_prefix(s: Seq<char>, class: CharClass)
    ensures
        drop_trailing(s, class).len() <= s.len(),
        drop_trailing(s, class) == s.take(drop_trailing(s, class).len() as int),
    decreases s.len(),
{
    if s.len() > 0 && class.has(s.last()) {
        lemma_drop_trailing_is_prefix(s.drop_last(), class);
        let k = drop_trailing(s, class).len() as int;
        assert(s.drop_last().take(k) =~= s.take(k));
    } else {
        assert(s.take(s.len() as int) =~= s);
    }
}

/// Dropping characters at the end keeps what holds of every character.
pub proof fn lemma_drop_trailing_keeps(s: Seq<char>, class: CharClass, ok: spec_fn(char) -> bool)
    requires
        all_chars(s, ok),
    ensures
        all_chars(drop_trailing(s, class), ok),
    decreases s.len(),
{
    if s.len() > 0 && class.has(s.last()) {
        assert forall|i: int| 0 <= i < s.drop_last().len() implies ok(
            #[trigger] s.drop_last()[i],
        ) by {
            assert(s.drop_last()[i] == s[i]);
        }
        lemma_drop_trailing_keeps(s.drop_last(), class, ok);
    }
}

/// A replacement no longer than the needle never lengthens the text, and
/// shortens it when the needle occurs and the replacement is shorter.
pub proof fn lemma_replace_len(hay: Seq<char>, needle: Seq<char>, rep: Seq<char>, from: int)
    requires
        0 <= from <= hay.len(),
        needle.len() > 0,
        rep.len() <= needle.len(),
    ensures
        replace_from(hay, needle, rep, from).len() <= hay.len() - from,
        rep.len() < needle.len() && find_from(hay, needle, from) is Some ==> replace_from(
            hay,
            needle,
            rep,
            from,
        ).len() < hay.len() - from,
    decreases hay.len() - from,
{
    if from >= hay.len() {
        assert(!matches_at(hay, needle, from));
        assert(find_from(hay, needle, from) is None);
    } else if matches_at(hay, needle, from) {
        lemma_replace_len(hay, needle, rep, from + needle.len());
    } else {
        lemma_replace_len(hay, needle, rep, from + 1);
    }
}

/// `s` without its leading characters of `class`.
pub fn trim_start_class(s: &Vec<char>, class: CharClass) -> (out: Vec<char>)
    ensures
        out@ == skip_leading(s@, class),
{
    let mut i: usize = 0;
    assert(s@.subrange(0, s.len() as int) =~= s@);
    while i < s.len() && class.holds(s[i])
        invariant
            i <= s.len(),
            skip_leading(s@, class) == skip_leading(s@.subrange(i as int, s.len() as int), class),
        decreases s.len() - i,
    {
        proof {
            let cur = s@.subrange(i as int, s.len() as int);
            assert(cur[0] == s@[i as int]);
            assert(cur.drop_first() =~= s@.subrange(i + 1, s.len() as int));
        }
        i += 1;
    }
    proof {
        let cur = s@.subrange(i as int, s.len() as int);
        if i < s.len() {
            assert(cur[0] == s@[i as int]);
        }
    }
    slice_of(s, i, s.len())
}

/// `s` without its trailing characters of `class`.
pub fn trim_end_class(s: &Vec<char>, class: CharClass) -> (out: Vec<char>)
    ensures
        out@ == drop_trailing(s@, class),
{
    let mut n: usize = s.len();
    assert(s@.subrange(0, s.len() as int) =~= s@);
    while n > 0 && class.holds(s[n - 1])
        invariant
            n <= s.len(),
            drop_trailing(s@, class) == drop_trailing(s@.subrange(0, n as int), class),
        decreases n,
    {
        proof {
            let cur = s@.subrange(0, n as int);
            assert(cur.last() == s@[n - 1]);
            assert(cur.drop_last() =~= s@.subrange(0, n - 1));
        }
        n -= 1;
    }
    proof {
        let cur = s@.subrange(0, n as int);
        if n > 0 {
            assert(cur.last() == s@[n - 1]);
        }
    }
    slice_of(s, 0, n)
}

/// `s` without leading and trailing characters of `class`.
pub fn trim_class(s: &Vec<char>, class: CharClass) -> (out: Vec<char>)
    ensures
        out@ == trimmed(s@, class),
{
    let head = trim_start_class(s, class);
    trim_end_class(&head, class)
}

/// Whether nothing but white space stands in `s`.
pub fn blank(s: &Vec<char>) -> (b: bool)
    ensures
        b == is_blank(s@),
{
    trim_class(s, CharClass::Space).len() == 0
}

/// Whether `hay` ends with `suffix`.
pub fn has_suffix(hay: &Vec<char>, suffix: &Vec<char>) -> (b: bool)
    ensures
        b == ends_with(hay@, suffix@),
{
    if suffix.len() > hay.len() {
        return false;
    }
    matches_here(hay, suffix, hay.len() - suffix.len())
}

/// `hay` with every occurrence of `needle` replaced by `rep`.
pub fn replace(hay: &Vec<char>, needle: &Vec<char>, rep: &Vec<char>) -> (out: Vec<char>)
    ensures
        out@ == replace_all(hay@, needle@, rep@),
{
    if needle.len() == 0 {
        return hay.clone();
    }
    let mut out: Vec<char> = Vec::new();
    let mut i: usize = 0;
    while i < hay.len()
        invariant
            i <= hay.len(),
            needle.len() > 0,
            out@ + replace_from(hay@, needle@, rep@, i as int) == replace_from(
                hay@,
                needle@,
                rep@,
                0,
            ),
        decreases hay.len() - i,
    {
        let ghost before = out@;
        if matches_here(hay, needle, i) {
            append_chars(&mut out, rep);
            proof {
                let rest = replace_from(hay@, needle@, rep@, i + needle.len());
                assert((before + rep@) + rest =~= before + (rep@ + rest));
            }
            i += needle.len();
        } else {
            out.push(hay[i]);
            proof {
                let rest = replace_from(hay@, needle@, rep@, i + 1);
                assert(before.push(hay@[i as int]) + rest =~= before + (seq![hay@[i as int]]
                    + rest));
            }
            i += 1;
        }
    }
    assert(out@ + Seq::<char>::empty() =~= out@);
    out
}

/// `s` without the characters at `from..to`.
pub fn cut(s: &Vec<char>, from: usize, to: usize) -> (out: Vec<char>)
    requires
        from <= to <= s.len(),
    ensures
        out@ == without(s@, from as int, to as int),
{
    let mut out = slice_of(s, 0, from);
    let tail = slice_of(s, to, s.len());
    append_chars(&mut out, &tail);
    out
}

} // verus!
