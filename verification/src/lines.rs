//! Splitting text into lines and joining lines again.

use vstd::prelude::*;
use crate::text::{
    CharClass, append_chars, find_class, first_in, lemma_first_in, lemma_first_in_prefix,
    lemma_first_in_shift, slice_of,
};

verus! {

/// The character sequences that a vector of texts holds.
pub open spec fn views(v: Seq<Vec<char>>) -> Seq<Seq<char>> {
    Seq::new(v.len(), |i: int| v[i]@)
}

/// `line` without one trailing carriage return.
pub open spec fn strip_cr(line: Seq<char>) -> Seq<char> {
    if line.len() > 0 && line.last() == '\r' {
        line.drop_last()
    } else {
        line
    }
}

/// The lines of `s[from..]`. A line ends at a line feed, which is left out
/// together with a carriage return before it; text after the last line feed
/// is a line of its own, unless it is empty.
pub open spec fn lines_from(s: Seq<char>, from: int) -> Seq<Seq<char>>
    decreases s.len() - from,
{
    if from < 0 || from >= s.len() {
        Seq::empty()
    } else {
        match first_in(s, CharClass::Just('\n'), from) {
            Some(nl) => if from <= nl < s.len() {
                seq![strip_cr(s.subrange(from, nl))] + lines_from(s, nl + 1)
            } else {
                Seq::empty()
            },
            None => seq![s.subrange(from, s.len() as int)],
        }
    }
}

/// The lines of `s`.
pub open spec fn lines(s: Seq<char>) -> Seq<Seq<char>> {
    lines_from(s, 0)
}

/// The parts in order, with `sep` between each two neighbours.
pub open spec fn join(parts: Seq<Seq<char>>, sep: Seq<char>) -> Seq<char>
    decreases parts.len(),
{
    if parts.len() == 0 {
        Seq::empty()
    } else if parts.len() == 1 {
        parts[0]
    } else {
        join(parts.drop_last(), sep) + sep + parts.last()
    }
}

/// No line feed stands in `s`.
pub open spec fn no_line_feed(s: Seq<char>) -> bool {
    forall|i: int| 0 <= i < s.len() ==> s[i] != '\n'
}

/// The text ends with a line feed, or is empty.
pub open spec fn ends_lines(s: Seq<char>) -> bool {
    s.len() == 0 || s.last() == '\n'
}

/// The lines from a place in the second of two joined texts are the lines
/// of the second from that place.
pub proof fn lemma_lines_from_shift(a: Seq<char>, b: Seq<char>, k: int)
    requires
        0 <= k,
    ensures
        lines_from(a + b, a.len() + k) == lines_from(b, k),
    decreases b.len() - k,
{
    let all = a + b;
    if k < b.len() {
        lemma_first_in_shift(a, b, CharClass::Just('\n'), k);
        lemma_first_in(b, CharClass::Just('\n'), k);
        match first_in(b, CharClass::Just('\n'), k) {
            Some(nl) => {
                assert(all.subrange(a.len() + k, a.len() + nl) =~= b.subrange(k, nl));
                lemma_lines_from_shift(a, b, nl + 1);
            },
            None => {
                assert(all.subrange(a.len() + k, all.len() as int) =~= b.subrange(
                    k,
                    b.len() as int,
                ));
            },
        }
    }
}

/// Behind a text that ends with a line feed, the lines of what follows
/// come after its own, from wherever in it the lines are read.
pub proof fn lemma_lines_from_concat(a: Seq<char>, b: Seq<char>, from: int)
    requires
        ends_lines(a),
        0 <= from <= a.len(),
    ensures
        lines_from(a + b, from) == lines_from(a, from) + lines(b),
    decreases a.len() - from,
{
    let all = a + b;
    if from == a.len() {
        lemma_lines_from_shift(a, b, 0);
        assert(lines_from(a, from) =~= Seq::<Seq<char>>::empty());
        assert(Seq::<Seq<char>>::empty() + lines(b) =~= lines(b));
    } else {
        lemma_first_in(a, CharClass::Just('\n'), from);
        assert(a[a.len() - 1] == '\n');
        lemma_first_in_prefix(a, b, CharClass::Just('\n'), from);
        let nl = first_in(a, CharClass::Just('\n'), from)->0;
        assert(all.subrange(from, nl) =~= a.subrange(from, nl));
        lemma_lines_from_concat(a, b, nl + 1);
        let line = strip_cr(a.subrange(from, nl));
        assert(seq![line] + (lines_from(a, nl + 1) + lines(b)) =~= (seq![line] + lines_from(
            a,
            nl + 1,
        )) + lines(b));
    }
}

/// Behind a text that ends with a line feed, the lines of what follows
/// come after its own.
pub proof fn lemma_lines_concat(a: Seq<char>, b: Seq<char>)
    requires
        ends_lines(a),
    ensures
        lines(a + b) == lines(a) + lines(b),
{
    lemma_lines_from_concat(a, b, 0);
}

/// A text without line feed, ended by one, is one line: the text without
/// a carriage return at its end.
pub proof fn lemma_lines_of_one(x: Seq<char>)
    requires
        no_line_feed(x),
    ensures
        lines(x + seq!['\n']) == seq![strip_cr(x)],
{
    let all = x + seq!['\n'];
    lemma_first_in(all, CharClass::Just('\n'), 0);
    assert(all[x.len() as int] == '\n');
    match first_in(all, CharClass::Just('\n'), 0) {
        Some(nl) => {
            if nl < x.len() {
                assert(all[nl] == x[nl]);
            }
            assert(nl == x.len());
            assert(all.subrange(0, nl) =~= x);
            assert(lines_from(all, nl + 1) =~= Seq::<Seq<char>>::empty());
            assert(seq![strip_cr(x)] + Seq::<Seq<char>>::empty() =~= seq![strip_cr(x)]);
        },
        None => {},
    }
}

/// No line of a text holds a line feed.
pub proof fn lemma_lines_have_no_line_feed(s: Seq<char>, from: int)
    requires
        0 <= from,
    ensures
        forall|i: int| 0 <= i < lines_from(s, from).len() ==> no_line_feed(#[trigger] lines_from(s, from)[i]),
    decreases s.len() - from,
{
    if from < s.len() {
        lemma_first_in(s, CharClass::Just('\n'), from);
        match first_in(s, CharClass::Just('\n'), from) {
            Some(nl) => {
                lemma_lines_have_no_line_feed(s, nl + 1);
                let raw = s.subrange(from, nl);
                let line = strip_cr(raw);
                assert(no_line_feed(raw)) by {
                    assert forall|i: int| 0 <= i < raw.len() implies raw[i] != '\n' by {
                        assert(raw[i] == s[from + i]);
                    }
                }
                assert(no_line_feed(line)) by {
                    assert forall|i: int| 0 <= i < line.len() implies line[i] != '\n' by {
                        assert(line[i] == raw[i]);
                    }
                }
                let all = lines_from(s, from);
                let rest = lines_from(s, nl + 1);
                assert forall|i: int| 0 <= i < all.len() implies no_line_feed(#[trigger] all[i]) by {
                    if i > 0 {
                        assert(all[i] == rest[i - 1]);
                    }
                }
            },
            None => {
                let raw = s.subrange(from, s.len() as int);
                assert(no_line_feed(raw)) by {
                    assert forall|i: int| 0 <= i < raw.len() implies raw[i] != '\n' by {
                        assert(raw[i] == s[from + i]);
                    }
                }
            },
        }
    }
}

/// The lines of `s`.
pub fn split_lines(s: &Vec<char>) -> (out: Vec<Vec<char>>)
    ensures
        views(out@) == lines(s@),
{
    let mut out: Vec<Vec<char>> = Vec::new();
    let mut from: usize = 0;
    assert(views(out@) =~= Seq::<Seq<char>>::empty());
    while from < s.len()
        invariant
            from <= s.len(),
            views(out@) + lines_from(s@, from as int) == lines(s@),
        decreases s.len() - from,
    {
        let ghost before = views(out@);
        proof {
            lemma_first_in(s@, CharClass::Just('\n'), from as int);
        }
        match find_class(s, CharClass::Just('\n'), from) {
            Some(nl) => {
                let mut end: usize = nl;
                if end > from && s[end - 1] == '\r' {
                    end -= 1;
                }
                let line = slice_of(s, from, end);
                proof {
                    let raw = s@.subrange(from as int, nl as int);
                    if raw.len() > 0 {
                        assert(raw.last() == s@[nl - 1]);
                    }
                    assert(raw.len() > 0 && raw.last() == '\r' ==> raw.drop_last() =~= s@.subrange(
                        from as int,
                        end as int,
                    ));
                    assert(line@ == strip_cr(raw));
                }
                out.push(line);
                proof {
                    let rest = lines_from(s@, nl + 1);
                    assert(views(out@) =~= before.push(line@));
                    assert(before.push(line@) + rest =~= before + (seq![line@] + rest));
                }
                from = nl + 1;
            },
            None => {
                let line = slice_of(s, from, s.len());
                out.push(line);
                proof {
                    assert(views(out@) =~= before.push(line@));
                    assert(before.push(line@) =~= before + seq![line@]);
                    assert(lines_from(s@, s.len() as int) =~= Seq::<Seq<char>>::empty());
                    assert(views(out@) + lines_from(s@, s.len() as int) =~= views(out@));
                }
                from = s.len();
            },
        }
    }
    assert(views(out@) + Seq::<Seq<char>>::empty() =~= views(out@));
    out
}

/// The parts in order, with `sep` between each two neighbours.
pub fn join_with(parts: &Vec<Vec<char>>, sep: &Vec<char>) -> (out: Vec<char>)
    ensures
        out@ == join(views(parts@), sep@),
{
    let mut out: Vec<char> = Vec::new();
    let mut i: usize = 0;
    assert(views(parts@).take(0) =~= Seq::<Seq<char>>::empty());
    while i < parts.len()
        invariant
            i <= parts.len(),
            out@ == join(views(parts@).take(i as int), sep@),
        decreases parts.len() - i,
    {
        proof {
            let next = views(parts@).take(i + 1);
            assert(next.drop_last() =~= views(parts@).take(i as int));
            assert(next.last() == parts@[i as int]@);
            if i == 0 {
                assert(out@ =~= Seq::<char>::empty());
            }
        }
        if i > 0 {
            append_chars(&mut out, sep);
        }
        append_chars(&mut out, &parts[i]);
        proof {
            if i == 0 {
                assert(Seq::<char>::empty() + parts@[0]@ =~= parts@[0]@);
            }
        }
        i += 1;
    }
    assert(views(parts@).take(parts.len() as int) =~= views(parts@));
    out
}

} // verus!
