//! Text as sequences of characters: searching, trimming, replacing and
//! splitting into lines.

use vstd::prelude::*;

verus! {

/// `String::push` appends the character to the end of the string.
pub assume_specification[ String::push ](s: &mut String, c: char)
    ensures
        final(s)@ == old(s)@.push(c),
;

/// The characters of `s`, in order.
pub fn chars_of(s: &str) -> (out: Vec<char>)
    ensures
        out@ == s@,
{
    let mut out: Vec<char> = Vec::new();
    for c in it: s.chars()
        invariant
            it.seq() == s@,
            out@ == s@.take(it.index()),
    {
        out.push(c);
    }
    out
}

/// The string whose characters are `v`, in order.
pub fn string_of(v: &Vec<char>) -> (out: String)
    ensures
        out@ == v@,
{
    let mut out = String::new();
    let mut i: usize = 0;
    while i < v.len()
        invariant
            i <= v.len(),
            out@ == v@.take(i as int),
        decreases v.len() - i,
    {
        out.push(v[i]);
        i += 1;
    }
    out
}

/// A copy of `v[from..to]`.
pub fn slice_of(v: &Vec<char>, from: usize, to: usize) -> (out: Vec<char>)
    requires
        from <= to <= v.len(),
    ensures
        out@ == v@.subrange(from as int, to as int),
{
    let mut out: Vec<char> = Vec::new();
    let mut i: usize = from;
    while i < to
        invariant
            from <= i <= to <= v.len(),
            out@ == v@.subrange(from as int, i as int),
        decreases to - i,
    {
        out.push(v[i]);
        i += 1;
    }
    out
}

/// Appends the characters of `tail` to `out`.
pub fn append_chars(out: &mut Vec<char>, tail: &Vec<char>)
    ensures
        final(out)@ == old(out)@ + tail@,
{
    let mut i: usize = 0;
    while i < tail.len()
        invariant
            i <= tail.len(),
            out@ == old(out)@ + tail@.take(i as int),
        decreases tail.len() - i,
    {
        out.push(tail[i]);
        i += 1;
    }
    assert(tail@.take(tail.len() as int) == tail@);
}

/// Whether `a` and `b` hold the same characters.
pub fn same_chars(a: &Vec<char>, b: &Vec<char>) -> (r: bool)
    ensures
        r == (a@ == b@),
{
    if a.len() != b.len() {
        return false;
    }
    let mut i: usize = 0;
    while i < a.len()
        invariant
            i <= a.len(),
            a.len() == b.len(),
            forall|j: int| 0 <= j < i ==> a@[j] == b@[j],
        decreases a.len() - i,
    {
        if a[i] != b[i] {
            return false;
        }
        i += 1;
    }
    assert(a@ =~= b@);
    true
}

/// Whether `a` and `b` are the same text.
pub fn same_text(a: &str, b: &str) -> (r: bool)
    ensures
        r == (a@ == b@),
{
    let x = chars_of(a);
    let y = chars_of(b);
    same_chars(&x, &y)
}

/// White space as Unicode defines it (the property `White_Space`).
pub open spec fn is_space(c: char) -> bool {
    let u = c as u32;
    ||| 0x09 <= u <= 0x0d
    ||| u == 0x20
    ||| u == 0x85
    ||| u == 0xa0
    ||| u == 0x1680
    ||| 0x2000 <= u <= 0x200a
    ||| u == 0x2028
    ||| u == 0x2029
    ||| u == 0x202f
    ||| u == 0x205f
    ||| u == 0x3000
}

/// The lower-case form of an ASCII capital; any other character itself.
pub open spec fn lower(c: char) -> char {
    if 'A' <= c && c <= 'Z' {
        ((c as u8) + 32) as char
    } else {
        c
    }
}

/// `s` with its ASCII capitals in lower case.
pub open spec fn lowered(s: Seq<char>) -> Seq<char> {
    Seq::new(s.len(), |i: int| lower(s[i]))
}

/// `s` with its ASCII capitals in lower case.
pub fn to_lower(s: &Vec<char>) -> (out: Vec<char>)
    ensures
        out@ == lowered(s@),
{
    let mut out: Vec<char> = Vec::new();
    let mut i: usize = 0;
    while i < s.len()
        invariant
            i <= s.len(),
            out@ == lowered(s@).take(i as int),
        decreases s.len() - i,
    {
        let c = s[i];
        let low = if 'A' <= c && c <= 'Z' {
            ((c as u8) + 32) as char
        } else {
            c
        };
        out.push(low);
        assert(out@ =~= lowered(s@).take(i + 1));
        i += 1;
    }
    assert(lowered(s@).take(s.len() as int) =~= lowered(s@));
    out
}

/// A set of characters that a scan can look for or skip.
#[derive(Clone, Copy, Debug)]
pub enum CharClass {
    /// White space.
    Space,
    /// One given character.
    Just(char),
    /// White space, or one given character.
    SpaceOr(char),
}

impl CharClass {
    /// `c` belongs to the class.
    pub open spec fn has(self, c: char) -> bool {
        match self {
            CharClass::Space => is_space(c),
            CharClass::Just(x) => c == x,
            CharClass::SpaceOr(x) => is_space(c) || c == x,
        }
    }

    /// Whether `c` belongs to the class.
    pub fn holds(self, c: char) -> (b: bool)
        ensures
            b == self.has(c),
    {
        match self {
            CharClass::Space => space_char(c),
            CharClass::Just(x) => c == x,
            CharClass::SpaceOr(x) => space_char(c) || c == x,
        }
    }
}

/// Whether `c` is white space.
pub fn space_char(c: char) -> (b: bool)
    ensures
        b == is_space(c),
{
    let u: u32 = c as u32;
    (0x09 <= u && u <= 0x0d) || u == 0x20 || u == 0x85 || u == 0xa0 || u == 0x1680 || (0x2000 <= u
        && u <= 0x200a) || u == 0x2028 || u == 0x2029 || u == 0x202f || u == 0x205f || u == 0x3000
}

/// `needle` stands in `hay` at index `i`.
pub open spec fn matches_at(hay: Seq<char>, needle: Seq<char>, i: int) -> bool {
    &&& 0 <= i
    &&& i + needle.len() <= hay.len()
    &&& hay.subrange(i, i + needle.len()) == needle
}

/// The first index at or after `from` at which `needle` stands in `hay`.
pub open spec fn find_from(hay: Seq<char>, needle: Seq<char>, from: int) -> Option<int>
    decreases hay.len() + 1 - from,
{
    if from < 0 || from + needle.len() > hay.len() {
        None
    } else if matches_at(hay, needle, from) {
        Some(from)
    } else {
        find_from(hay, needle, from + 1)
    }
}

/// Whether `needle` stands anywhere in `hay`.
pub open spec fn contains(hay: Seq<char>, needle: Seq<char>) -> bool {
    find_from(hay, needle, 0) is Some
}

/// The first index at or after `from` whose character is in `class`.
pub open spec fn first_in(hay: Seq<char>, class: CharClass, from: int) -> Option<int>
    decreases hay.len() - from,
{
    if from < 0 || from >= hay.len() {
        None
    } else if class.has(hay[from]) {
        Some(from)
    } else {
        first_in(hay, class, from + 1)
    }
}

/// The last index before `end` whose character is in `class`.
pub open spec fn last_in(hay: Seq<char>, class: CharClass, end: int) -> Option<int>
    decreases end,
{
    if end <= 0 || end > hay.len() {
        None
    } else if class.has(hay[end - 1]) {
        Some(end - 1)
    } else {
        last_in(hay, class, end - 1)
    }
}

/// An index found by an executable search, as the mathematical index.
pub open spec fn as_index(r: Option<usize>) -> Option<int> {
    match r {
        Some(i) => Some(i as int),
        None => None,
    }
}

/// What `find_from` finds is the first occurrence at or after `from`.
pub proof fn lemma_find_from(hay: Seq<char>, needle: Seq<char>, from: int)
    requires
        0 <= from,
    ensures
        match find_from(hay, needle, from) {
            Some(i) => from <= i && matches_at(hay, needle, i) && forall|j: int|
                from <= j < i ==> !matches_at(hay, needle, j),
            None => forall|j: int| from <= j ==> !matches_at(hay, needle, j),
        },
    decreases hay.len() + 1 - from,
{
    if from + needle.len() > hay.len() {
    } else if matches_at(hay, needle, from) {
    } else {
        lemma_find_from(hay, needle, from + 1);
    }
}

/// A text holds another where the other stands at some index.
pub proof fn lemma_contains(hay: Seq<char>, needle: Seq<char>)
    ensures
        contains(hay, needle) <==> exists|i: int| matches_at(hay, needle, i),
{
    lemma_find_from(hay, needle, 0);
    if exists|i: int| matches_at(hay, needle, i) {
        let i = choose|i: int| matches_at(hay, needle, i);
        assert(0 <= i);
    }
    if contains(hay, needle) {
        assert(matches_at(hay, needle, find_from(hay, needle, 0)->0));
    }
}

/// What a part of a text holds, the text holds.
pub proof fn lemma_contains_in_part(hay: Seq<char>, needle: Seq<char>, a: int, b: int)
    requires
        0 <= a <= b <= hay.len(),
        contains(hay.subrange(a, b), needle),
    ensures
        contains(hay, needle),
{
    let part = hay.subrange(a, b);
    lemma_contains(part, needle);
    lemma_contains(hay, needle);
    let i = choose|i: int| matches_at(part, needle, i);
    assert(hay.subrange(a + i, a + i + needle.len()) =~= part.subrange(i, i + needle.len()));
    assert(matches_at(hay, needle, a + i));
}

/// What the beginning of a text holds, the text holds.
pub proof fn lemma_contains_in_longer(hay: Seq<char>, needle: Seq<char>, k: int)
    requires
        0 <= k <= hay.len(),
        contains(hay.take(k), needle),
    ensures
        contains(hay, needle),
{
    lemma_contains(hay.take(k), needle);
    lemma_contains(hay, needle);
    let i = choose|i: int| matches_at(hay.take(k), needle, i);
    assert(hay.subrange(i, i + needle.len()) =~= hay.take(k).subrange(i, i + needle.len()));
    assert(matches_at(hay, needle, i));
}

/// What `first_in` finds is the first character of the class at or after `from`.
pub proof fn lemma_first_in(hay: Seq<char>, class: CharClass, from: int)
    requires
        0 <= from,
    ensures
        match first_in(hay, class, from) {
            Some(i) => from <= i < hay.len() && class.has(hay[i]) && forall|j: int|
                from <= j < i ==> !class.has(#[trigger] hay[j]),
            None => forall|j: int| from <= j < hay.len() ==> !class.has(#[trigger] hay[j]),
        },
    decreases hay.len() - from,
{
    if from >= hay.len() {
    } else if class.has(hay[from]) {
    } else {
        lemma_first_in(hay, class, from + 1);
    }
}

/// Searching a class from a place in the second of two joined texts finds
/// what searching the second alone finds.
pub proof fn lemma_first_in_shift(a: Seq<char>, b: Seq<char>, class: CharClass, k: int)
    requires
        0 <= k,
    ensures
        first_in(a + b, class, a.len() + k) == match first_in(b, class, k) {
            Some(i) => Some(a.len() + i),
            None => None,
        },
    decreases b.len() - k,
{
    if k < b.len() {
        assert((a + b)[a.len() + k] == b[k]);
        lemma_first_in_shift(a, b, class, k + 1);
    }
}

/// Searching a class in the first of two joined texts finds what is there.
pub proof fn lemma_first_in_prefix(a: Seq<char>, b: Seq<char>, class: CharClass, from: int)
    requires
        0 <= from,
        first_in(a, class, from) is Some,
    ensures
        first_in(a + b, class, from) == first_in(a, class, from),
    decreases a.len() - from,
{
    if from < a.len() {
        assert((a + b)[from] == a[from]);
        if !class.has(a[from]) {
            lemma_first_in_prefix(a, b, class, from + 1);
        }
    }
}

/// Searching a class backwards from a place in the first of two joined
/// texts finds what searching the first alone finds.
pub proof fn lemma_last_in_prefix(a: Seq<char>, b: Seq<char>, class: CharClass, end: int)
    requires
        end <= a.len(),
    ensures
        last_in(a + b, class, end) == last_in(a, class, end),
    decreases end,
{
    if end > 0 {
        assert((a + b)[end - 1] == a[end - 1]);
        lemma_last_in_prefix(a, b, class, end - 1);
    }
}

/// What `last_in` finds is the last character of the class before `end`.
pub proof fn lemma_last_in(hay: Seq<char>, class: CharClass, end: int)
    requires
        end <= hay.len(),
    ensures
        match last_in(hay, class, end) {
            Some(i) => 0 <= i < end && class.has(hay[i]) && forall|j: int|
                i < j < end ==> !class.has(#[trigger] hay[j]),
            None => forall|j: int| 0 <= j < end ==> !class.has(#[trigger] hay[j]),
        },
    decreases end,
{
    if end <= 0 {
    } else if class.has(hay[end - 1]) {
    } else {
        lemma_last_in(hay, class, end - 1);
    }
}

/// Whether `needle` stands in `hay` at index `i`.
pub fn matches_here(hay: &Vec<char>, needle: &Vec<char>, i: usize) -> (b: bool)
    ensures
        b == matches_at(hay@, needle@, i as int),
{
    if i > hay.len() || needle.len() > hay.len() - i {
        return false;
    }
    let mut k: usize = 0;
    while k < needle.len()
        invariant
            i + needle.len() <= hay.len(),
            k <= needle.len(),
            forall|j: int| 0 <= j < k ==> hay@[i + j] == needle@[j],
        decreases needle.len() - k,
    {
        if hay[i + k] != needle[k] {
            proof {
                let sub = hay@.subrange(i as int, i + needle.len());
                assert(sub[k as int] == hay@[i + k]);
            }
            return false;
        }
        k += 1;
    }
    assert(hay@.subrange(i as int, i + needle.len()) =~= needle@);
    true
}

/// The first index at or after `from` at which `needle` stands in `hay`.
pub fn find(hay: &Vec<char>, needle: &Vec<char>, from: usize) -> (r: Option<usize>)
    ensures
        as_index(r) == find_from(hay@, needle@, from as int),
{
    if from > hay.len() || needle.len() > hay.len() - from {
        return None;
    }
    let last: usize = hay.len() - needle.len();
    let mut i: usize = from;
    loop
        invariant
            from <= i <= last,
            last == hay.len() - needle.len(),
            find_from(hay@, needle@, from as int) == find_from(hay@, needle@, i as int),
        decreases last - i,
    {
        if matches_here(hay, needle, i) {
            return Some(i);
        }
        if i == last {
            assert(find_from(hay@, needle@, i + 1) is None);
            return None;
        }
        i += 1;
    }
}

/// The first index at or after `from` whose character is in `class`.
pub fn find_class(hay: &Vec<char>, class: CharClass, from: usize) -> (r: Option<usize>)
    ensures
        as_index(r) == first_in(hay@, class, from as int),
{
    let mut i: usize = from;
    while i < hay.len()
        invariant
            from <= i,
            first_in(hay@, class, from as int) == first_in(hay@, class, i as int),
        decreases hay.len() - i,
    {
        if class.holds(hay[i]) {
            return Some(i);
        }
        i += 1;
    }
    None
}

/// The last index before `end` whose character is in `class`.
pub fn rfind_class(hay: &Vec<char>, class: CharClass, end: usize) -> (r: Option<usize>)
    ensures
        as_index(r) == last_in(hay@, class, end as int),
{
    if end > hay.len() {
        return None;
    }
    let mut i: usize = end;
    while i > 0
        invariant
            i <= end <= hay.len(),
            last_in(hay@, class, end as int) == last_in(hay@, class, i as int),
        decreases i,
    {
        if class.holds(hay[i - 1]) {
            return Some(i - 1);
        }
        i -= 1;
    }
    None
}

} // verus!
