//! Text as sequences of characters: trimming, searching, splitting, ordering
//! and the decimal form of numbers.
use vstd::prelude::*;

verus! {

/// `String::push` appends the given character to the end of the string.
pub assume_specification[ String::push ](s: &mut String, c: char)
    ensures
        final(s)@ == old(s)@.push(c),
;

/// Whether `c` has the Unicode property White_Space.
pub open spec fn is_space(c: char) -> bool {
    ||| '\u{9}' <= c <= '\u{d}'
    ||| c == '\u{20}'
    ||| c == '\u{85}'
    ||| c == '\u{a0}'
    ||| c == '\u{1680}'
    ||| '\u{2000}' <= c <= '\u{200a}'
    ||| c == '\u{2028}'
    ||| c == '\u{2029}'
    ||| c == '\u{202f}'
    ||| c == '\u{205f}'
    ||| c == '\u{3000}'
}

/// Whether `c` is white space.
pub fn is_space_char(c: char) -> (r: bool)
    ensures
        r == is_space(c),
{
    ('\u{9}' <= c && c <= '\u{d}') || c == '\u{20}' || c == '\u{85}' || c == '\u{a0}' || c
        == '\u{1680}' || ('\u{2000}' <= c && c <= '\u{200a}') || c == '\u{2028}' || c == '\u{2029}'
        || c == '\u{202f}' || c == '\u{205f}' || c == '\u{3000}'
}

/// The characters of `s`.
pub fn to_chars(s: &str) -> (r: Vec<char>)
    ensures
        r@ == s@,
{
    let mut out: Vec<char> = Vec::new();
    for c in it: s.chars()
        invariant
            it.seq() == s@,
            out@ == s@.take(it.index() as int),
    {
        out.push(c);
        assert(out@ =~= s@.take(it.index() as int + 1));
    }
    assert(s@.take(s@.len() as int) =~= s@);
    out
}

/// The string made of `chars`.
pub fn from_chars(chars: &Vec<char>) -> (r: String)
    ensures
        r@ == chars@,
{
    let mut out = String::new();
    for i in 0..chars.len()
        invariant
            out@ == chars@.take(i as int),
    {
        out.push(chars[i]);
        assert(out@ =~= chars@.take(i as int + 1));
    }
    assert(chars@.take(chars@.len() as int) =~= chars@);
    out
}

/// What an optional string holds.
pub open spec fn maybe(s: Option<&str>) -> Option<Seq<char>> {
    match s {
        Some(s) => Some(s@),
        None => None,
    }
}

/// What an optional string holds.
pub open spec fn maybe_owned(s: Option<String>) -> Option<Seq<char>> {
    match s {
        Some(s) => Some(s@),
        None => None,
    }
}

/// Whether two strings hold the same characters.
pub fn same_text(a: &str, b: &str) -> (r: bool)
    ensures
        r == (a@ == b@),
{
    a.to_owned() == b.to_owned()
}

/// The characters of `s` from `lo` up to, not including, `hi`.
pub fn slice_chars(s: &Vec<char>, lo: usize, hi: usize) -> (r: Vec<char>)
    requires
        lo <= hi <= s@.len(),
    ensures
        r@ == s@.subrange(lo as int, hi as int),
{
    let mut out: Vec<char> = Vec::new();
    for i in lo..hi
        invariant
            hi <= s@.len(),
            out@ == s@.subrange(lo as int, i as int),
    {
        out.push(s[i]);
        assert(out@ =~= s@.subrange(lo as int, i as int + 1));
    }
    out
}

// Trimming.

/// `s` without the white space it starts with.
pub open spec fn trimmed_start(s: Seq<char>) -> Seq<char>
    decreases s.len(),
{
    if s.len() > 0 && is_space(s[0]) {
        trimmed_start(s.skip(1))
    } else {
        s
    }
}

/// `s` without the white space it ends with.
pub open spec fn trimmed_end(s: Seq<char>) -> Seq<char>
    decreases s.len(),
{
    if s.len() > 0 && is_space(s.last()) {
        trimmed_end(s.drop_last())
    } else {
        s
    }
}

/// `s` without the white space at both ends.
pub open spec fn trimmed(s: Seq<char>) -> Seq<char> {
    trimmed_end(trimmed_start(s))
}

/// Trimming does not make a text longer.
pub proof fn lemma_trimmed_start_len(s: Seq<char>)
    ensures
        trimmed_start(s).len() <= s.len(),
    decreases s.len(),
{
    if s.len() > 0 && is_space(s[0]) {
        lemma_trimmed_start_len(s.skip(1));
    }
}

/// The position of the first character at or after `from` that is not white
/// space.
pub fn skip_space(s: &Vec<char>, from: usize) -> (r: usize)
    requires
        from <= s@.len(),
    ensures
        from <= r <= s@.len(),
        s@.skip(r as int) == trimmed_start(s@.skip(from as int)),
{
    let mut lo: usize = from;
    while lo < s.len() && is_space_char(s[lo])
        invariant
            from <= lo <= s@.len(),
            trimmed_start(s@.skip(lo as int)) == trimmed_start(s@.skip(from as int)),
        decreases s@.len() - lo,
    {
        assert(s@.skip(lo as int).skip(1) =~= s@.skip(lo as int + 1));
        lo = lo + 1;
    }
    lo
}

/// Removes the white space at both ends.
pub fn trim(s: &Vec<char>) -> (r: Vec<char>)
    ensures
        r@ == trimmed(s@),
{
    let lo = skip_space(s, 0);
    proof {
        assert(s@.skip(0) =~= s@);
        assert(s@.skip(lo as int) =~= s@.subrange(lo as int, s@.len() as int));
    }
    let mut hi: usize = s.len();
    while hi > lo && is_space_char(s[hi - 1])
        invariant
            lo <= hi <= s@.len(),
            trimmed_end(s@.subrange(lo as int, hi as int)) == trimmed(s@),
        decreases hi - lo,
    {
        assert(s@.subrange(lo as int, hi as int).drop_last() =~= s@.subrange(
            lo as int,
            hi as int - 1,
        ));
        hi = hi - 1;
    }
    slice_chars(s, lo, hi)
}

/// `s` without every `c` it starts and ends with.
pub open spec fn stripped_of(s: Seq<char>, c: char) -> Seq<char>
    decreases s.len(),
{
    if s.len() > 0 && s[0] == c {
        stripped_of(s.skip(1), c)
    } else if s.len() > 0 && s.last() == c {
        stripped_of(s.drop_last(), c)
    } else {
        s
    }
}

/// Removes every `c` at both ends.
pub fn strip_char(s: &Vec<char>, c: char) -> (r: Vec<char>)
    ensures
        r@ == stripped_of(s@, c),
{
    let mut lo: usize = 0;
    let mut hi: usize = s.len();
    proof {
        assert(s@.subrange(0, s@.len() as int) =~= s@);
    }
    while lo < hi && (s[lo] == c || s[hi - 1] == c)
        invariant
            lo <= hi <= s@.len(),
            stripped_of(s@.subrange(lo as int, hi as int), c) == stripped_of(s@, c),
        decreases hi - lo,
    {
        if s[lo] == c {
            assert(s@.subrange(lo as int, hi as int).skip(1) =~= s@.subrange(
                lo as int + 1,
                hi as int,
            ));
            lo = lo + 1;
        } else {
            assert(s@.subrange(lo as int, hi as int).drop_last() =~= s@.subrange(
                lo as int,
                hi as int - 1,
            ));
            hi = hi - 1;
        }
    }
    slice_chars(s, lo, hi)
}

// Prefixes and suffixes.

/// Whether `needle` stands in `s` at position `at`.
pub open spec fn stands_at(s: Seq<char>, needle: Seq<char>, at: int) -> bool {
    0 <= at && at + needle.len() <= s.len() && s.subrange(at, at + needle.len()) == needle
}

/// Whether `needle` stands in `s` at position `at`.
pub fn stands_at_char(s: &Vec<char>, needle: &Vec<char>, at: usize) -> (r: bool)
    ensures
        r == stands_at(s@, needle@, at as int),
{
    if needle.len() > s.len() || at > s.len() - needle.len() {
        return false;
    }
    for k in 0..needle.len()
        invariant
            at + needle@.len() <= s@.len(),
            s@.len() == s.len(),
            forall|j: int| 0 <= j < k ==> s@[at + j] == needle@[j],
    {
        if s[at + k] != needle[k] {
            assert(s@.subrange(at as int, at + needle@.len())[k as int] != needle@[k as int]);
            return false;
        }
    }
    assert(s@.subrange(at as int, at + needle@.len()) =~= needle@);
    true
}

/// Whether `s` starts with `prefix`.
pub open spec fn has_prefix(s: Seq<char>, prefix: Seq<char>) -> bool {
    stands_at(s, prefix, 0)
}

/// Whether `s` starts with `prefix`.
pub fn starts_with(s: &Vec<char>, prefix: &str) -> (r: bool)
    ensures
        r == has_prefix(s@, prefix@),
{
    stands_at_char(s, &to_chars(prefix), 0)
}

/// What follows `prefix` in `s`, or nothing where `s` does not start with it.
pub open spec fn without_prefix(s: Seq<char>, prefix: Seq<char>) -> Option<Seq<char>> {
    if has_prefix(s, prefix) {
        Some(s.skip(prefix.len() as int))
    } else {
        None
    }
}

/// What follows `prefix` in `s`, where `s` starts with it.
pub fn strip_prefix(s: &Vec<char>, prefix: &str) -> (r: Option<Vec<char>>)
    ensures
        match r {
            Some(rest) => without_prefix(s@, prefix@) == Some(rest@),
            None => without_prefix(s@, prefix@) is None,
        },
{
    let p = to_chars(prefix);
    if stands_at_char(s, &p, 0) {
        let rest = slice_chars(s, p.len(), s.len());
        assert(rest@ =~= s@.skip(p@.len() as int));
        Some(rest)
    } else {
        None
    }
}

/// `s` without `suffix` at its end, or `s` itself where it does not end so.
pub open spec fn without_suffix(s: Seq<char>, suffix: Seq<char>) -> Seq<char> {
    if stands_at(s, suffix, s.len() - suffix.len()) {
        s.take(s.len() - suffix.len())
    } else {
        s
    }
}

/// Removes `suffix` from the end of `s`, where `s` ends so.
pub fn strip_suffix(s: &Vec<char>, suffix: &str) -> (r: Vec<char>)
    ensures
        r@ == without_suffix(s@, suffix@),
{
    let p = to_chars(suffix);
    if p.len() <= s.len() && stands_at_char(s, &p, s.len() - p.len()) {
        let r = slice_chars(s, 0, s.len() - p.len());
        assert(r@ =~= s@.take(s@.len() - p@.len()));
        r
    } else {
        let r = slice_chars(s, 0, s.len());
        assert(r@ =~= s@);
        r
    }
}

// Searching.

/// The first position at which `needle` stands in `s`.
pub open spec fn find(s: Seq<char>, needle: Seq<char>) -> Option<int>
    decreases s.len(),
{
    if has_prefix(s, needle) {
        Some(0)
    } else if s.len() == 0 {
        None
    } else {
        match find(s.skip(1), needle) {
            Some(i) => Some(i + 1),
            None => None,
        }
    }
}

/// `find` gives the least position at which `needle` stands, and none exactly
/// where it stands nowhere.
pub proof fn lemma_find_is_first(s: Seq<char>, needle: Seq<char>)
    ensures
        match find(s, needle) {
            Some(i) => stands_at(s, needle, i) && forall|j: int|
                0 <= j < i ==> !#[trigger] stands_at(s, needle, j),
            None => forall|j: int| !#[trigger] stands_at(s, needle, j),
        },
    decreases s.len(),
{
    if !has_prefix(s, needle) && s.len() > 0 {
        lemma_find_is_first(s.skip(1), needle);
        assert forall|j: int| 1 <= j implies #[trigger] stands_at(s, needle, j) == stands_at(
            s.skip(1),
            needle,
            j - 1,
        ) by {
            if j + needle.len() <= s.len() {
                assert(s.subrange(j, j + needle.len()) =~= s.skip(1).subrange(
                    j - 1,
                    j - 1 + needle.len(),
                ));
            }
        }
    }
}

/// The first position at or after `from` at which `needle` stands in `s`.
pub fn find_from(s: &Vec<char>, needle: &Vec<char>, from: usize) -> (r: Option<usize>)
    requires
        from <= s@.len(),
    ensures
        match r {
            Some(i) => from <= i && i + needle@.len() <= s@.len() && find(s@.skip(from as int), needle@)
                == Some(i - from),
            None => find(s@.skip(from as int), needle@) is None,
        },
{
    let mut i: usize = from;
    let ghost tail = s@.skip(from as int);
    while i < s.len()
        invariant
            from <= i <= s@.len(),
            tail == s@.skip(from as int),
            match find(s@.skip(i as int), needle@) {
                Some(k) => find(tail, needle@) == Some(i - from + k),
                None => find(tail, needle@) is None,
            },
        decreases s@.len() - i,
    {
        proof {
            if i + needle@.len() <= s@.len() {
                assert(s@.skip(i as int).subrange(0, needle@.len() as int) =~= s@.subrange(
                    i as int,
                    i + needle@.len(),
                ));
            }
            assert(s@.skip(i as int).skip(1) =~= s@.skip(i as int + 1));
        }
        if stands_at_char(s, needle, i) {
            return Some(i);
        }
        i = i + 1;
    }
    if needle.len() == 0 {
        assert(s@.skip(i as int).subrange(0, 0) =~= needle@);
        return Some(i);
    }
    None
}

/// Whether `needle` stands somewhere in `s`.
pub fn contains_text(s: &Vec<char>, needle: &str) -> (r: bool)
    ensures
        r == (find(s@, needle@) is Some),
{
    assert(s@.skip(0) =~= s@);
    find_from(s, &to_chars(needle), 0).is_some()
}

/// A text without the first character of `needle` does not hold `needle`.
pub proof fn lemma_not_found(s: Seq<char>, needle: Seq<char>)
    requires
        needle.len() > 0,
        !s.contains(needle[0]),
    ensures
        find(s, needle) is None,
{
    lemma_find_is_first(s, needle);
    if find(s, needle) is Some {
        let at = find(s, needle)->0;
        assert(s.subrange(at, at + needle.len())[0] == s[at]);
        assert(s.contains(s[at]));
    }
}

/// The first position of `c` in `s`, or the length of `s` where `c` does not
/// occur.
pub open spec fn position(s: Seq<char>, c: char) -> int
    decreases s.len(),
{
    if s.len() == 0 || s[0] == c {
        0
    } else {
        1 + position(s.skip(1), c)
    }
}

/// `position` is the least position of `c`, or the length.
pub proof fn lemma_position_is_first(s: Seq<char>, c: char)
    ensures
        0 <= position(s, c) <= s.len(),
        position(s, c) < s.len() ==> s[position(s, c)] == c,
        forall|j: int| 0 <= j < position(s, c) ==> s[j] != c,
    decreases s.len(),
{
    if s.len() > 0 && s[0] != c {
        lemma_position_is_first(s.skip(1), c);
        assert forall|j: int| 0 <= j < position(s, c) implies s[j] != c by {
            if j > 0 {
                assert(s[j] == s.skip(1)[j - 1]);
            }
        }
    }
}

/// The first position of `c` at or after `from`, or the length of `s`.
pub fn position_from(s: &Vec<char>, c: char, from: usize) -> (r: usize)
    requires
        from <= s@.len(),
    ensures
        from <= r <= s@.len(),
        r - from == position(s@.skip(from as int), c),
{
    let mut i: usize = from;
    while i < s.len() && s[i] != c
        invariant
            from <= i <= s@.len(),
            i - from + position(s@.skip(i as int), c) == position(s@.skip(from as int), c),
        decreases s@.len() - i,
    {
        assert(s@.skip(i as int).skip(1) =~= s@.skip(i as int + 1));
        i = i + 1;
    }
    i
}

/// How many characters stand before the first white space.
pub open spec fn word_len(s: Seq<char>) -> int
    decreases s.len(),
{
    if s.len() == 0 || is_space(s[0]) {
        0
    } else {
        1 + word_len(s.skip(1))
    }
}

/// `s` up to its first white space.
pub open spec fn first_word(s: Seq<char>) -> Seq<char> {
    s.take(word_len(s))
}

/// A text without white space is one word.
pub proof fn lemma_word_without_space(s: Seq<char>)
    requires
        forall|i: int| 0 <= i < s.len() ==> !is_space(#[trigger] s[i]),
    ensures
        word_len(s) == s.len(),
    decreases s.len(),
{
    if s.len() > 0 {
        assert forall|i: int| 0 <= i < s.skip(1).len() implies !is_space(
            #[trigger] s.skip(1)[i],
        ) by {
            assert(s.skip(1)[i] == s[i + 1]);
        }
        lemma_word_without_space(s.skip(1));
    }
}

/// The end of the word that starts at `from`.
pub fn word_end(s: &Vec<char>, from: usize) -> (r: usize)
    requires
        from <= s@.len(),
    ensures
        from <= r <= s@.len(),
        r - from == word_len(s@.skip(from as int)),
{
    let mut i: usize = from;
    while i < s.len() && !is_space_char(s[i])
        invariant
            from <= i <= s@.len(),
            i - from + word_len(s@.skip(i as int)) == word_len(s@.skip(from as int)),
        decreases s@.len() - i,
    {
        assert(s@.skip(i as int).skip(1) =~= s@.skip(i as int + 1));
        i = i + 1;
    }
    i
}

// Splitting.

/// The pieces of `s` between the occurrences of `c`.
pub open spec fn split(s: Seq<char>, c: char) -> Seq<Seq<char>>
    decreases s.len(),
{
    proof {
        lemma_position_is_first(s, c);
    }
    let i = position(s, c);
    if i >= s.len() {
        seq![s]
    } else {
        seq![s.take(i)] + split(s.skip(i + 1), c)
    }
}

/// Where a character stands behind a text without it.
pub proof fn lemma_position_of_first(a: Seq<char>, c: char, b: Seq<char>)
    requires
        !a.contains(c),
    ensures
        position(a, c) == a.len(),
        position(a + seq![c] + b, c) == a.len(),
{
    let s = a + seq![c] + b;
    lemma_position_is_first(a, c);
    lemma_position_is_first(s, c);
    assert(position(a, c) == a.len()) by {
        if position(a, c) < a.len() {
            assert(a.contains(a[position(a, c)]));
        }
    }
    assert(s[a.len() as int] == c);
    assert(position(s, c) == a.len()) by {
        if position(s, c) < a.len() {
            assert(a.contains(a[position(s, c)]));
        }
    }
}

/// A text without the separator is one piece; otherwise what stands before the
/// first separator is the first piece.
pub proof fn lemma_split_first(a: Seq<char>, c: char, b: Seq<char>)
    requires
        !a.contains(c),
    ensures
        split(a, c) == seq![a],
        split(a + seq![c] + b, c) == seq![a] + split(b, c),
{
    let s = a + seq![c] + b;
    lemma_position_of_first(a, c, b);
    assert(s.take(a.len() as int) =~= a);
    assert(s.skip(a.len() as int + 1) =~= b);
}

/// What the strings in `v` hold, in their order.
pub open spec fn views(v: Seq<Vec<char>>) -> Seq<Seq<char>> {
    v.map_values(|x: Vec<char>| x@)
}

/// Cuts `s` at every `c`.
pub fn split_char(s: &Vec<char>, c: char) -> (r: Vec<Vec<char>>)
    ensures
        views(r@) == split(s@, c),
{
    let mut out: Vec<Vec<char>> = Vec::new();
    let mut from: usize = 0;
    assert(s@.skip(0) =~= s@);
    assert(views(out@) + split(s@, c) =~= split(s@, c));
    loop
        invariant
            from <= s@.len(),
            views(out@) + split(s@.skip(from as int), c) == split(s@, c),
        decreases s@.len() - from,
    {
        let i = position_from(s, c, from);
        let piece = slice_chars(s, from, i);
        let ghost tail = s@.skip(from as int);
        let ghost before = views(out@);
        proof {
            lemma_position_is_first(tail, c);
            assert(piece@ =~= tail.take(i - from));
        }
        out.push(piece);
        assert(views(out@) =~= before.push(piece@));
        if i == s.len() {
            proof {
                assert(piece@ =~= tail);
                assert(views(out@) =~= before + split(tail, c));
            }
            return out;
        }
        proof {
            assert(tail.skip(i - from + 1) =~= s@.skip(i as int + 1));
            assert(views(out@) + split(s@.skip(i as int + 1), c) =~= before + split(tail, c));
        }
        from = i + 1;
    }
}

/// `s` without a carriage return at its end.
pub open spec fn without_return(s: Seq<char>) -> Seq<char> {
    if s.len() > 0 && s.last() == '\r' {
        s.drop_last()
    } else {
        s
    }
}

/// The lines of `s`. A line ends with a line feed, with a carriage return and
/// a line feed, or where `s` ends; its end is not part of it.
pub open spec fn lines(s: Seq<char>) -> Seq<Seq<char>>
    decreases s.len(),
{
    proof {
        lemma_position_is_first(s, '\n');
    }
    let i = position(s, '\n');
    if s.len() == 0 {
        seq![]
    } else if i >= s.len() {
        seq![s]
    } else {
        seq![without_return(s.take(i))] + lines(s.skip(i + 1))
    }
}

/// Cuts `s` into its lines.
pub fn split_lines(s: &Vec<char>) -> (r: Vec<Vec<char>>)
    ensures
        views(r@) == lines(s@),
{
    let mut out: Vec<Vec<char>> = Vec::new();
    let mut from: usize = 0;
    assert(s@.skip(0) =~= s@);
    assert(views(out@) + lines(s@) =~= lines(s@));
    while from < s.len()
        invariant
            from <= s@.len(),
            views(out@) + lines(s@.skip(from as int)) == lines(s@),
        decreases s@.len() - from,
    {
        let i = position_from(s, '\n', from);
        let ghost tail = s@.skip(from as int);
        let ghost before = views(out@);
        proof {
            lemma_position_is_first(tail, '\n');
        }
        if i == s.len() {
            let piece = slice_chars(s, from, i);
            proof {
                assert(piece@ =~= tail);
            }
            out.push(piece);
            proof {
                assert(views(out@) =~= before.push(tail));
                assert(views(out@) =~= before + lines(tail));
            }
            return out;
        }
        let hi = if i > from && s[i - 1] == '\r' {
            i - 1
        } else {
            i
        };
        let piece = slice_chars(s, from, hi);
        proof {
            assert(tail.take(i - from) =~= s@.subrange(from as int, i as int));
            assert(piece@ =~= without_return(tail.take(i - from)));
        }
        out.push(piece);
        proof {
            assert(views(out@) =~= before.push(piece@));
            assert(tail.skip(i - from + 1) =~= s@.skip(i as int + 1));
            assert(views(out@) + lines(s@.skip(i as int + 1)) =~= before + lines(tail));
        }
        from = i + 1;
    }
    proof {
        assert(s@.skip(from as int) =~= Seq::<char>::empty());
        assert(views(out@) + lines(s@.skip(from as int)) =~= views(out@));
    }
    out
}

/// The strings of `v` with `sep` between them.
pub open spec fn joined(v: Seq<Seq<char>>, sep: Seq<char>) -> Seq<char>
    decreases v.len(),
{
    if v.len() == 0 {
        seq![]
    } else if v.len() == 1 {
        v[0]
    } else {
        joined(v.drop_last(), sep) + sep + v.last()
    }
}

/// What the strings in `v` hold, in their order.
pub open spec fn texts(v: Seq<String>) -> Seq<Seq<char>> {
    v.map_values(|x: String| x@)
}

/// Puts the strings of `v` one behind the other, with `sep` between them.
pub fn join(v: &Vec<String>, sep: &str) -> (r: String)
    ensures
        r@ == joined(texts(v@), sep@),
{
    let mut out = String::new();
    assert(out@ =~= joined(texts(v@).take(0), sep@));
    for i in 0..v.len()
        invariant
            out@ == joined(texts(v@).take(i as int), sep@),
    {
        let ghost t = texts(v@).take(i as int + 1);
        proof {
            assert(t.drop_last() =~= texts(v@).take(i as int));
            assert(t.last() == v@[i as int]@);
        }
        if i > 0 {
            out.append(sep);
        } else {
            assert(joined(texts(v@).take(0), sep@) =~= seq![]);
        }
        out.append(v[i].as_str());
        assert(out@ =~= joined(t, sep@));
    }
    assert(texts(v@).take(v@.len() as int) =~= texts(v@));
    out
}

/// One string behind the other.
pub fn glue(a: &str, b: &str) -> (r: String)
    ensures
        r@ == a@ + b@,
{
    let mut r = a.to_owned();
    r.append(b);
    r
}

// Numbers.

/// The decimal digit for `d`.
pub open spec fn digit_char(d: int) -> char {
    (('0' as int) + d) as char
}

/// The decimal form of `n`.
pub open spec fn decimal(n: nat) -> Seq<char>
    decreases n,
{
    if n < 10 {
        seq![digit_char(n as int)]
    } else {
        decimal(n / 10).push(digit_char((n % 10) as int))
    }
}

/// The decimal digit for `d`.
fn digit(d: u64) -> (c: char)
    requires
        d < 10,
    ensures
        c == digit_char(d as int),
{
    if d == 0 {
        '0'
    } else if d == 1 {
        '1'
    } else if d == 2 {
        '2'
    } else if d == 3 {
        '3'
    } else if d == 4 {
        '4'
    } else if d == 5 {
        '5'
    } else if d == 6 {
        '6'
    } else if d == 7 {
        '7'
    } else if d == 8 {
        '8'
    } else {
        '9'
    }
}

/// Writes `n` in decimal.
pub fn decimal_text(n: u64) -> (r: String)
    ensures
        r@ == decimal(n as nat),
    decreases n,
{
    let mut out = if n < 10 {
        String::new()
    } else {
        decimal_text(n / 10)
    };
    out.push(digit(n % 10));
    assert(out@ =~= decimal(n as nat));
    out
}

/// The decimal form of an integer, with a sign where it is negative.
pub open spec fn signed_decimal(n: int) -> Seq<char> {
    if n < 0 {
        seq!['-'] + decimal((-n) as nat)
    } else {
        decimal(n as nat)
    }
}

/// Writes `n` in decimal, with a sign where it is negative.
pub fn signed_text(n: i32) -> (r: String)
    ensures
        r@ == signed_decimal(n as int),
{
    let wide: i64 = n as i64;
    if wide < 0 {
        let mut out = String::new();
        out.push('-');
        out.append(decimal_text((-wide) as u64).as_str());
        assert(out@ =~= signed_decimal(n as int));
        out
    } else {
        decimal_text(wide as u64)
    }
}

/// Whether `c` is one of the digits from 0 to 9.
pub open spec fn is_digit(c: char) -> bool {
    '0' <= c <= '9'
}

/// The number that a sequence of digits stands for.
pub open spec fn digits_value(s: Seq<char>) -> nat
    decreases s.len(),
{
    if s.len() == 0 {
        0
    } else {
        digits_value(s.drop_last()) * 10 + (s.last() as int - '0' as int) as nat
    }
}

/// `s` without a plus sign at its start.
pub open spec fn without_plus(s: Seq<char>) -> Seq<char> {
    if s.len() > 0 && s[0] == '+' {
        s.skip(1)
    } else {
        s
    }
}

/// Whether `s` holds digits, at least one, and nothing else.
pub open spec fn all_digits(s: Seq<char>) -> bool {
    s.len() > 0 && forall|i: int| 0 <= i < s.len() ==> is_digit(#[trigger] s[i])
}

/// The number that `s` spells: digits, at least one, behind an optional plus
/// sign.
pub open spec fn spelled_number(s: Seq<char>) -> Option<nat> {
    if all_digits(without_plus(s)) {
        Some(digits_value(without_plus(s)))
    } else {
        None
    }
}

/// The decimal form of a number spells that number.
pub proof fn lemma_decimal_spells(n: nat)
    ensures
        all_digits(decimal(n)),
        spelled_number(decimal(n)) == Some(n),
        trimmed(decimal(n)) == decimal(n),
    decreases n,
{
    let s = decimal(n);
    let d = (n % 10) as int;
    assert(is_digit(digit_char(d)) && digit_char(d) as int - '0' as int == d);
    if n < 10 {
        assert(s.drop_last() =~= seq![]);
        assert(digits_value(s.drop_last()) == 0);
    } else {
        lemma_decimal_spells(n / 10);
        let shorter = decimal(n / 10);
        assert(s.drop_last() =~= shorter);
        assert(without_plus(shorter) == shorter) by {
            assert(is_digit(shorter[0]));
        }
        assert forall|i: int| 0 <= i < s.len() implies is_digit(#[trigger] s[i]) by {
            if i < shorter.len() {
                assert(is_digit(shorter[i]));
            }
        }
    }
    assert(is_digit(s[0]) && is_digit(s.last()));
    assert(!is_space(s[0]) && !is_space(s.last()));
}

/// Reads the number that `s` spells, where it is at most `max`.
pub fn parse_number(s: &Vec<char>, max: u64) -> (r: Option<u64>)
    ensures
        match spelled_number(s@) {
            Some(n) => r == if n <= max {
                Some(n as u64)
            } else {
                None
            },
            None => r is None,
        },
{
    let start: usize = if s.len() > 0 && s[0] == '+' {
        1
    } else {
        0
    };
    let ghost d = s@.skip(start as int);
    proof {
        assert(d =~= without_plus(s@));
    }
    if start == s.len() {
        return None;
    }
    let mut value: u64 = 0;
    let mut over = false;
    for i in start..s.len()
        invariant
            start < s@.len(),
            d == s@.skip(start as int),
            d == without_plus(s@),
            forall|j: int| 0 <= j < i - start ==> is_digit(#[trigger] d[j]),
            !over ==> value == digits_value(d.take(i - start)) && value <= max,
            over ==> digits_value(d.take(i - start)) > max,
    {
        let c = s[i];
        assert(d[i - start] == c);
        if !('0' <= c && c <= '9') {
            assert(!is_digit(d[i - start]));
            return None;
        }
        let k: u64 = c as u64 - '0' as u64;
        proof {
            assert(d.take(i - start + 1).drop_last() =~= d.take(i - start));
        }
        if !over {
            let next: u128 = value as u128 * 10 + k as u128;
            if next > max as u128 {
                over = true;
            } else {
                value = next as u64;
            }
        }
    }
    proof {
        assert(d.take(s@.len() - start) =~= d);
    }
    if over {
        None
    } else {
        Some(value)
    }
}

// Ordering.

/// Whether `a` stands before `b` in the order of their characters.
pub open spec fn text_less(a: Seq<char>, b: Seq<char>) -> bool
    decreases a.len(),
{
    if b.len() == 0 {
        false
    } else if a.len() == 0 {
        true
    } else if a[0] != b[0] {
        a[0] < b[0]
    } else {
        text_less(a.skip(1), b.skip(1))
    }
}

/// `text_less` is a strict total order.
pub proof fn lemma_text_less_total(a: Seq<char>, b: Seq<char>)
    ensures
        !(text_less(a, b) && text_less(b, a)),
        text_less(a, b) || text_less(b, a) || a == b,
        !text_less(a, a),
    decreases a.len(),
{
    if a.len() > 0 {
        lemma_text_less_total(a.skip(1), a.skip(1));
    }
    if a.len() > 0 && b.len() > 0 {
        lemma_text_less_total(a.skip(1), b.skip(1));
        if a[0] == b[0] && a.skip(1) == b.skip(1) {
            assert(a =~= seq![a[0]] + a.skip(1));
            assert(b =~= seq![b[0]] + b.skip(1));
        }
    } else if a.len() == 0 && b.len() == 0 {
        assert(a =~= b);
    }
}

/// Whatever stands between `a` and `c`, one of the two lies beyond it.
pub proof fn lemma_text_less_splits(a: Seq<char>, b: Seq<char>, c: Seq<char>)
    requires
        text_less(a, c),
    ensures
        text_less(a, b) || text_less(b, c),
    decreases a.len(),
{
    if a.len() > 0 && b.len() > 0 && c.len() > 0 && a[0] == c[0] && a[0] == b[0] {
        lemma_text_less_splits(a.skip(1), b.skip(1), c.skip(1));
    }
}

/// Whether `a` stands before `b` in the order of their characters.
pub fn is_less(a: &Vec<char>, b: &Vec<char>) -> (r: bool)
    ensures
        r == text_less(a@, b@),
{
    let mut i: usize = 0;
    assert(a@.skip(0) =~= a@);
    assert(b@.skip(0) =~= b@);
    while i < a.len() && i < b.len()
        invariant
            i <= a@.len(),
            i <= b@.len(),
            text_less(a@.skip(i as int), b@.skip(i as int)) == text_less(a@, b@),
        decreases a@.len() - i,
    {
        if a[i] != b[i] {
            return a[i] < b[i];
        }
        assert(a@.skip(i as int).skip(1) =~= a@.skip(i as int + 1));
        assert(b@.skip(i as int).skip(1) =~= b@.skip(i as int + 1));
        i = i + 1;
    }
    i < b.len()
}

// Laws.

/// White space is exactly what Unicode calls so, by code points; so no letter,
/// digit, hyphen or other visible ASCII character is.
pub proof fn lemma_white_space(c: char)
    ensures
        is_space(c) <==> {
            let n = c as u32;
            9 <= n <= 13 || n == 32 || n == 133 || n == 160 || n == 5760 || 8192 <= n <= 8202 || n
                == 8232 || n == 8233 || n == 8239 || n == 8287 || n == 12288
        },
        '!' <= c <= '~' ==> !is_space(c),
{
}

/// White space at the start goes away, and nothing else.
pub proof fn lemma_trim_start(before: Seq<char>, rest: Seq<char>)
    requires
        forall|i: int| 0 <= i < before.len() ==> is_space(#[trigger] before[i]),
        rest.len() > 0 ==> !is_space(rest[0]),
    ensures
        trimmed_start(before + rest) == rest,
    decreases before.len(),
{
    let s = before + rest;
    if before.len() > 0 {
        assert(s[0] == before[0]);
        assert(s.skip(1) =~= before.skip(1) + rest);
        lemma_trim_start(before.skip(1), rest);
    } else {
        assert(s =~= rest);
    }
}

/// White space at the end goes away, and nothing else.
proof fn lemma_trim_end(rest: Seq<char>, after: Seq<char>)
    requires
        forall|i: int| 0 <= i < after.len() ==> is_space(#[trigger] after[i]),
        rest.len() > 0 ==> !is_space(rest.last()),
    ensures
        trimmed_end(rest + after) == rest,
    decreases after.len(),
{
    let s = rest + after;
    if after.len() > 0 {
        assert(s.last() == after.last());
        assert(s.drop_last() =~= rest + after.drop_last());
        lemma_trim_end(rest, after.drop_last());
    } else {
        assert(s =~= rest);
    }
}

/// Trimming takes away the white space at both ends, all of it, and nothing of
/// what stands between: a text that starts and ends with something else comes
/// out of any white space round it as it is.
pub proof fn lemma_trimming_takes_the_ends_only(
    before: Seq<char>,
    core: Seq<char>,
    after: Seq<char>,
)
    requires
        forall|i: int| 0 <= i < before.len() ==> is_space(#[trigger] before[i]),
        forall|i: int| 0 <= i < after.len() ==> is_space(#[trigger] after[i]),
        core.len() > 0 ==> !is_space(core[0]) && !is_space(core.last()),
    ensures
        trimmed(before + core + after) == core,
{
    if core.len() > 0 {
        assert((core + after)[0] == core[0]);
        lemma_trim_start(before, core + after);
        assert(before + core + after =~= before + (core + after));
        lemma_trim_end(core, after);
    } else {
        let all = before + after;
        assert forall|i: int| 0 <= i < all.len() implies is_space(#[trigger] all[i]) by {
            if i < before.len() {
                assert(all[i] == before[i]);
            } else {
                assert(all[i] == after[i - before.len()]);
            }
        }
        lemma_trim_start(all, seq![]);
        assert(before + core + after =~= all + seq![]);
        assert(trimmed_end(Seq::<char>::empty()) =~= seq![]);
        assert(core =~= seq![]);
    }
}

/// Something is left of a trimmed text exactly where it holds a character that
/// is not white space.
pub proof fn lemma_trimmed_is_empty(s: Seq<char>)
    ensures
        trimmed(s).len() > 0 <==> exists|i: int| 0 <= i < s.len() && !is_space(#[trigger] s[i]),
{
    if forall|i: int| 0 <= i < s.len() ==> is_space(#[trigger] s[i]) {
        lemma_trimming_takes_the_ends_only(s, seq![], seq![]);
        assert(s + Seq::<char>::empty() + Seq::<char>::empty() =~= s);
    } else {
        let k = choose|k: int| 0 <= k < s.len() && !is_space(#[trigger] s[k]);
        lemma_start_is_left(s, k);
        let t = trimmed_start(s);
        let j = choose|j: int| 0 <= j < t.len() && !is_space(#[trigger] t[j]);
        lemma_end_is_left(t, j);
    }
}

proof fn lemma_start_is_left(s: Seq<char>, k: int)
    requires
        0 <= k < s.len(),
        !is_space(s[k]),
    ensures
        exists|j: int| 0 <= j < trimmed_start(s).len() && !is_space(#[trigger] trimmed_start(s)[j]),
    decreases s.len(),
{
    if is_space(s[0]) {
        assert(s.skip(1)[k - 1] == s[k]);
        lemma_start_is_left(s.skip(1), k - 1);
        let t = trimmed_start(s.skip(1));
        let j = choose|j: int| 0 <= j < t.len() && !is_space(#[trigger] t[j]);
        assert(trimmed_start(s) == t);
        assert(!is_space(trimmed_start(s)[j]));
    } else {
        assert(!is_space(trimmed_start(s)[k]));
    }
}

proof fn lemma_end_is_left(s: Seq<char>, k: int)
    requires
        0 <= k < s.len(),
        !is_space(s[k]),
    ensures
        trimmed_end(s).len() > 0,
    decreases s.len(),
{
    if is_space(s.last()) {
        assert(s.drop_last()[k] == s[k]);
        lemma_end_is_left(s.drop_last(), k);
    }
}

/// Stripping takes away every `c` at both ends, and nothing of what stands
/// between.
pub proof fn lemma_stripping_takes_the_ends_only(
    before: Seq<char>,
    core: Seq<char>,
    after: Seq<char>,
    c: char,
)
    requires
        forall|i: int| 0 <= i < before.len() ==> #[trigger] before[i] == c,
        forall|i: int| 0 <= i < after.len() ==> #[trigger] after[i] == c,
        core.len() > 0 ==> core[0] != c && core.last() != c,
    ensures
        stripped_of(before + core + after, c) == core,
    decreases before.len() + after.len(),
{
    let s = before + core + after;
    if before.len() > 0 {
        assert(s[0] == before[0]);
        assert(s.skip(1) =~= before.skip(1) + core + after);
        lemma_stripping_takes_the_ends_only(before.skip(1), core, after, c);
    } else if after.len() > 0 {
        if core.len() == 0 {
            assert(s[0] == after[0]);
            assert(s.skip(1) =~= before + core + after.skip(1));
            lemma_stripping_takes_the_ends_only(before, core, after.skip(1), c);
        } else {
            assert(s[0] == core[0]);
            assert(s.last() == after.last());
            assert(s.drop_last() =~= before + core + after.drop_last());
            lemma_stripping_takes_the_ends_only(before, core, after.drop_last(), c);
        }
    } else {
        assert(s =~= core);
    }
}

/// The pieces with a separator before each but the first.
proof fn lemma_joined_first(v: Seq<Seq<char>>, sep: Seq<char>)
    requires
        v.len() > 1,
    ensures
        joined(v, sep) == v[0] + sep + joined(v.skip(1), sep),
    decreases v.len(),
{
    let rest = v.skip(1);
    if v.len() == 2 {
        assert(v.drop_last() =~= seq![v[0]]);
        assert(joined(v.drop_last(), sep) == v[0]);
        assert(rest.len() == 1 && rest[0] == v[1]);
    } else {
        lemma_joined_first(v.drop_last(), sep);
        assert(v.drop_last().skip(1) =~= rest.drop_last());
        assert(joined(v, sep) =~= v[0] + sep + joined(rest, sep));
    }
}

/// Splitting undoes joining: pieces without the separator, joined by it, are cut
/// into the same pieces.
pub proof fn lemma_split_undoes_join(pieces: Seq<Seq<char>>, c: char)
    requires
        pieces.len() > 0,
        forall|i: int| 0 <= i < pieces.len() ==> !(#[trigger] pieces[i]).contains(c),
    ensures
        split(joined(pieces, seq![c]), c) == pieces,
    decreases pieces.len(),
{
    if pieces.len() == 1 {
        lemma_split_first(pieces[0], c, seq![]);
        assert(seq![pieces[0]] =~= pieces);
    } else {
        let rest = pieces.skip(1);
        assert forall|i: int| 0 <= i < rest.len() implies !(#[trigger] rest[i]).contains(c) by {
            assert(rest[i] == pieces[i + 1]);
        }
        lemma_split_undoes_join(rest, c);
        lemma_joined_first(pieces, seq![c]);
        lemma_split_first(pieces[0], c, joined(rest, seq![c]));
        assert(seq![pieces[0]] + rest =~= pieces);
    }
}

/// Joining undoes splitting: the pieces of a text hold no separator, and joined
/// by it they are the text again.
pub proof fn lemma_join_undoes_split(s: Seq<char>, c: char)
    ensures
        joined(split(s, c), seq![c]) == s,
        split(s, c).len() > 0,
        forall|i: int| 0 <= i < split(s, c).len() ==> !(#[trigger] split(s, c)[i]).contains(c),
    decreases s.len(),
{
    lemma_position_is_first(s, c);
    let i = position(s, c);
    if i < s.len() {
        let rest = s.skip(i + 1);
        lemma_join_undoes_split(rest, c);
        let v = split(s, c);
        assert(v.skip(1) =~= split(rest, c));
        lemma_joined_first(v, seq![c]);
        assert(s.take(i) + seq![c] + rest =~= s);
        assert forall|k: int| 0 <= k < v.len() implies !(#[trigger] v[k]).contains(c) by {
            if k > 0 {
                assert(v[k] == split(rest, c)[k - 1]);
            }
        }
    }
}

/// A line ends at a line feed, before which a carriage return does not belong to
/// it; what follows the line feed is cut into further lines; and a text without
/// a line feed is one line.
pub proof fn lemma_lines(line: Seq<char>, rest: Seq<char>)
    requires
        !line.contains('\n'),
    ensures
        lines(line + seq!['\n'] + rest) == seq![
            if line.len() > 0 && line.last() == '\r' {
                line.drop_last()
            } else {
                line
            },
        ] + lines(rest),
        line.len() > 0 ==> lines(line) == seq![line],
        lines(Seq::<char>::empty()) == Seq::<Seq<char>>::empty(),
{
    let s = line + seq!['\n'] + rest;
    lemma_position_of_first(line, '\n', rest);
    assert(s.take(line.len() as int) =~= line);
    assert(s.skip(line.len() as int + 1) =~= rest);
}

/// The first word runs up to the first white space, or to the end.
pub proof fn lemma_first_word(s: Seq<char>)
    ensures
        first_word(s).len() <= s.len(),
        first_word(s) == s.take(first_word(s).len() as int),
        forall|i: int| 0 <= i < first_word(s).len() ==> !is_space(#[trigger] first_word(s)[i]),
        first_word(s).len() < s.len() ==> is_space(s[first_word(s).len() as int]),
    decreases s.len(),
{
    if s.len() > 0 && !is_space(s[0]) {
        let t = s.skip(1);
        lemma_first_word(t);
        let n = first_word(t).len() as int;
        assert(word_len(t) == n) by {
            lemma_word_len(t);
        }
        assert forall|i: int| 0 <= i < first_word(s).len() implies !is_space(
            #[trigger] first_word(s)[i],
        ) by {
            if i > 0 {
                assert(first_word(t)[i - 1] == t[i - 1]);
            }
        }
    }
}

proof fn lemma_word_len(s: Seq<char>)
    ensures
        0 <= word_len(s) <= s.len(),
    decreases s.len(),
{
    if s.len() > 0 && !is_space(s[0]) {
        lemma_word_len(s.skip(1));
    }
}

/// Of two texts with a common start the first characters that differ decide, by
/// their code points, and a text stands before every longer one that it starts.
pub proof fn lemma_text_order(start: Seq<char>, c: char, x: Seq<char>, d: char, y: Seq<char>)
    ensures
        (c as u32) < (d as u32) ==> text_less(start + (seq![c] + x), start + (seq![d] + y)),
        text_less(start, start + (seq![c] + x)),
    decreases start.len(),
{
    let (a, b) = (start + (seq![c] + x), start + (seq![d] + y));
    if start.len() > 0 {
        lemma_text_order(start.skip(1), c, x, d, y);
        assert(a.skip(1) =~= start.skip(1) + (seq![c] + x));
        assert(b.skip(1) =~= start.skip(1) + (seq![d] + y));
    } else {
        assert(a[0] == c && b[0] == d);
    }
}

/// A decimal form holds the digits of a number, the last one for the units, and
/// no zero in front of them.
pub proof fn lemma_decimal_digits(n: nat, d: nat)
    requires
        d < 10,
    ensures
        n > 0 ==> decimal(n)[0] != '0',
        n > 0 ==> decimal(n * 10 + d) == decimal(n).push((('0' as u32) + d) as char),
        decimal(d) == seq![(('0' as u32) + d) as char],
        digits_value(decimal(n)) == n,
    decreases n,
{
    lemma_decimal_spells(n);
    assert(is_digit(decimal(n)[0]));
    if n >= 10 {
        lemma_decimal_digits(n / 10, d);
        assert(decimal(n)[0] == decimal(n / 10)[0]);
    } else if n > 0 {
        assert(digit_char(n as int) as int == '0' as int + n);
    }
    assert((n * 10 + d) / 10 == n && (n * 10 + d) % 10 == d);
}

/// Digits spell a number with a plus sign before them as without it, and with zeros
/// before them too; a text that is empty, or holds anything else behind the sign,
/// spells none.
pub proof fn lemma_spelled_numbers(s: Seq<char>, k: int)
    ensures
        all_digits(s) ==> spelled_number(s) == Some(digits_value(s)) && spelled_number(
            seq!['+'] + s,
        ) == Some(digits_value(s)) && spelled_number(seq!['0'] + s) == Some(digits_value(s)),
        s.len() == 0 ==> spelled_number(s) is None,
        0 <= k < s.len() && !('0' <= s[k] <= '9') && (k > 0 || s[0] != '+') ==> spelled_number(
            s,
        ) is None,
{
    if all_digits(s) {
        assert(is_digit(s[0]));
        let signed = seq!['+'] + s;
        assert(signed.skip(1) =~= s);
        let longer = seq!['0'] + s;
        assert forall|i: int| 0 <= i < longer.len() implies is_digit(#[trigger] longer[i]) by {
            if i > 0 {
                assert(is_digit(s[i - 1]));
            }
        }
        lemma_zero_in_front(s);
    }
    if 0 <= k < s.len() && !('0' <= s[k] <= '9') && (k > 0 || s[0] != '+') {
        let u = without_plus(s);
        if s[0] == '+' {
            assert(u[k - 1] == s[k]);
            assert(!is_digit(u[k - 1]));
        } else {
            assert(!is_digit(u[k]));
        }
    }
}

proof fn lemma_zero_in_front(s: Seq<char>)
    ensures
        digits_value(seq!['0'] + s) == digits_value(s),
    decreases s.len(),
{
    let longer = seq!['0'] + s;
    if s.len() > 0 {
        lemma_zero_in_front(s.drop_last());
        assert(longer.drop_last() =~= seq!['0'] + s.drop_last());
    } else {
        assert(longer.drop_last() =~= seq![]);
        assert(digits_value(longer.drop_last()) == 0);
    }
}

} // verus!
