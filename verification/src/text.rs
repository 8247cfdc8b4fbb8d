//! Character-level text operations and the functions they compute.

use vstd::prelude::*;

verus! {

/// `String::push` appends one character to the end of the string.
pub assume_specification[ String::push ](s: &mut String, ch: char)
    ensures
        final(s)@ == old(s)@.push(ch),
;

/// Whether a character has the Unicode `White_Space` property.
pub open spec fn is_white(c: char) -> bool {
    let n = c as u32;
    ||| 0x9 <= n <= 0xd
    ||| n == 0x20
    ||| n == 0x85
    ||| n == 0xa0
    ||| n == 0x1680
    ||| 0x2000 <= n <= 0x200a
    ||| n == 0x2028
    ||| n == 0x2029
    ||| n == 0x202f
    ||| n == 0x205f
    ||| n == 0x3000
}

/// Whether a character is white space.
pub fn is_whitespace(c: char) -> (r: bool)
    ensures
        r == is_white(c),
{
    let n: u32 = c as u32;
    (0x9 <= n && n <= 0xd) || n == 0x20 || n == 0x85 || n == 0xa0 || n == 0x1680 || (0x2000 <= n
        && n <= 0x200a) || n == 0x2028 || n == 0x2029 || n == 0x202f || n == 0x205f || n == 0x3000
}

/// The characters of a string, in order.
pub fn to_chars(s: &str) -> (r: Vec<char>)
    ensures
        r@ == s@,
{
    let mut out: Vec<char> = Vec::new();
    for c in it: s.chars()
        invariant
            it.seq() == s@,
            out@ == s@.take(it.index() as int),
    {
        out.push(c);
    }
    out
}

/// The string made of the given characters.
pub fn from_chars(chars: &Vec<char>) -> (r: String)
    ensures
        r@ == chars@,
{
    let mut out: String = String::new();
    let mut i: usize = 0;
    while i < chars.len()
        invariant
            i <= chars.len(),
            out@ == chars@.take(i as int),
        decreases chars.len() - i,
    {
        out.push(chars[i]);
        i += 1;
    }
    out
}

/// A contiguous part of a character vector.
pub fn part(chars: &Vec<char>, from: usize, to: usize) -> (r: Vec<char>)
    requires
        from <= to <= chars.len(),
    ensures
        r@ == chars@.subrange(from as int, to as int),
{
    let mut out: Vec<char> = Vec::new();
    let mut i: usize = from;
    while i < to
        invariant
            from <= i <= to <= chars.len(),
            out@ == chars@.subrange(from as int, i as int),
        decreases to - i,
    {
        out.push(chars[i]);
        i += 1;
    }
    out
}

/// Whether two strings hold the same characters.
pub fn same_text(left: &str, right: &str) -> (r: bool)
    ensures
        r == (left@ == right@),
{
    left.to_owned() == right.to_owned()
}

// ---------------------------------------------------------------------
// Searching
// ---------------------------------------------------------------------

/// Index of the first occurrence of `c`, or the length when there is none.
pub open spec fn first_index(s: Seq<char>, c: char) -> int
    decreases s.len(),
{
    if s.len() == 0 || s[0] == c {
        0
    } else {
        1 + first_index(s.drop_first(), c)
    }
}

/// `first_index` is the only index with no occurrence before it that holds an
/// occurrence or is the length.
pub proof fn lemma_first_index(s: Seq<char>, c: char, at: int)
    requires
        0 <= at <= s.len(),
        forall|j: int| 0 <= j < at ==> s[j] != c,
        at < s.len() ==> s[at] == c,
    ensures
        first_index(s, c) == at,
    decreases s.len(),
{
    if at > 0 {
        let rest = s.drop_first();
        assert forall|j: int| 0 <= j < at - 1 implies rest[j] != c by {
            assert(rest[j] == s[j + 1]);
        }
        lemma_first_index(rest, c, at - 1);
    }
}

/// Index of the first `c` at or after `from`, or the length.
pub fn find_char(chars: &Vec<char>, from: usize, c: char) -> (r: usize)
    requires
        from <= chars.len(),
    ensures
        r == from + first_index(chars@.skip(from as int), c),
        from <= r <= chars.len(),
        r < chars.len() ==> chars[r as int] == c,
{
    let mut i: usize = from;
    while i < chars.len() && chars[i] != c
        invariant
            from <= i <= chars.len(),
            forall|j: int| from <= j < i ==> chars[j] != c,
        decreases chars.len() - i,
    {
        i += 1;
    }
    proof {
        let rest = chars@.skip(from as int);
        assert forall|j: int| 0 <= j < i - from implies rest[j] != c by {
            assert(rest[j] == chars@[j + from]);
        }
        lemma_first_index(rest, c, i - from);
    }
    i
}

/// Whether `pattern` stands in `s` at index `at`.
pub open spec fn stands_at(s: Seq<char>, pattern: Seq<char>, at: int) -> bool {
    &&& 0 <= at
    &&& at + pattern.len() <= s.len()
    &&& s.subrange(at, at + pattern.len()) == pattern
}

/// Whether `s` begins with `pattern`.
pub open spec fn begins_with(s: Seq<char>, pattern: Seq<char>) -> bool {
    stands_at(s, pattern, 0)
}

/// Whether `pattern` stands anywhere in `s`.
pub open spec fn holds_text(s: Seq<char>, pattern: Seq<char>) -> bool {
    exists|at: int| stands_at(s, pattern, at)
}

fn matches_at(chars: &Vec<char>, pattern: &Vec<char>, at: usize) -> (r: bool)
    requires
        at <= chars.len(),
    ensures
        r == stands_at(chars@, pattern@, at as int),
{
    if pattern.len() > chars.len() - at {
        return false;
    }
    let mut i: usize = 0;
    while i < pattern.len()
        invariant
            i <= pattern.len(),
            at + pattern.len() <= chars.len(),
            forall|j: int| 0 <= j < i ==> chars[at + j] == pattern[j],
        decreases pattern.len() - i,
    {
        if chars[at + i] != pattern[i] {
            assert(chars@.subrange(at as int, at + pattern.len())[i as int] != pattern@[i as int]);
            return false;
        }
        i += 1;
    }
    assert(chars@.subrange(at as int, at + pattern.len()) =~= pattern@);
    true
}

/// Whether `chars` begins with `pattern`.
pub fn starts_with(chars: &Vec<char>, pattern: &str) -> (r: bool)
    ensures
        r == begins_with(chars@, pattern@),
{
    matches_at(chars, &to_chars(pattern), 0)
}

/// Whether `pattern` stands anywhere in `chars`.
pub fn contains(chars: &Vec<char>, pattern: &str) -> (r: bool)
    ensures
        r == holds_text(chars@, pattern@),
{
    let pattern_chars = to_chars(pattern);
    let mut at: usize = 0;
    while at < chars.len()
        invariant
            at <= chars.len(),
            pattern_chars@ == pattern@,
            forall|j: int| 0 <= j < at ==> !stands_at(chars@, pattern@, j),
        decreases chars.len() - at,
    {
        if matches_at(chars, &pattern_chars, at) {
            return true;
        }
        at += 1;
    }
    let last = matches_at(chars, &pattern_chars, at);
    assert(!last ==> forall|j: int| !stands_at(chars@, pattern@, j));
    last
}

// ---------------------------------------------------------------------
// Trimming
// ---------------------------------------------------------------------

/// `s` without its leading white space.
pub open spec fn trimmed_start(s: Seq<char>) -> Seq<char>
    decreases s.len(),
{
    if s.len() > 0 && is_white(s[0]) {
        trimmed_start(s.drop_first())
    } else {
        s
    }
}

/// `s` without its trailing white space.
pub open spec fn trimmed_end(s: Seq<char>) -> Seq<char>
    decreases s.len(),
{
    if s.len() > 0 && is_white(s.last()) {
        trimmed_end(s.drop_last())
    } else {
        s
    }
}

/// `s` without leading and trailing white space.
pub open spec fn trimmed(s: Seq<char>) -> Seq<char> {
    trimmed_end(trimmed_start(s))
}

/// `s` without the leading run of `c`.
pub open spec fn stripped_start(s: Seq<char>, c: char) -> Seq<char>
    decreases s.len(),
{
    if s.len() > 0 && s[0] == c {
        stripped_start(s.drop_first(), c)
    } else {
        s
    }
}

/// `s` without the trailing run of `c`.
pub open spec fn stripped_end(s: Seq<char>, c: char) -> Seq<char>
    decreases s.len(),
{
    if s.len() > 0 && s.last() == c {
        stripped_end(s.drop_last(), c)
    } else {
        s
    }
}

/// `s` without the runs of `c` at both ends.
pub open spec fn stripped(s: Seq<char>, c: char) -> Seq<char> {
    stripped_end(stripped_start(s, c), c)
}

/// Drop leading white space.
pub fn trim_start(chars: &Vec<char>) -> (r: Vec<char>)
    ensures
        r@ == trimmed_start(chars@),
{
    let mut from: usize = 0;
    assert(chars@.skip(0) =~= chars@);
    while from < chars.len() && is_whitespace(chars[from])
        invariant
            from <= chars.len(),
            trimmed_start(chars@) == trimmed_start(chars@.skip(from as int)),
        decreases chars.len() - from,
    {
        assert(chars@.skip(from as int).drop_first() =~= chars@.skip(from + 1));
        from += 1;
    }
    part(chars, from, chars.len())
}

/// Drop trailing white space.
pub fn trim_end(chars: &Vec<char>) -> (r: Vec<char>)
    ensures
        r@ == trimmed_end(chars@),
{
    let mut to: usize = chars.len();
    assert(chars@.take(to as int) =~= chars@);
    while to > 0 && is_whitespace(chars[to - 1])
        invariant
            to <= chars.len(),
            trimmed_end(chars@) == trimmed_end(chars@.take(to as int)),
        decreases to,
    {
        assert(chars@.take(to as int).drop_last() =~= chars@.take(to - 1));
        to -= 1;
    }
    part(chars, 0, to)
}

/// Drop white space at both ends.
pub fn trim(chars: &Vec<char>) -> (r: Vec<char>)
    ensures
        r@ == trimmed(chars@),
{
    trim_end(&trim_start(chars))
}

/// Drop the runs of `c` at both ends.
pub fn strip_char(chars: &Vec<char>, c: char) -> (r: Vec<char>)
    ensures
        r@ == stripped(chars@, c),
{
    let mut from: usize = 0;
    assert(chars@.skip(0) =~= chars@);
    while from < chars.len() && chars[from] == c
        invariant
            from <= chars.len(),
            stripped_start(chars@, c) == stripped_start(chars@.skip(from as int), c),
        decreases chars.len() - from,
    {
        assert(chars@.skip(from as int).drop_first() =~= chars@.skip(from + 1));
        from += 1;
    }
    let ghost front = chars@.skip(from as int);
    let mut to: usize = chars.len();
    assert(front.take(to - from) =~= front);
    while to > from && chars[to - 1] == c
        invariant
            from <= to <= chars.len(),
            front == chars@.skip(from as int),
            stripped_end(front, c) == stripped_end(front.take(to - from), c),
        decreases to,
    {
        assert(front.take(to - from).drop_last() =~= front.take(to - from - 1));
        to -= 1;
    }
    assert(chars@.subrange(from as int, to as int) =~= front.take(to - from));
    part(chars, from, to)
}

/// Whether a string is empty or white space only.
pub fn is_blank(s: &str) -> (r: bool)
    ensures
        r == (trimmed(s@).len() == 0),
{
    trim(&to_chars(s)).len() == 0
}

// ---------------------------------------------------------------------
// Splitting
// ---------------------------------------------------------------------

/// The pieces of `s` between occurrences of `c`; at least one.
pub open spec fn pieces(s: Seq<char>, c: char) -> Seq<Seq<char>>
    decreases s.len(),
{
    let n = first_index(s, c);
    if 0 <= n < s.len() {
        seq![s.take(n)] + pieces(s.skip(n + 1), c)
    } else {
        seq![s]
    }
}

/// `s` without one trailing carriage return.
pub open spec fn without_cr(s: Seq<char>) -> Seq<char> {
    if s.len() > 0 && s.last() == '\r' {
        s.drop_last()
    } else {
        s
    }
}

/// The lines of `s`: each ends at a line feed, which is dropped along with one
/// carriage return before it; text after the last line feed is a line if any
/// is there.
pub open spec fn lines_of(s: Seq<char>) -> Seq<Seq<char>>
    decreases s.len(),
{
    let n = first_index(s, '\n');
    if s.len() == 0 {
        seq![]
    } else if 0 <= n < s.len() {
        seq![without_cr(s.take(n))] + lines_of(s.skip(n + 1))
    } else {
        seq![s]
    }
}

/// The character sequences of a vector of vectors.
pub open spec fn views(v: Seq<Vec<char>>) -> Seq<Seq<char>> {
    v.map_values(|x: Vec<char>| x@)
}

/// The character sequences of a vector of strings.
pub open spec fn texts(v: Seq<String>) -> Seq<Seq<char>> {
    v.map_values(|x: String| x@)
}

/// Split at every `c`.
pub fn split(chars: &Vec<char>, c: char) -> (r: Vec<Vec<char>>)
    ensures
        views(r@) == pieces(chars@, c),
{
    let mut out: Vec<Vec<char>> = Vec::new();
    let mut from: usize = 0;
    assert(chars@.skip(0) =~= chars@);
    assert(views(out@) + pieces(chars@, c) =~= pieces(chars@, c));
    loop
        invariant
            from <= chars.len(),
            views(out@) + pieces(chars@.skip(from as int), c) == pieces(chars@, c),
        decreases chars.len() - from,
    {
        let at: usize = find_char(chars, from, c);
        let piece = part(chars, from, at);
        let ghost rest = chars@.skip(from as int);
        let ghost before = views(out@);
        assert(piece@ =~= rest.take(at - from));
        out.push(piece);
        assert(views(out@) =~= before.push(piece@));
        if at == chars.len() {
            assert(rest.take(at - from) =~= rest);
            assert(before + seq![rest] =~= before.push(rest));
            return out;
        }
        assert(rest.skip(at - from + 1) =~= chars@.skip(at + 1));
        assert(before + (seq![piece@] + pieces(chars@.skip(at + 1), c)) =~= before.push(piece@)
            + pieces(chars@.skip(at + 1), c));
        from = at + 1;
    }
}

/// Split into lines.
pub fn lines(chars: &Vec<char>) -> (r: Vec<Vec<char>>)
    ensures
        views(r@) == lines_of(chars@),
{
    let mut out: Vec<Vec<char>> = Vec::new();
    let mut from: usize = 0;
    assert(chars@.skip(0) =~= chars@);
    assert(views(out@) + lines_of(chars@) =~= lines_of(chars@));
    while from < chars.len()
        invariant
            from <= chars.len(),
            views(out@) + lines_of(chars@.skip(from as int)) == lines_of(chars@),
        decreases chars.len() - from,
    {
        let at: usize = find_char(chars, from, '\n');
        let ghost rest = chars@.skip(from as int);
        let ghost before = views(out@);
        let to: usize = if at < chars.len() && at > from && chars[at - 1] == '\r' {
            at - 1
        } else {
            at
        };
        let line = part(chars, from, to);
        out.push(line);
        assert(views(out@) =~= before.push(line@));
        if at == chars.len() {
            assert(line@ =~= rest);
            assert(before + seq![rest] =~= before.push(rest));
            from = at;
            assert(views(out@) + lines_of(chars@.skip(from as int)) =~= views(out@));
        } else {
            assert(rest.take(at - from).last() == chars@[at - 1] || at == from);
            assert(line@ =~= without_cr(rest.take(at - from)));
            assert(rest.skip(at - from + 1) =~= chars@.skip(at + 1));
            assert(before + (seq![line@] + lines_of(chars@.skip(at + 1))) =~= before.push(line@)
                + lines_of(chars@.skip(at + 1)));
            from = at + 1;
        }
    }
    assert(views(out@) + lines_of(chars@.skip(from as int)) =~= views(out@));
    out
}

// ---------------------------------------------------------------------
// Laws
// ---------------------------------------------------------------------

/// Trimming the start takes away white space only, and all of it that is at the start: it cuts
/// the text at the returned place.
pub proof fn law_trimming_the_start(s: Seq<char>) -> (cut: int)
    ensures
        0 <= cut <= s.len(),
        trimmed_start(s) == s.skip(cut),
        forall|i: int| 0 <= i < cut ==> is_white(#[trigger] s[i]),
        cut < s.len() ==> !is_white(s[cut]),
    decreases s.len(),
{
    if s.len() > 0 && is_white(s[0]) {
        let rest = s.drop_first();
        let cut = law_trimming_the_start(rest);
        assert(rest.skip(cut) =~= s.skip(cut + 1));
        assert forall|i: int| 0 <= i < cut + 1 implies is_white(#[trigger] s[i]) by {
            if i > 0 {
                assert(s[i] == rest[i - 1]);
            }
        }
        if cut < rest.len() {
            assert(s[cut + 1] == rest[cut]);
        }
        cut + 1
    } else {
        assert(s.skip(0) =~= s);
        0
    }
}

proof fn lemma_trimming_the_end(s: Seq<char>) -> (end: int)
    ensures
        0 <= end <= s.len(),
        trimmed_end(s) == s.take(end),
        forall|i: int| end <= i < s.len() ==> is_white(#[trigger] s[i]),
        end > 0 ==> !is_white(s[end - 1]),
    decreases s.len(),
{
    if s.len() > 0 && is_white(s.last()) {
        let front = s.drop_last();
        let end = lemma_trimming_the_end(front);
        assert(front.take(end) =~= s.take(end));
        assert forall|i: int| end <= i < s.len() implies is_white(#[trigger] s[i]) by {
            if i < front.len() {
                assert(s[i] == front[i]);
            }
        }
        if end > 0 {
            assert(s[end - 1] == front[end - 1]);
        }
        end
    } else {
        assert(s.take(s.len() as int) =~= s);
        s.len() as int
    }
}

/// Trimming takes away white space only, and all of it that is at either end: it keeps what
/// stands between the two returned places.
pub proof fn law_trimming(s: Seq<char>) -> (cut: (int, int))
    ensures
        0 <= cut.0 <= cut.1 <= s.len(),
        trimmed(s) == s.subrange(cut.0, cut.1),
        forall|i: int| 0 <= i < cut.0 || cut.1 <= i < s.len() ==> is_white(#[trigger] s[i]),
        cut.0 < cut.1 ==> !is_white(s[cut.0]) && !is_white(s[cut.1 - 1]),
{
    let start = law_trimming_the_start(s);
    let rest = s.skip(start);
    let end = lemma_trimming_the_end(rest);
    assert(rest.take(end) =~= s.subrange(start, start + end));
    assert forall|i: int| 0 <= i < start || start + end <= i < s.len() implies is_white(
        #[trigger] s[i],
    ) by {
        if i >= start {
            assert(s[i] == rest[i - start]);
        }
    }
    if end > 0 {
        assert(rest[end - 1] == s[start + end - 1]);
        assert(rest[0] == s[start]);
    }
    (start, start + end)
}

/// A text without white space at its ends is left as it is by trimming.
pub proof fn lemma_trimmed_already(s: Seq<char>)
    requires
        s.len() > 0 ==> !is_white(s[0]) && !is_white(s.last()),
    ensures
        trimmed(s) == s,
        trimmed_start(s) == s,
{
}

/// Pieces put together again, with a character between them.
pub open spec fn joined(parts: Seq<Seq<char>>, c: char) -> Seq<char>
    decreases parts.len(),
{
    if parts.len() == 0 {
        seq![]
    } else if parts.len() == 1 {
        parts[0]
    } else {
        parts[0] + seq![c] + joined(parts.drop_first(), c)
    }
}

/// Splitting takes a text apart at the separator and nowhere else: no piece holds it, and the
/// pieces with separators between them are the text.
pub proof fn law_splitting(s: Seq<char>, c: char)
    ensures
        pieces(s, c).len() >= 1,
        joined(pieces(s, c), c) == s,
        forall|i: int, j: int|
            0 <= i < pieces(s, c).len() && 0 <= j < pieces(s, c)[i].len() ==> #[trigger] pieces(
                s,
                c,
            )[i][j] != c,
    decreases s.len(),
{
    let n = first_index(s, c);
    lemma_first_index_holds(s, c);
    if 0 <= n < s.len() {
        let rest = s.skip(n + 1);
        law_splitting(rest, c);
        let all = pieces(s, c);
        assert(all.drop_first() =~= pieces(rest, c));
        assert(s.take(n) + seq![c] + rest =~= s);
        assert forall|i: int, j: int|
            0 <= i < all.len() && 0 <= j < all[i].len() implies #[trigger] all[i][j] != c by {
            if i > 0 {
                assert(all[i] == pieces(rest, c)[i - 1]);
                assert(pieces(rest, c)[i - 1][j] != c);
            } else {
                assert(all[0] == s.take(n));
            }
        }
    } else {
        assert(pieces(s, c)[0] == s);
    }
}

/// The first place of a character is one that holds it, or the end of the text, and no place
/// before it does.
pub proof fn lemma_first_index_holds(s: Seq<char>, c: char)
    ensures
        0 <= first_index(s, c) <= s.len(),
        first_index(s, c) < s.len() ==> s[first_index(s, c)] == c,
        forall|i: int| 0 <= i < first_index(s, c) ==> #[trigger] s[i] != c,
    decreases s.len(),
{
    if s.len() > 0 && s[0] != c {
        let rest = s.drop_first();
        lemma_first_index_holds(rest, c);
        assert forall|i: int| 0 <= i < first_index(s, c) implies #[trigger] s[i] != c by {
            if i > 0 {
                assert(s[i] == rest[i - 1]);
            }
        }
        if first_index(rest, c) < rest.len() {
            assert(s[first_index(s, c)] == rest[first_index(rest, c)]);
        }
    }
}

/// A text that holds the separator once in front of a rest is split there first.
pub proof fn law_splitting_off_the_first(first: Seq<char>, c: char, rest: Seq<char>)
    requires
        forall|i: int| 0 <= i < first.len() ==> #[trigger] first[i] != c,
    ensures
        pieces(first + seq![c] + rest, c) == seq![first] + pieces(rest, c),
        pieces(first, c) == seq![first],
{
    let s = first + seq![c] + rest;
    lemma_first_index(s, c, first.len() as int);
    assert(s.take(first.len() as int) =~= first);
    assert(s.skip((first.len() + 1) as int) =~= rest);
    lemma_first_index(first, c, first.len() as int);
}

/// A line ends at its line feed, with or without a carriage return before it, and the lines after
/// it are those of the rest; a text without a line feed is one line, unless it is empty.
pub proof fn law_lines_end_at_line_feeds(line: Seq<char>, rest: Seq<char>)
    requires
        forall|i: int| 0 <= i < line.len() ==> #[trigger] line[i] != '\n',
        line.len() > 0 ==> line.last() != '\r',
    ensures
        lines_of(line + seq!['\n'] + rest) == seq![line] + lines_of(rest),
        lines_of(line + seq!['\r', '\n'] + rest) == seq![line] + lines_of(rest),
        line.len() > 0 ==> lines_of(line) == seq![line],
        lines_of(Seq::<char>::empty()).len() == 0,
{
    let n = line.len() as int;
    let s = line + seq!['\n'] + rest;
    assert(s[n] == '\n');
    lemma_first_index(s, '\n', n);
    assert(s.take(n) =~= line);
    assert(s.skip(n + 1) =~= rest);
    let t = line + seq!['\r', '\n'] + rest;
    assert(t[n] == '\r');
    assert(t[n + 1] == '\n');
    assert forall|i: int| 0 <= i < n + 1 implies #[trigger] t[i] != '\n' by {
        if i < n {
            assert(t[i] == line[i]);
        }
    }
    lemma_first_index(t, '\n', n + 1);
    assert(t.take(n + 1) =~= line.push('\r'));
    assert(t.take(n + 1).drop_last() =~= line);
    assert(t.skip(n + 2) =~= rest);
    lemma_first_index(line, '\n', n);
}

/// Stripping takes the character away from both ends, as often as it stands there, and leaves
/// what is between.
pub proof fn law_stripping(middle: Seq<char>, c: char, front: nat, back: nat)
    requires
        middle.len() > 0,
        middle[0] != c,
        middle.last() != c,
    ensures
        stripped(
            Seq::new(front, |i: int| c) + middle + Seq::new(back, |i: int| c),
            c,
        ) == middle,
        stripped(Seq::new(front, |i: int| c), c).len() == 0,
{
    let tail = middle + Seq::new(back, |i: int| c);
    lemma_stripped_start(tail, c, front);
    assert(Seq::new(front, |i: int| c) + middle + Seq::new(back, |i: int| c) =~= Seq::new(
        front,
        |i: int| c,
    ) + tail);
    lemma_stripped_end(middle, c, back);
    lemma_stripped_start(Seq::<char>::empty(), c, front);
    assert(Seq::new(front, |i: int| c) + Seq::<char>::empty() =~= Seq::new(front, |i: int| c));
}

proof fn lemma_stripped_start(rest: Seq<char>, c: char, n: nat)
    requires
        rest.len() > 0 ==> rest[0] != c,
    ensures
        stripped_start(Seq::new(n, |i: int| c) + rest, c) == rest,
    decreases n,
{
    let s = Seq::new(n, |i: int| c) + rest;
    if n > 0 {
        lemma_stripped_start(rest, c, (n - 1) as nat);
        assert(s[0] == c);
        assert(s.drop_first() =~= Seq::new((n - 1) as nat, |i: int| c) + rest);
    } else {
        assert(s =~= rest);
    }
}

proof fn lemma_stripped_end(front: Seq<char>, c: char, n: nat)
    requires
        front.len() > 0 ==> front.last() != c,
    ensures
        stripped_end(front + Seq::new(n, |i: int| c), c) == front,
    decreases n,
{
    let s = front + Seq::new(n, |i: int| c);
    if n > 0 {
        lemma_stripped_end(front, c, (n - 1) as nat);
        assert(s.last() == c);
        assert(s.drop_last() =~= front + Seq::new((n - 1) as nat, |i: int| c));
    } else {
        assert(s =~= front);
    }
}

/// White space is what Unicode lists as such.
pub proof fn law_white_space_is_listed(c: char)
    ensures
        is_white(c) <==> seq![
            0x9u32,
            0xa,
            0xb,
            0xc,
            0xd,
            0x20,
            0x85,
            0xa0,
            0x1680,
            0x2000,
            0x2001,
            0x2002,
            0x2003,
            0x2004,
            0x2005,
            0x2006,
            0x2007,
            0x2008,
            0x2009,
            0x200a,
            0x2028,
            0x2029,
            0x202f,
            0x205f,
            0x3000,
        ].contains(c as u32),
{
    let listed = seq![
        0x9u32,
        0xa,
        0xb,
        0xc,
        0xd,
        0x20,
        0x85,
        0xa0,
        0x1680,
        0x2000,
        0x2001,
        0x2002,
        0x2003,
        0x2004,
        0x2005,
        0x2006,
        0x2007,
        0x2008,
        0x2009,
        0x200a,
        0x2028,
        0x2029,
        0x202f,
        0x205f,
        0x3000,
    ];
    let n = c as u32;
    if is_white(c) {
        let at: int = if n <= 0xd {
            n - 0x9
        } else if n == 0x20 {
            5
        } else if n == 0x85 {
            6
        } else if n == 0xa0 {
            7
        } else if n == 0x1680 {
            8
        } else if n <= 0x200a {
            n - 0x2000 + 9
        } else if n == 0x2028 {
            20
        } else if n == 0x2029 {
            21
        } else if n == 0x202f {
            22
        } else if n == 0x205f {
            23
        } else {
            24
        };
        assert(listed[at] == n);
    }
}

} // verus!
