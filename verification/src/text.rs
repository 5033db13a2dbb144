//! Character-sequence helpers shared by the parsers and planners.
//!
//! Strings are viewed as `Seq<char>`; the executable helpers work on
//! `Vec<char>` buffers obtained from `chars_of` and turned back into a
//! `String` with `string_of`.

use vstd::prelude::*;
use vstd::string::StringExecFns;

verus! {

/// `String::push` appends one character to the end of the string.
pub assume_specification[ String::push ](s: &mut String, c: char)
    ensures
        final(s)@ == old(s)@.push(c),
;

/// The views of a list of strings, in order.
pub open spec fn views(v: Seq<String>) -> Seq<Seq<char>> {
    Seq::new(v.len(), |i: int| v[i]@)
}

/// The views of a list of character buffers, in order.
pub open spec fn buffers(v: Seq<Vec<char>>) -> Seq<Seq<char>> {
    Seq::new(v.len(), |i: int| v[i]@)
}

/// `needle` occurs in `hay` at offset `i`.
pub open spec fn matches_at<T>(hay: Seq<T>, needle: Seq<T>, i: int) -> bool {
    0 <= i && i + needle.len() <= hay.len() && hay.subrange(i, i + needle.len()) == needle
}

/// Offset of the first occurrence of `needle` in `hay` at or after `from`.
pub open spec fn find_from<T>(hay: Seq<T>, needle: Seq<T>, from: int) -> Option<int>
    decreases hay.len() + 1 - from,
{
    if from < 0 || from + needle.len() > hay.len() {
        None
    } else if matches_at(hay, needle, from) {
        Some(from)
    } else {
        find_from(hay, needle, from + 1)
    }
}

/// Offset of the first occurrence of `needle` in `hay`.
pub open spec fn find<T>(hay: Seq<T>, needle: Seq<T>) -> Option<int> {
    find_from(hay, needle, 0)
}

/// `needle` occurs somewhere in `hay`.
pub open spec fn contains<T>(hay: Seq<T>, needle: Seq<T>) -> bool {
    find(hay, needle) is Some
}

/// `hay` begins with `needle`.
pub open spec fn starts_with<T>(hay: Seq<T>, needle: Seq<T>) -> bool {
    matches_at(hay, needle, 0)
}

/// `hay` ends with `needle`.
pub open spec fn ends_with<T>(hay: Seq<T>, needle: Seq<T>) -> bool {
    matches_at(hay, needle, hay.len() - needle.len())
}

/// Position of the first `c` in `s` at or after `from`; `s.len()` when there is none.
pub open spec fn char_pos(s: Seq<char>, c: char, from: int) -> int
    decreases s.len() - from,
{
    if from < 0 || from >= s.len() {
        s.len() as int
    } else if s[from] == c {
        from
    } else {
        char_pos(s, c, from + 1)
    }
}

/// Position of the last `c` in the first `upto` characters of `s`, if any.
pub open spec fn last_char_pos(s: Seq<char>, c: char, upto: int) -> Option<int>
    decreases upto,
{
    if upto <= 0 || upto > s.len() {
        None
    } else if s[upto - 1] == c {
        Some(upto - 1)
    } else {
        last_char_pos(s, c, upto - 1)
    }
}

/// The pieces of `s` between occurrences of `sep`; never empty.
pub open spec fn split_on(s: Seq<char>, sep: char) -> Seq<Seq<char>>
    decreases s.len(),
{
    let i = char_pos(s, sep, 0);
    if 0 <= i < s.len() {
        seq![s.take(i)] + split_on(s.skip(i + 1), sep)
    } else {
        seq![s]
    }
}

/// The pieces joined again, with `sep` between neighbours.
pub open spec fn join_with(parts: Seq<Seq<char>>, sep: Seq<char>) -> Seq<char>
    decreases parts.len(),
{
    if parts.len() == 0 {
        Seq::empty()
    } else if parts.len() == 1 {
        parts[0]
    } else {
        join_with(parts.drop_last(), sep) + sep + parts.last()
    }
}

/// `c` is one of the ten ASCII digits.
pub open spec fn is_digit(c: char) -> bool {
    '0' <= c <= '9'
}

/// Value of an ASCII digit.
pub open spec fn digit_value(c: char) -> nat {
    (c as u32 - '0' as u32) as nat
}

/// Every character of `s` is an ASCII digit.
pub open spec fn all_digits(s: Seq<char>) -> bool {
    forall|i: int| 0 <= i < s.len() ==> is_digit(#[trigger] s[i])
}

/// Value of a run of decimal digits, most significant first.
pub open spec fn decimal_value(s: Seq<char>) -> nat
    decreases s.len(),
{
    if s.len() == 0 {
        0
    } else {
        decimal_value(s.drop_last()) * 10 + digit_value(s.last())
    }
}

/// The digits of an unsigned decimal literal: an optional `+`, then the digits.
pub open spec fn unsigned_digits(s: Seq<char>) -> Seq<char> {
    if s.len() > 0 && s[0] == '+' {
        s.skip(1)
    } else {
        s
    }
}

/// What parsing `s` as an unsigned decimal number bounded by `max` gives:
/// an optional `+`, at least one digit, nothing else, and a value that fits.
pub open spec fn parse_unsigned(s: Seq<char>, max: nat) -> Option<nat> {
    let d = unsigned_digits(s);
    if d.len() > 0 && all_digits(d) && decimal_value(d) <= max {
        Some(decimal_value(d))
    } else {
        None
    }
}

/// Length of the longest run of ASCII digits at the start of `s`.
pub open spec fn digit_run(s: Seq<char>) -> int
    decreases s.len(),
{
    if s.len() > 0 && is_digit(s[0]) {
        1 + digit_run(s.skip(1))
    } else {
        0
    }
}

/// `a` comes strictly before `b` in lexicographic order of code points.
pub open spec fn lex_lt(a: Seq<char>, b: Seq<char>) -> bool
    decreases a.len(),
{
    if b.len() == 0 {
        false
    } else if a.len() == 0 {
        true
    } else if a[0] != b[0] {
        a[0] < b[0]
    } else {
        lex_lt(a.skip(1), b.skip(1))
    }
}

/// A first occurrence found by `find_from` is an occurrence, and the first one.
pub proof fn lemma_find_from<T>(hay: Seq<T>, needle: Seq<T>, from: int)
    requires
        0 <= from,
    ensures
        match find_from(hay, needle, from) {
            Some(i) => from <= i && matches_at(hay, needle, i) && forall|j: int|
                from <= j < i ==> !matches_at(hay, needle, j),
            None => forall|j: int| from <= j ==> !matches_at(hay, needle, j),
        },
    decreases hay.len() + 1 - from,
{
    if from + needle.len() > hay.len() {
    } else if matches_at(hay, needle, from) {
    } else {
        lemma_find_from(hay, needle, from + 1);
    }
}

/// `find_from` is determined by the first matching offset.
pub proof fn lemma_find_from_is<T>(hay: Seq<T>, needle: Seq<T>, from: int, at: int)
    requires
        0 <= from <= at,
        matches_at(hay, needle, at),
        forall|j: int| from <= j < at ==> !matches_at(hay, needle, j),
    ensures
        find_from(hay, needle, from) == Some(at),
    decreases at - from,
{
    if from < at {
        lemma_find_from_is(hay, needle, from + 1, at);
    }
}

/// `find_from` finds nothing where no offset matches.
pub proof fn lemma_find_from_none<T>(hay: Seq<T>, needle: Seq<T>, from: int)
    requires
        0 <= from,
        forall|j: int| from <= j ==> !matches_at(hay, needle, j),
    ensures
        find_from(hay, needle, from) is None,
    decreases hay.len() + 1 - from,
{
    if from + needle.len() <= hay.len() {
        lemma_find_from_none(hay, needle, from + 1);
    }
}

/// `char_pos` is determined by the first position that holds the character.
pub proof fn lemma_char_pos_is(s: Seq<char>, c: char, from: int, at: int)
    requires
        0 <= from <= at <= s.len(),
        forall|j: int| from <= j < at ==> s[j] != c,
        at < s.len() ==> s[at] == c,
    ensures
        char_pos(s, c, from) == at,
    decreases at - from,
{
    if from < at {
        lemma_char_pos_is(s, c, from + 1, at);
    }
}

/// `last_char_pos` is determined by the last position that holds the character.
pub proof fn lemma_last_char_pos_is(s: Seq<char>, c: char, upto: int, at: int)
    requires
        0 <= at <= upto <= s.len(),
        forall|j: int| at <= j < upto ==> s[j] != c,
        at > 0 ==> s[at - 1] == c,
    ensures
        last_char_pos(s, c, upto) == (if at > 0 {
            Some(at - 1)
        } else {
            None
        }),
    decreases upto - at,
{
    if at < upto {
        lemma_last_char_pos_is(s, c, upto - 1, at);
    }
}

/// The characters of `s`, in order.
pub fn chars_of(s: &str) -> (out: Vec<char>)
    ensures
        out@ == s@,
{
    let mut out: Vec<char> = Vec::new();
    for c in it: s.chars()
        invariant
            it.seq() == s@,
            out@ == it.seq().take(it.index()),
    {
        out.push(c);
    }
    out
}

/// The string made of the characters of `v`, in order.
pub fn string_of(v: &[char]) -> (out: String)
    ensures
        out@ == v@,
{
    let mut out = String::new();
    let mut i: usize = 0;
    while i < v.len()
        invariant
            i <= v.len(),
            out@ == v@.take(i as int),
        decreases v.len() - i,
    {
        out.push(v[i]);
        i += 1;
    }
    assert(v@.take(v.len() as int) == v@);
    out
}

/// A copy of `v[from..to]`.
pub fn slice_of(v: &[char], from: usize, to: usize) -> (out: Vec<char>)
    requires
        from <= to <= v.len(),
    ensures
        out@ == v@.subrange(from as int, to as int),
{
    let mut out: Vec<char> = Vec::new();
    let mut i: usize = from;
    while i < to
        invariant
            from <= i <= to <= v.len(),
            out@ == v@.subrange(from as int, i as int),
        decreases to - i,
    {
        out.push(v[i]);
        i += 1;
    }
    out
}

/// Appends the characters of `s` to `buf`.
pub fn push_all(buf: &mut Vec<char>, s: &[char])
    ensures
        final(buf)@ == old(buf)@ + s@,
{
    let mut i: usize = 0;
    while i < s.len()
        invariant
            i <= s.len(),
            buf@ == old(buf)@ + s@.take(i as int),
        decreases s.len() - i,
    {
        buf.push(s[i]);
        i += 1;
    }
    assert(s@.take(s.len() as int) == s@);
}

/// Whether two character sequences are equal.
pub fn same(a: &[char], b: &[char]) -> (r: bool)
    ensures
        r == (a@ == b@),
{
    if a.len() != b.len() {
        return false;
    }
    let mut i: usize = 0;
    while i < a.len()
        invariant
            i <= a.len(),
            a.len() == b.len(),
            a@.take(i as int) == b@.take(i as int),
        decreases a.len() - i,
    {
        if a[i] != b[i] {
            return false;
        }
        assert(a@.take(i + 1) == a@.take(i as int).push(a@[i as int]));
        assert(b@.take(i + 1) == b@.take(i as int).push(b@[i as int]));
        i += 1;
    }
    assert(a@.take(a.len() as int) == a@);
    assert(b@.take(b.len() as int) == b@);
    true
}

/// Whether two strings hold the same characters.
pub fn str_eq(a: &str, b: &str) -> (r: bool)
    ensures
        r == (a@ == b@),
{
    let x = chars_of(a);
    let y = chars_of(b);
    same(&x, &y)
}

/// Whether `needle` occurs in `hay` at offset `i`.
pub fn is_at(hay: &[char], needle: &[char], i: usize) -> (r: bool)
    ensures
        r == matches_at(hay@, needle@, i as int),
{
    if needle.len() > hay.len() || i > hay.len() - needle.len() {
        return false;
    }
    let mut k: usize = 0;
    while k < needle.len()
        invariant
            k <= needle.len(),
            i + needle.len() <= hay.len(),
            hay@.subrange(i as int, i + k) == needle@.take(k as int),
        decreases needle.len() - k,
    {
        if hay[i + k] != needle[k] {
            assert(hay@.subrange(i as int, i + needle.len())[k as int] != needle@[k as int]);
            return false;
        }
        assert(hay@.subrange(i as int, i + k + 1) == hay@.subrange(i as int, i + k).push(
            hay@[i + k],
        ));
        assert(needle@.take(k + 1) == needle@.take(k as int).push(needle@[k as int]));
        k += 1;
    }
    assert(needle@.take(needle.len() as int) == needle@);
    true
}

/// Offset of the first occurrence of `needle` in `hay` at or after `from`.
pub fn find_in(hay: &[char], needle: &[char], from: usize) -> (r: Option<usize>)
    ensures
        match r {
            Some(i) => find_from(hay@, needle@, from as int) == Some(i as int),
            None => find_from(hay@, needle@, from as int) is None,
        },
{
    if needle.len() > hay.len() || from > hay.len() - needle.len() {
        return None;
    }
    let last: usize = hay.len() - needle.len();
    let mut i: usize = from;
    loop
        invariant
            from <= i <= last,
            last == hay.len() - needle.len(),
            forall|j: int| from <= j < i ==> !matches_at(hay@, needle@, j),
        decreases last - i,
    {
        if is_at(hay, needle, i) {
            proof {
                lemma_find_from_is(hay@, needle@, from as int, i as int);
            }
            return Some(i);
        }
        if i == last {
            proof {
                lemma_find_from_none(hay@, needle@, from as int);
            }
            return None;
        }
        i += 1;
    }
}

/// Whether `needle` occurs somewhere in `hay`.
pub fn occurs(hay: &[char], needle: &[char]) -> (r: bool)
    ensures
        r == contains(hay@, needle@),
{
    find_in(hay, needle, 0).is_some()
}

/// Whether `hay` begins with `needle`.
pub fn begins(hay: &[char], needle: &[char]) -> (r: bool)
    ensures
        r == starts_with(hay@, needle@),
{
    is_at(hay, needle, 0)
}

/// Whether `hay` ends with `needle`.
pub fn ends(hay: &[char], needle: &[char]) -> (r: bool)
    ensures
        r == ends_with(hay@, needle@),
{
    if needle.len() > hay.len() {
        return false;
    }
    is_at(hay, needle, hay.len() - needle.len())
}

/// Position of the first `c` in `s` at or after `from`; `s.len()` when there is none.
pub fn position_of(s: &[char], c: char, from: usize) -> (r: usize)
    requires
        from <= s.len(),
    ensures
        r == char_pos(s@, c, from as int),
        from <= r <= s.len(),
{
    let mut i: usize = from;
    while i < s.len() && s[i] != c
        invariant
            from <= i <= s.len(),
            forall|j: int| from <= j < i ==> s@[j] != c,
        decreases s.len() - i,
    {
        i += 1;
    }
    proof {
        lemma_char_pos_is(s@, c, from as int, i as int);
    }
    i
}

/// Position of the last `c` in `s`, if any.
pub fn last_position_of(s: &[char], c: char) -> (r: Option<usize>)
    ensures
        match r {
            Some(i) => last_char_pos(s@, c, s@.len() as int) == Some(i as int) && i < s.len(),
            None => last_char_pos(s@, c, s@.len() as int) is None,
        },
{
    let mut i: usize = s.len();
    while i > 0 && s[i - 1] != c
        invariant
            i <= s.len(),
            forall|j: int| i <= j < s.len() ==> s@[j] != c,
        decreases i,
    {
        i -= 1;
    }
    proof {
        lemma_last_char_pos_is(s@, c, s@.len() as int, i as int);
    }
    if i > 0 {
        Some(i - 1)
    } else {
        None
    }
}

/// The pieces of `s` between occurrences of `sep`.
pub fn split(s: &[char], sep: char) -> (out: Vec<Vec<char>>)
    ensures
        buffers(out@) == split_on(s@, sep),
        out.len() >= 1,
{
    let mut out: Vec<Vec<char>> = Vec::new();
    let mut start: usize = 0;
    assert(s@.skip(0) == s@);
    assert(buffers(out@) + split_on(s@, sep) == split_on(s@, sep));
    loop
        invariant
            start <= s.len(),
            split_on(s@, sep) == buffers(out@) + split_on(s@.skip(start as int), sep),
        decreases s.len() - start,
    {
        let p = position_of(s, sep, start);
        let ghost rest = s@.skip(start as int);
        proof {
            assert forall|j: int| 0 <= j < p - start implies rest[j] != sep by {
                lemma_char_pos_upto(s@, sep, start as int, start + j);
            }
            if p < s.len() {
                lemma_char_pos_hit(s@, sep, start as int);
            }
            lemma_char_pos_is(rest, sep, 0, p - start);
            assert(rest.take(p - start) == s@.subrange(start as int, p as int));
        }
        let piece = slice_of(s, start, p);
        let ghost before = buffers(out@);
        out.push(piece);
        assert(buffers(out@) == before + seq![piece@]);
        if p == s.len() {
            assert(rest.take(p - start) == rest);
            assert(split_on(rest, sep) == seq![rest]);
            return out;
        }
        assert(rest.skip(p - start + 1) == s@.skip(p + 1));
        start = p + 1;
    }
}

/// No position between `from` and `char_pos` holds the character.
pub proof fn lemma_char_pos_upto(s: Seq<char>, c: char, from: int, j: int)
    requires
        0 <= from <= j < char_pos(s, c, from),
    ensures
        j < s.len(),
        s[j] != c,
    decreases s.len() - from,
{
    if from < s.len() && s[from] != c && from < j {
        lemma_char_pos_upto(s, c, from + 1, j);
    }
}

/// Where `char_pos` stops short of the end, it stops at the character.
pub proof fn lemma_char_pos_hit(s: Seq<char>, c: char, from: int)
    requires
        0 <= from,
        char_pos(s, c, from) < s.len(),
    ensures
        from <= char_pos(s, c, from),
        s[char_pos(s, c, from)] == c,
    decreases s.len() - from,
{
    if from < s.len() && s[from] != c {
        lemma_char_pos_hit(s, c, from + 1);
    }
}

/// The pieces joined into one buffer, with `sep` between neighbours.
pub fn join(parts: &Vec<Vec<char>>, sep: &[char]) -> (out: Vec<char>)
    ensures
        out@ == join_with(buffers(parts@), sep@),
{
    let mut out: Vec<char> = Vec::new();
    let mut i: usize = 0;
    while i < parts.len()
        invariant
            i <= parts.len(),
            out@ == join_with(buffers(parts@).take(i as int), sep@),
        decreases parts.len() - i,
    {
        let ghost done = buffers(parts@).take(i as int);
        let ghost next = buffers(parts@).take(i + 1);
        assert(next.drop_last() == done);
        assert(next.last() == parts@[i as int]@);
        if i > 0 {
            push_all(&mut out, sep);
        } else {
            assert(sep@ + parts@[i as int]@ == sep@ + parts@[i as int]@);
        }
        push_all(&mut out, parts[i].as_slice());
        assert(out@ == join_with(next, sep@)) by {
            if i == 0 {
                assert(Seq::<char>::empty() + parts@[0]@ == parts@[0]@);
            }
        }
        i += 1;
    }
    assert(buffers(parts@).take(parts.len() as int) == buffers(parts@));
    out
}


/// Three-way result of comparing two values.
#[derive(Clone, Copy, Debug, PartialEq, Eq, Structural)]
pub enum Order {
    Less,
    Equal,
    Greater,
}

/// How `a` stands to `b` in lexicographic order of code points.
pub open spec fn lex_order(a: Seq<char>, b: Seq<char>) -> Order {
    if a == b {
        Order::Equal
    } else if lex_lt(a, b) {
        Order::Less
    } else {
        Order::Greater
    }
}

/// A common prefix does not change the lexicographic order of two sequences.
pub proof fn lemma_lex_lt_skip(a: Seq<char>, b: Seq<char>, k: int)
    requires
        0 <= k <= a.len(),
        k <= b.len(),
        a.take(k) == b.take(k),
    ensures
        lex_lt(a, b) == lex_lt(a.skip(k), b.skip(k)),
    decreases k,
{
    if k == 0 {
        assert(a.skip(0) == a);
        assert(b.skip(0) == b);
    } else {
        assert(a[0] == a.take(k)[0]);
        assert(b[0] == b.take(k)[0]);
        assert(a.skip(1).take(k - 1) == a.take(k).skip(1));
        assert(b.skip(1).take(k - 1) == b.take(k).skip(1));
        lemma_lex_lt_skip(a.skip(1), b.skip(1), k - 1);
        assert(a.skip(1).skip(k - 1) == a.skip(k));
        assert(b.skip(1).skip(k - 1) == b.skip(k));
    }
}

/// Compares two character sequences lexicographically by code point.
pub fn lex_compare(a: &[char], b: &[char]) -> (r: Order)
    ensures
        r == lex_order(a@, b@),
{
    let mut i: usize = 0;
    while i < a.len() && i < b.len()
        invariant
            i <= a.len(),
            i <= b.len(),
            a@.take(i as int) == b@.take(i as int),
        decreases a.len() - i,
    {
        if a[i] != b[i] {
            let x = a[i];
            let y = b[i];
            proof {
                lemma_lex_lt_skip(a@, b@, i as int);
                assert(a@.skip(i as int)[0] == a@[i as int]);
                assert(b@.skip(i as int)[0] == b@[i as int]);
                assert(a@ != b@);
            }
            return if x < y {
                Order::Less
            } else {
                Order::Greater
            };
        }
        assert(a@.take(i + 1) == a@.take(i as int).push(a@[i as int]));
        assert(b@.take(i + 1) == b@.take(i as int).push(b@[i as int]));
        i += 1;
    }
    proof {
        lemma_lex_lt_skip(a@, b@, i as int);
    }
    if i < b.len() {
        assert(a@ != b@);
        Order::Less
    } else if i < a.len() {
        assert(a@ != b@);
        Order::Greater
    } else {
        assert(a@.take(a.len() as int) == a@);
        assert(b@.take(b.len() as int) == b@);
        Order::Equal
    }
}

/// The value of a prefix of a digit run never exceeds the value of the run.
pub proof fn lemma_decimal_value_prefix(s: Seq<char>, k: int)
    requires
        0 <= k <= s.len(),
    ensures
        decimal_value(s.take(k)) <= decimal_value(s),
    decreases s.len() - k,
{
    if k == s.len() {
        assert(s.take(k) == s);
    } else {
        lemma_decimal_value_prefix(s, k + 1);
        assert(s.take(k + 1).drop_last() == s.take(k));
    }
}

/// Whether `c` is an ASCII digit.
pub fn digit(c: char) -> (r: bool)
    ensures
        r == is_digit(c),
{
    let x = c as u32;
    48 <= x && x <= 57
}

/// Parses an unsigned decimal number no larger than `max`: an optional `+`,
/// then one or more ASCII digits and nothing else.
pub fn parse_number(s: &[char], max: u64) -> (r: Option<u64>)
    ensures
        match r {
            Some(v) => parse_unsigned(s@, max as nat) == Some(v as nat),
            None => parse_unsigned(s@, max as nat) is None,
        },
{
    let start: usize = if s.len() > 0 && s[0] == '+' {
        1
    } else {
        0
    };
    let ghost d = unsigned_digits(s@);
    assert(d == s@.skip(start as int));
    if start == s.len() {
        return None;
    }
    let mut acc: u64 = 0;
    let mut i: usize = start;
    while i < s.len()
        invariant
            start <= i <= s.len(),
            d == s@.skip(start as int),
            d == unsigned_digits(s@),
            all_digits(d.take(i - start)),
            acc == decimal_value(d.take(i - start)),
            acc <= max,
        decreases s.len() - i,
    {
        let c = s[i];
        assert(d[i - start] == c);
        if !digit(c) {
            assert(!is_digit(d[i - start]));
            return None;
        }
        let next: u128 = acc as u128 * 10 + (c as u32 - 48) as u128;
        proof {
            assert(digit_value(c) == c as u32 - 48);
            assert(d.take(i - start + 1).drop_last() == d.take(i - start));
            assert(d.take(i - start + 1).last() == c);
            assert(next == decimal_value(d.take(i - start + 1)));
            assert forall|j: int| 0 <= j < i - start + 1 implies is_digit(
                #[trigger] d.take(i - start + 1)[j],
            ) by {
                if j < i - start {
                    assert(d.take(i - start)[j] == d[j]);
                }
            }
        }
        if next > max as u128 {
            proof {
                lemma_decimal_value_prefix(d, i - start + 1);
            }
            return None;
        }
        acc = next as u64;
        i += 1;
    }
    assert(d.take(i - start) == d);
    Some(acc)
}


/// Position of the first string in `v` that equals `x`.
pub open spec fn first_named(v: Seq<Seq<char>>, x: Seq<char>, from: int) -> Option<int>
    decreases v.len() - from,
{
    if from < 0 || from >= v.len() {
        None
    } else if v[from] == x {
        Some(from)
    } else {
        first_named(v, x, from + 1)
    }
}

/// `first_named` finds the least position that holds `x`, if there is one.
pub proof fn lemma_first_named(v: Seq<Seq<char>>, x: Seq<char>, from: int)
    requires
        0 <= from,
    ensures
        match first_named(v, x, from) {
            Some(i) => from <= i < v.len() && v[i] == x && forall|j: int|
                from <= j < i ==> v[j] != x,
            None => forall|j: int| from <= j < v.len() ==> v[j] != x,
        },
    decreases v.len() - from,
{
    if from < v.len() && v[from] != x {
        lemma_first_named(v, x, from + 1);
    }
}

/// Position of the first entry of `v` equal to `x`.
pub fn name_position(v: &Vec<String>, x: &String) -> (r: Option<usize>)
    ensures
        match r {
            Some(i) => first_named(views(v@), x@, 0) == Some(i as int) && i < v.len() && v@[i as int]@
                == x@,
            None => first_named(views(v@), x@, 0) is None && !views(v@).contains(x@),
        },
{
    let mut i: usize = 0;
    while i < v.len()
        invariant
            i <= v.len(),
            first_named(views(v@), x@, 0) == first_named(views(v@), x@, i as int),
            forall|j: int| 0 <= j < i ==> views(v@)[j] != x@,
        decreases v.len() - i,
    {
        assert(views(v@)[i as int] == v@[i as int]@);
        if v[i] == *x {
            return Some(i);
        }
        i += 1;
    }
    None
}

/// Whether `v` holds a string equal to `x`.
pub fn has_name(v: &Vec<String>, x: &String) -> (r: bool)
    ensures
        r == views(v@).contains(x@),
{
    match name_position(v, x) {
        Some(i) => {
            assert(views(v@)[i as int] == x@);
            true
        },
        None => false,
    }
}

/// A copy of a list of strings.
pub fn clone_names(v: &Vec<String>) -> (out: Vec<String>)
    ensures
        views(out@) == views(v@),
{
    let mut out: Vec<String> = Vec::new();
    let mut i: usize = 0;
    while i < v.len()
        invariant
            i <= v.len(),
            views(out@) == views(v@).take(i as int),
        decreases v.len() - i,
    {
        let ghost before = views(out@);
        out.push(v[i].clone());
        assert(views(out@) =~= before.push(v@[i as int]@));
        assert(views(v@).take(i + 1) =~= views(v@).take(i as int).push(v@[i as int]@));
        i += 1;
    }
    assert(views(v@).take(v.len() as int) =~= views(v@));
    out
}


/// Whether `c` has the Unicode property White_Space: the controls from tab
/// to carriage return, the space, next line, the no-break space, the ogham
/// space mark, the spaces from en quad to hair space, the line and the
/// paragraph separator, the narrow no-break space, the medium mathematical
/// space and the ideographic space.
pub open spec fn is_whitespace(c: char) -> bool {
    ||| '\u{9}' <= c <= '\u{d}'
    ||| c == ' '
    ||| c == '\u{85}'
    ||| c == '\u{a0}'
    ||| c == '\u{1680}'
    ||| '\u{2000}' <= c <= '\u{200a}'
    ||| c == '\u{2028}'
    ||| c == '\u{2029}'
    ||| c == '\u{202f}'
    ||| c == '\u{205f}'
    ||| c == '\u{3000}'
}

/// `char::is_whitespace`: whether the character has the Unicode property
/// White_Space, which holds of the characters that `is_whitespace` lists.
#[verifier::external_body]
pub(crate) fn whitespace(c: char) -> (r: bool)
    ensures
        r == is_whitespace(c),
{
    c.is_whitespace()
}

/// Number of whitespace characters at the start of `s`.
pub open spec fn leading_space(s: Seq<char>) -> int
    decreases s.len(),
{
    if s.len() > 0 && is_whitespace(s[0]) {
        1 + leading_space(s.skip(1))
    } else {
        0
    }
}

/// Number of whitespace characters at the end of `s`.
pub open spec fn trailing_space(s: Seq<char>) -> int
    decreases s.len(),
{
    if s.len() > 0 && is_whitespace(s.last()) {
        1 + trailing_space(s.drop_last())
    } else {
        0
    }
}

/// `s` without the whitespace at its start.
pub open spec fn trim_start_of(s: Seq<char>) -> Seq<char> {
    s.skip(leading_space(s))
}

/// `s` without the whitespace at its end.
pub open spec fn trim_end_of(s: Seq<char>) -> Seq<char> {
    s.take(s.len() - trailing_space(s))
}

/// `s` without the whitespace at its start and at its end.
pub open spec fn trim_of(s: Seq<char>) -> Seq<char> {
    trim_end_of(trim_start_of(s))
}

/// The leading whitespace is the longest prefix made of whitespace.
pub proof fn lemma_leading_space_is(s: Seq<char>, k: int)
    requires
        0 <= k <= s.len(),
        forall|j: int| 0 <= j < k ==> is_whitespace(#[trigger] s[j]),
        k < s.len() ==> !is_whitespace(s[k]),
    ensures
        leading_space(s) == k,
    decreases k,
{
    if k > 0 {
        assert(is_whitespace(s[0]));
        assert forall|j: int| 0 <= j < k - 1 implies is_whitespace(#[trigger] s.skip(1)[j]) by {
            assert(s.skip(1)[j] == s[j + 1]);
        }
        lemma_leading_space_is(s.skip(1), k - 1);
    }
}

/// The trailing whitespace is the longest suffix made of whitespace.
pub proof fn lemma_trailing_space_is(s: Seq<char>, k: int)
    requires
        0 <= k <= s.len(),
        forall|j: int| s.len() - k <= j < s.len() ==> is_whitespace(#[trigger] s[j]),
        k < s.len() ==> !is_whitespace(s[s.len() - k - 1]),
    ensures
        trailing_space(s) == k,
    decreases k,
{
    if k > 0 {
        assert(is_whitespace(s[s.len() - 1]));
        assert forall|j: int| s.len() - k <= j < s.len() - 1 implies is_whitespace(
            #[trigger] s.drop_last()[j],
        ) by {
            assert(s.drop_last()[j] == s[j]);
        }
        lemma_trailing_space_is(s.drop_last(), k - 1);
    }
}

/// `s` without the whitespace at its start and at its end.
pub fn trim(s: &[char]) -> (out: Vec<char>)
    ensures
        out@ == trim_of(s@),
{
    let mut a: usize = 0;
    while a < s.len() && whitespace(s[a])
        invariant
            a <= s.len(),
            forall|j: int| 0 <= j < a ==> is_whitespace(#[trigger] s@[j]),
        decreases s.len() - a,
    {
        a += 1;
    }
    let mut b: usize = s.len();
    while b > a && whitespace(s[b - 1])
        invariant
            a <= b <= s.len(),
            forall|j: int| b <= j < s.len() ==> is_whitespace(#[trigger] s@[j]),
        decreases b,
    {
        b -= 1;
    }
    proof {
        lemma_leading_space_is(s@, a as int);
        let rest = s@.skip(a as int);
        assert forall|j: int| rest.len() - (s.len() - b) <= j < rest.len() implies is_whitespace(
            #[trigger] rest[j],
        ) by {
            assert(rest[j] == s@[j + a]);
        }
        if s.len() - b < rest.len() {
            assert(rest[rest.len() - (s.len() - b) - 1] == s@[b - 1]);
        }
        lemma_trailing_space_is(rest, s.len() - b);
        assert(rest.take(rest.len() - (s.len() - b)) =~= s@.subrange(a as int, b as int));
    }
    slice_of(s, a, b)
}

/// `s` without the whitespace at its start and at its end, as a string.
pub fn trim_str(s: &str) -> (out: String)
    ensures
        out@ == trim_of(s@),
{
    let chars = chars_of(s);
    let t = trim(&chars);
    string_of(&t)
}

/// The concatenation of two strings.
pub fn concat2(a: &str, b: &str) -> (out: String)
    ensures
        out@ == a@ + b@,
{
    String::from_str(a).concat(b)
}

/// The concatenation of three strings.
pub fn concat3(a: &str, b: &str, c: &str) -> (out: String)
    ensures
        out@ == a@ + b@ + c@,
{
    String::from_str(a).concat(b).concat(c)
}


/// Whether `c` is numeric, as `char::is_numeric` tells.
pub uninterp spec fn is_numeric(c: char) -> bool;

/// `char::is_numeric`: whether the character has one of the Unicode
/// general categories for numbers. The result depends on the character alone.
#[verifier::external_body]
pub(crate) fn numeric(c: char) -> (r: bool)
    ensures
        r == is_numeric(c),
{
    c.is_numeric()
}

/// Whether `c` is alphabetic or numeric, as `char::is_alphanumeric` tells.
pub uninterp spec fn is_alphanumeric(c: char) -> bool;

/// `char::is_alphanumeric`: whether the character is alphabetic or
/// numeric by its Unicode properties. The result depends on the character alone.
#[verifier::external_body]
pub(crate) fn alphanumeric(c: char) -> (r: bool)
    ensures
        r == is_alphanumeric(c),
{
    c.is_alphanumeric()
}

/// The lower-case form of a text, as `str::to_lowercase` gives it.
pub uninterp spec fn lowercase(s: Seq<char>) -> Seq<char>;

/// `str::to_lowercase`: the lower-case form of the text by the Unicode
/// rules. The result depends on the text alone.
#[verifier::external_body]
pub(crate) fn to_lower(s: &str) -> (out: String)
    ensures
        out@ == lowercase(s@),
{
    s.to_lowercase()
}

/// The lower-case form of a character, as `char::to_lowercase` gives it.
pub uninterp spec fn char_lowercase(c: char) -> Seq<char>;

/// `char::to_lowercase`: the characters that the lower-case form of the
/// character consists of. The result depends on the character alone.
#[verifier::external_body]
pub(crate) fn char_to_lower(c: char) -> (out: String)
    ensures
        out@ == char_lowercase(c),
{
    c.to_lowercase().collect()
}

/// `s` with `suffix` taken off its end as often as it stands there.
pub open spec fn strip_all(s: Seq<char>, suffix: Seq<char>) -> Seq<char>
    decreases s.len(),
{
    if suffix.len() > 0 && ends_with(s, suffix) {
        strip_all(s.take(s.len() - suffix.len()), suffix)
    } else {
        s
    }
}

/// Takes `suffix` off the end of `s` as often as it stands there.
pub fn strip_suffixes(s: &[char], suffix: &[char]) -> (out: Vec<char>)
    ensures
        out@ == strip_all(s@, suffix@),
{
    let mut end: usize = s.len();
    assert(s@.take(end as int) =~= s@);
    if suffix.len() == 0 {
        return slice_of(s, 0, end);
    }
    loop
        invariant
            end <= s.len(),
            suffix.len() > 0,
            strip_all(s@, suffix@) == strip_all(s@.take(end as int), suffix@),
        decreases end,
    {
        let ghost cur = s@.take(end as int);
        let hit = end >= suffix.len() && is_at(s, suffix, end - suffix.len());
        proof {
            if end >= suffix.len() {
                assert(cur.subrange(end - suffix.len(), end as int) =~= s@.subrange(
                    end - suffix.len(),
                    end as int,
                ));
            }
        }
        if !hit {
            assert(s@.subrange(0, end as int) =~= cur);
            return slice_of(s, 0, end);
        }
        proof {
            assert(cur.take(cur.len() - suffix.len()) =~= s@.take(end - suffix.len()));
        }
        end = end - suffix.len();
    }
}

/// Number of characters equal to `c` at the start of `s`.
pub open spec fn leading_run(s: Seq<char>, c: char) -> int
    decreases s.len(),
{
    if s.len() > 0 && s[0] == c {
        1 + leading_run(s.skip(1), c)
    } else {
        0
    }
}

/// Number of characters equal to `c` at the end of `s`.
pub open spec fn trailing_run(s: Seq<char>, c: char) -> int
    decreases s.len(),
{
    if s.len() > 0 && s.last() == c {
        1 + trailing_run(s.drop_last(), c)
    } else {
        0
    }
}

/// The leading run of `c` is the longest prefix made of `c`.
pub proof fn lemma_leading_run_is(s: Seq<char>, c: char, k: int)
    requires
        0 <= k <= s.len(),
        forall|j: int| 0 <= j < k ==> #[trigger] s[j] == c,
        k < s.len() ==> s[k] != c,
    ensures
        leading_run(s, c) == k,
    decreases k,
{
    if k > 0 {
        assert(s[0] == c);
        assert forall|j: int| 0 <= j < k - 1 implies #[trigger] s.skip(1)[j] == c by {
            assert(s.skip(1)[j] == s[j + 1]);
        }
        lemma_leading_run_is(s.skip(1), c, k - 1);
    }
}

/// The trailing run of `c` is the longest suffix made of `c`.
pub proof fn lemma_trailing_run_is(s: Seq<char>, c: char, k: int)
    requires
        0 <= k <= s.len(),
        forall|j: int| s.len() - k <= j < s.len() ==> #[trigger] s[j] == c,
        k < s.len() ==> s[s.len() - k - 1] != c,
    ensures
        trailing_run(s, c) == k,
    decreases k,
{
    if k > 0 {
        assert(s[s.len() - 1] == c);
        assert forall|j: int| s.len() - k <= j < s.len() - 1 implies #[trigger] s.drop_last()[j]
            == c by {
            assert(s.drop_last()[j] == s[j]);
        }
        lemma_trailing_run_is(s.drop_last(), c, k - 1);
    }
}

/// `s` without the characters `c` at its start.
pub fn strip_leading(s: &[char], c: char) -> (out: Vec<char>)
    ensures
        out@ == s@.skip(leading_run(s@, c)),
{
    let mut a: usize = 0;
    while a < s.len() && s[a] == c
        invariant
            a <= s.len(),
            forall|j: int| 0 <= j < a ==> #[trigger] s@[j] == c,
        decreases s.len() - a,
    {
        a += 1;
    }
    proof {
        lemma_leading_run_is(s@, c, a as int);
    }
    slice_of(s, a, s.len())
}

/// `s` without the characters `c` at its end.
pub fn strip_trailing(s: &[char], c: char) -> (out: Vec<char>)
    ensures
        out@ == s@.take(s@.len() - trailing_run(s@, c)),
{
    let mut b: usize = s.len();
    while b > 0 && s[b - 1] == c
        invariant
            b <= s.len(),
            forall|j: int| b <= j < s.len() ==> #[trigger] s@[j] == c,
        decreases b,
    {
        b -= 1;
    }
    proof {
        lemma_trailing_run_is(s@, c, s.len() - b);
    }
    slice_of(s, 0, b)
}

/// A piece that a line feed ended, without the carriage return before it.
pub open spec fn ended_line(piece: Seq<char>) -> Seq<char> {
    if piece.len() > 0 && piece.last() == '\r' {
        piece.drop_last()
    } else {
        piece
    }
}

/// The lines of the pieces between line feeds: every piece but the last
/// loses a carriage return at its end, and the last is a line unless it is empty.
pub open spec fn lines_from(pieces: Seq<Seq<char>>) -> Seq<Seq<char>> {
    let ended = Seq::new((pieces.len() - 1) as nat, |i: int| ended_line(pieces[i]));
    if pieces.len() == 0 {
        Seq::empty()
    } else if pieces.last().len() == 0 {
        ended
    } else {
        ended.push(pieces.last())
    }
}

/// The lines of a text: it is split at line feeds, a carriage return
/// before a line feed belongs to the line ending, and a line ending at the
/// end of the text starts no further line.
pub open spec fn lines_of(s: Seq<char>) -> Seq<Seq<char>> {
    lines_from(split_on(s, '\n'))
}

/// The lines of a text.
pub fn lines(s: &[char]) -> (out: Vec<Vec<char>>)
    ensures
        buffers(out@) == lines_of(s@),
{
    let pieces = split(s, '\n');
    let n = pieces.len();
    let mut out: Vec<Vec<char>> = Vec::new();
    let mut i: usize = 0;
    while i + 1 < n
        invariant
            i + 1 <= n,
            n == pieces.len(),
            n >= 1,
            buffers(out@) == Seq::new(i as nat, |k: int| ended_line(buffers(pieces@)[k])),
        decreases n - i,
    {
        let p = &pieces[i];
        let line = if p.len() > 0 && p[p.len() - 1] == '\r' {
            let l = slice_of(p, 0, p.len() - 1);
            assert(l@ =~= p@.drop_last());
            l
        } else {
            let l = slice_of(p, 0, p.len());
            assert(l@ =~= p@);
            l
        };
        let ghost before = buffers(out@);
        assert(line@ == ended_line(p@));
        assert(buffers(pieces@)[i as int] == p@);
        out.push(line);
        assert(buffers(out@) =~= before.push(line@));
        assert(buffers(out@) =~= Seq::new((i + 1) as nat, |k: int| ended_line(buffers(pieces@)[k])));
        i += 1;
    }
    let last = &pieces[n - 1];
    assert(buffers(pieces@).last() == last@);
    if last.len() > 0 {
        let ghost before = buffers(out@);
        let l = slice_of(last, 0, last.len());
        assert(l@ =~= last@);
        out.push(l);
        assert(buffers(out@) =~= before.push(last@));
    }
    out
}


/// The character for a digit below 36: `0` to `9`, then `a` to `z`.
pub open spec fn digit_char(d: nat) -> char {
    if d < 10 {
        (48 + d) as char
    } else {
        (87 + d) as char
    }
}

/// The digits of `n`, most significant first and without leading zeros:
/// hexadecimal in lower case, or decimal. `0` for zero.
pub open spec fn number_text(n: nat, hex: bool) -> Seq<char>
    decreases n,
{
    if hex {
        if n < 16 {
            seq![digit_char(n)]
        } else {
            number_text(n / 16, hex).push(digit_char(n % 16))
        }
    } else {
        if n < 10 {
            seq![digit_char(n)]
        } else {
            number_text(n / 10, hex).push(digit_char(n % 10))
        }
    }
}

/// The decimal digits of `n`.
pub open spec fn decimal_text(n: nat) -> Seq<char> {
    number_text(n, false)
}

/// The character for a digit below 36.
pub fn to_digit_char(d: u8) -> (c: char)
    requires
        d < 36,
    ensures
        c == digit_char(d as nat),
{
    if d < 10 {
        (48 + d) as char
    } else {
        (87 + d) as char
    }
}

/// The digits of `n`: hexadecimal in lower case, or decimal.
pub fn number_to_text(n: u128, hex: bool) -> (out: String)
    ensures
        out@ == number_text(n as nat, hex),
{
    let b: u128 = if hex {
        16
    } else {
        10
    };
    let mut digits: Vec<char> = Vec::new();
    let mut rest: u128 = n;
    while rest >= b
        invariant
            b == (if hex {
                16u128
            } else {
                10u128
            }),
            number_text(n as nat, hex) == number_text(rest as nat, hex) + digits@.reverse(),
        decreases rest,
    {
        let d = (rest % b) as u8;
        let c = to_digit_char(d);
        let ghost before = digits@;
        digits.push(c);
        proof {
            assert(digits@.reverse() =~= seq![c] + before.reverse());
            assert(number_text(rest as nat, hex) == number_text((rest / b) as nat, hex).push(c));
            assert(number_text((rest / b) as nat, hex).push(c) + before.reverse() =~= number_text(
                (rest / b) as nat,
                hex,
            ) + (seq![c] + before.reverse()));
        }
        rest = rest / b;
    }
    let c = to_digit_char(rest as u8);
    let mut out = String::new();
    out.push(c);
    let mut i: usize = digits.len();
    while i > 0
        invariant
            i <= digits.len(),
            out@ == seq![c] + digits@.reverse().take(digits.len() - i),
        decreases i,
    {
        i -= 1;
        out.push(digits[i]);
        proof {
            let r = digits@.reverse();
            let k = digits.len() - i;
            assert(r.take(k) =~= r.take(k - 1).push(r[k - 1]));
            assert(r[k - 1] == digits@[i as int]);
        }
    }
    proof {
        let r = digits@.reverse();
        assert(r.take(digits.len() as int) =~= r);
    }
    out
}

/// The decimal digits of `n`.
pub fn to_decimal(n: usize) -> (out: String)
    ensures
        out@ == decimal_text(n as nat),
{
    number_to_text(n as u128, false)
}

/// `s.push(x)` holds `y` exactly when `s` does or `y` is `x`.
pub proof fn lemma_contains_push(s: Seq<Seq<char>>, x: Seq<char>, y: Seq<char>)
    ensures
        s.push(x).contains(y) <==> (s.contains(y) || x == y),
{
    let t = s.push(x);
    if s.contains(y) {
        let i = choose|i: int| 0 <= i < s.len() && s[i] == y;
        assert(t[i] == y);
    }
    if x == y {
        assert(t[s.len() as int] == y);
    }
    if t.contains(y) {
        let i = choose|i: int| 0 <= i < t.len() && t[i] == y;
        if i < s.len() {
            assert(s[i] == y);
        }
    }
}

/// Appending a new name keeps a list free of duplicates.
pub proof fn lemma_no_duplicates_push(s: Seq<Seq<char>>, x: Seq<char>)
    requires
        s.no_duplicates(),
        !s.contains(x),
    ensures
        s.push(x).no_duplicates(),
{
    let t = s.push(x);
    assert forall|i: int, j: int| 0 <= i < t.len() && 0 <= j < t.len() && i != j implies t[i]
        != t[j] by {
        if i < s.len() && j < s.len() {
        } else if i < s.len() {
            assert(s[i] != x);
        } else if j < s.len() {
            assert(s[j] != x);
        }
    }
}

/// Pushing onto a list of strings pushes onto its views.
pub proof fn lemma_views_push(v: Seq<String>, x: String)
    ensures
        views(v.push(x)) == views(v).push(x@),
{
    assert(views(v.push(x)) =~= views(v).push(x@));
}

} // verus!
