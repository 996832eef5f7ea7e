//! Character-level text utilities shared by the reader, the classifier and the
//! resolver. Every operation is specified over `Seq<char>`.
use vstd::prelude::*;
use vstd::std_specs::iter::IteratorSpec;

verus! {

/// The characters with the Unicode `White_Space` property.
pub open spec fn is_whitespace(c: char) -> bool {
    ||| ('\u{9}' <= c && c <= '\u{d}')
    ||| c == ' '
    ||| c == '\u{85}'
    ||| c == '\u{a0}'
    ||| c == '\u{1680}'
    ||| ('\u{2000}' <= c && c <= '\u{200a}')
    ||| c == '\u{2028}'
    ||| c == '\u{2029}'
    ||| c == '\u{202f}'
    ||| c == '\u{205f}'
    ||| c == '\u{3000}'
}

/// Whether `c` is whitespace.
pub fn is_whitespace_char(c: char) -> (r: bool)
    ensures
        r == is_whitespace(c),
{
    (c >= '\u{9}' && c <= '\u{d}') || c == ' ' || c == '\u{85}' || c == '\u{a0}' || c == '\u{1680}'
        || (c >= '\u{2000}' && c <= '\u{200a}') || c == '\u{2028}' || c == '\u{2029}' || c
        == '\u{202f}' || c == '\u{205f}' || c == '\u{3000}'
}

/// `s` without its leading whitespace.
pub open spec fn trim_start(s: Seq<char>) -> Seq<char>
    decreases s.len(),
{
    if s.len() > 0 && is_whitespace(s[0]) {
        trim_start(s.drop_first())
    } else {
        s
    }
}

/// `s` without its trailing whitespace.
pub open spec fn trim_end(s: Seq<char>) -> Seq<char>
    decreases s.len(),
{
    if s.len() > 0 && is_whitespace(s.last()) {
        trim_end(s.drop_last())
    } else {
        s
    }
}

/// `s` without its leading and trailing whitespace.
pub open spec fn trim(s: Seq<char>) -> Seq<char> {
    trim_end(trim_start(s))
}

/// Whether every character of `s` is whitespace.
pub open spec fn is_blank(s: Seq<char>) -> bool {
    forall|i: int| 0 <= i < s.len() ==> is_whitespace(#[trigger] s[i])
}

/// Where the leading whitespace of `s` ends: `trim_start(s)` is `s` from
/// there on, and what stands there, if anything, is no whitespace.
pub proof fn lemma_trim_start(s: Seq<char>) -> (a: int)
    ensures
        0 <= a <= s.len(),
        trim_start(s) == s.skip(a),
        is_blank(s.take(a)),
        a < s.len() ==> !is_whitespace(s[a]),
    decreases s.len(),
{
    if s.len() > 0 && is_whitespace(s[0]) {
        let rest = s.drop_first();
        let a = lemma_trim_start(rest);
        assert(rest.skip(a) == s.skip(a + 1));
        assert forall|i: int| 0 <= i < a + 1 implies is_whitespace(#[trigger] s.take(a + 1)[i]) by {
            if i > 0 {
                assert(s.take(a + 1)[i] == rest.take(a)[i - 1]);
            }
        }
        a + 1
    } else {
        assert(s.skip(0) == s);
        0
    }
}

/// Where the trailing whitespace of `s` starts: `trim_end(s)` is `s` up to
/// there, and what stands before, if anything, is no whitespace.
pub proof fn lemma_trim_end(s: Seq<char>) -> (b: int)
    ensures
        0 <= b <= s.len(),
        trim_end(s) == s.take(b),
        is_blank(s.skip(b)),
        b > 0 ==> !is_whitespace(s[b - 1]),
    decreases s.len(),
{
    if s.len() > 0 && is_whitespace(s.last()) {
        let rest = s.drop_last();
        let b = lemma_trim_end(rest);
        assert(rest.take(b) == s.take(b));
        assert forall|i: int| 0 <= i < s.len() - b implies is_whitespace(#[trigger] s.skip(b)[i]) by {
            if i < rest.len() - b {
                assert(s.skip(b)[i] == rest.skip(b)[i]);
            }
        }
        b
    } else {
        assert(s.take(s.len() as int) == s);
        s.len() as int
    }
}

/// What trimming keeps: `trim(s)` is the part `s[a..b]` of `s`, with nothing
/// but whitespace before and after it, and no whitespace at either end of it.
/// It is empty just where `s` is blank.
pub proof fn lemma_trim(s: Seq<char>) -> (r: (int, int))
    ensures
        0 <= r.0 <= r.1 <= s.len(),
        trim(s) == s.subrange(r.0, r.1),
        is_blank(s.take(r.0)),
        is_blank(s.skip(r.1)),
        trim(s).len() > 0 ==> !is_whitespace(trim(s)[0]) && !is_whitespace(trim(s).last()),
        trim(s).len() == 0 <==> is_blank(s),
{
    let a = lemma_trim_start(s);
    let rest = s.skip(a);
    let len = lemma_trim_end(rest);
    let b = a + len;
    assert(rest.take(len) == s.subrange(a, b));
    assert forall|i: int| 0 <= i < s.len() - b implies is_whitespace(#[trigger] s.skip(b)[i]) by {
        assert(s.skip(b)[i] == rest.skip(len)[i]);
    }
    if trim(s).len() > 0 {
        assert(trim(s)[0] == s[a]);
        assert(trim(s).last() == rest[len - 1]);
        assert(!is_blank(s)) by {
            if is_blank(s) {
                assert(is_whitespace(s[a]));
            }
        }
    } else {
        assert forall|i: int| 0 <= i < s.len() implies is_whitespace(#[trigger] s[i]) by {
            if i < a {
                assert(s[i] == s.take(a)[i]);
            } else {
                assert(s[i] == s.skip(b)[i - b]);
            }
        }
    }
    (a, b)
}

/// Appends one character to a string.
///
/// Trusted: wraps `String::push`, which appends the given character to the end
/// of the string and leaves the rest of it as it was.
#[verifier::external_body]
pub(crate) fn push_char(s: &mut String, c: char)
    ensures
        final(s)@ == old(s)@.push(c),
{
    s.push(c)
}

/// The characters of a string, in order.
pub fn to_chars(s: &str) -> (v: Vec<char>)
    ensures
        v@ == s@,
{
    broadcast use vstd::string::group_string_axioms;

    let mut v: Vec<char> = Vec::new();
    for c in it: s.chars()
        invariant
            it.seq() == s@,
            v@ == s@.take(it.index()),
    {
        v.push(c);
    }
    v
}

/// The string made of the characters `v[from..to]`.
pub(crate) fn string_of(v: &Vec<char>, from: usize, to: usize) -> (s: String)
    requires
        from <= to <= v.len(),
    ensures
        s@ == v@.subrange(from as int, to as int),
{
    let mut s = String::new();
    let mut i: usize = from;
    while i < to
        invariant
            from <= i <= to <= v.len(),
            s@ == v@.subrange(from as int, i as int),
        decreases to - i,
    {
        push_char(&mut s, v[i]);
        i += 1;
    }
    s
}

/// The bounds `(a, b)` of `trim(v[from..to])` inside `v`.
pub(crate) fn trim_bounds(v: &Vec<char>, from: usize, to: usize) -> (r: (usize, usize))
    requires
        from <= to <= v.len(),
    ensures
        from <= r.0 <= r.1 <= to,
        v@.subrange(r.0 as int, r.1 as int) == trim(v@.subrange(from as int, to as int)),
{
    let mut a: usize = from;
    while a < to && is_whitespace_char(v[a])
        invariant
            from <= a <= to <= v.len(),
            trim_start(v@.subrange(a as int, to as int)) == trim_start(
                v@.subrange(from as int, to as int),
            ),
        decreases to - a,
    {
        assert(v@.subrange(a as int, to as int).drop_first() == v@.subrange(a + 1, to as int));
        a += 1;
    }
    let mut b: usize = to;
    while a < b && is_whitespace_char(v[b - 1])
        invariant
            a <= b <= to <= v.len(),
            trim_end(v@.subrange(a as int, b as int)) == trim_end(v@.subrange(a as int, to as int)),
        decreases b - a,
    {
        assert(v@.subrange(a as int, b as int).drop_last() == v@.subrange(a as int, b - 1));
        b -= 1;
    }
    (a, b)
}

/// The string made of the characters of `v`.
pub fn text_of(v: &Vec<char>) -> (s: String)
    ensures
        s@ == v@,
{
    assert(v@.subrange(0, v.len() as int) == v@);
    string_of(v, 0, v.len())
}

/// A copy of the characters `v[from..to]`.
pub(crate) fn slice_of(v: &Vec<char>, from: usize, to: usize) -> (r: Vec<char>)
    requires
        from <= to <= v.len(),
    ensures
        r@ == v@.subrange(from as int, to as int),
{
    let mut r: Vec<char> = Vec::new();
    let mut i: usize = from;
    while i < to
        invariant
            from <= i <= to <= v.len(),
            r@ == v@.subrange(from as int, i as int),
        decreases to - i,
    {
        r.push(v[i]);
        i += 1;
    }
    r
}

/// The characters of `v` without leading and trailing whitespace.
pub fn trimmed(v: &Vec<char>) -> (r: Vec<char>)
    ensures
        r@ == trim(v@),
{
    let (a, b) = trim_bounds(v, 0, v.len());
    assert(v@.subrange(0, v.len() as int) == v@);
    slice_of(v, a, b)
}

/// The index of the first `c` in `s`, or `s.len()` where `s` holds no `c`.
pub open spec fn first_index(s: Seq<char>, c: char) -> int
    decreases s.len(),
{
    if s.len() == 0 {
        0
    } else if s[0] == c {
        0
    } else {
        1 + first_index(s.drop_first(), c)
    }
}

/// `first_index(s, c)` is the least index at which `s` holds `c`.
pub proof fn lemma_first_index(s: Seq<char>, c: char)
    ensures
        0 <= first_index(s, c) <= s.len(),
        forall|j: int| 0 <= j < first_index(s, c) ==> s[j] != c,
        first_index(s, c) < s.len() ==> s[first_index(s, c)] == c,
    decreases s.len(),
{
    if s.len() > 0 && s[0] != c {
        let t = s.drop_first();
        lemma_first_index(t, c);
        assert forall|j: int| 0 <= j < first_index(s, c) implies s[j] != c by {
            if j > 0 {
                assert(s[j] == t[j - 1]);
            }
        }
        assert(first_index(s, c) < s.len() ==> s[first_index(s, c)] == t[first_index(t, c)]);
    }
}

/// An index `r` that holds `c` and has no `c` before it is `first_index(s, c)`;
/// so is `s.len()` where `s` holds no `c`.
pub proof fn lemma_first_index_unique(s: Seq<char>, c: char, r: int)
    requires
        0 <= r <= s.len(),
        forall|j: int| 0 <= j < r ==> s[j] != c,
        r < s.len() ==> s[r] == c,
    ensures
        first_index(s, c) == r,
{
    lemma_first_index(s, c);
    let f = first_index(s, c);
    if f < r {
        assert(s[f] != c);
    } else if r < f {
        assert(s[r] == c);
    }
}

/// The position of the first `c` in `v[from..to]`, or `to` where there is none.
pub(crate) fn find_char(v: &Vec<char>, from: usize, to: usize, c: char) -> (r: usize)
    requires
        from <= to <= v.len(),
    ensures
        from <= r <= to,
        r - from == first_index(v@.subrange(from as int, to as int), c),
{
    let mut i: usize = from;
    while i < to && v[i] != c
        invariant
            from <= i <= to <= v.len(),
            forall|j: int| from <= j < i ==> v@[j] != c,
        decreases to - i,
    {
        i += 1;
    }
    proof {
        let s = v@.subrange(from as int, to as int);
        assert forall|j: int| 0 <= j < i - from implies s[j] != c by {
            assert(s[j] == v@[from + j]);
        }
        lemma_first_index_unique(s, c, i - from);
    }
    i
}

/// The lines of a text: the pieces between line feeds. The piece after the
/// last line feed is a line only where it is not empty.
pub open spec fn split_lines(s: Seq<char>) -> Seq<Seq<char>>
    decreases s.len(),
{
    if s.len() == 0 {
        Seq::empty()
    } else {
        let n = first_index(s, '\n');
        if n < 0 || n >= s.len() {
            seq![s]
        } else {
            seq![s.take(n)] + split_lines(s.skip(n + 1))
        }
    }
}

/// The contents of a vector of lines.
pub open spec fn line_views(lines: Seq<Vec<char>>) -> Seq<Seq<char>> {
    Seq::new(lines.len(), |i: int| lines[i]@)
}

/// The contents of a vector of strings.
pub open spec fn string_views(strings: Seq<String>) -> Seq<Seq<char>> {
    Seq::new(strings.len(), |i: int| strings[i]@)
}

/// Splits a text into its lines.
pub(crate) fn lines_of(v: &Vec<char>) -> (r: Vec<Vec<char>>)
    ensures
        line_views(r@) == split_lines(v@),
{
    let mut r: Vec<Vec<char>> = Vec::new();
    let mut pos: usize = 0;
    let n = v.len();
    assert(v@.skip(0) == v@);
    assert(line_views(r@) + split_lines(v@) == split_lines(v@));
    while pos < n
        invariant
            pos <= n == v.len(),
            line_views(r@) + split_lines(v@.skip(pos as int)) == split_lines(v@),
        decreases n - pos,
    {
        let end = find_char(v, pos, n, '\n');
        let line = slice_of(v, pos, end);
        let ghost rest = v@.skip(pos as int);
        let ghost before = line_views(r@);
        proof {
            lemma_first_index(rest, '\n');
            assert(rest == v@.subrange(pos as int, n as int));
            assert(line@ == rest.take(end - pos));
        }
        r.push(line);
        assert(line_views(r@) =~= before.push(line@));
        if end < n {
            proof {
                assert(rest.skip(end - pos + 1) == v@.skip(end + 1));
                assert(before.push(line@) + split_lines(v@.skip(end + 1)) == before + (seq![line@]
                    + split_lines(v@.skip(end + 1))));
            }
            pos = end + 1;
        } else {
            proof {
                assert(line@ == rest);
                assert(v@.skip(n as int).len() == 0);
                assert(before.push(line@) + Seq::<Seq<char>>::empty() == before + seq![rest]);
            }
            pos = n;
        }
    }
    assert(v@.skip(pos as int).len() == 0);
    assert(line_views(r@) + Seq::<Seq<char>>::empty() == line_views(r@));
    r
}

/// Whether `c` is one of the digits `0` to `9`.
pub open spec fn is_digit(c: char) -> bool {
    '0' <= c && c <= '9'
}

/// The number that a sequence of digits writes in base ten.
pub open spec fn decimal_value(digits: Seq<char>) -> nat
    decreases digits.len(),
{
    if digits.len() == 0 {
        0
    } else {
        decimal_value(digits.drop_last()) * 10 + (digits.last() as u32 - '0' as u32) as nat
    }
}

/// The number that a sequence of one digit or more writes; `None` where
/// `digits` is not of that form or the number does not fit in a `usize`.
pub open spec fn digits_number(digits: Seq<char>) -> Option<usize> {
    if digits.len() > 0 && (forall|i: int| 0 <= i < digits.len() ==> is_digit(#[trigger] digits[i]))
        && decimal_value(digits) <= usize::MAX {
        Some(decimal_value(digits) as usize)
    } else {
        None
    }
}

/// A longer sequence of digits writes a number that is not smaller.
proof fn lemma_decimal_value_grows(digits: Seq<char>, k: int)
    requires
        0 <= k <= digits.len(),
        forall|i: int| 0 <= i < digits.len() ==> is_digit(#[trigger] digits[i]),
    ensures
        decimal_value(digits.take(k)) <= decimal_value(digits),
    decreases digits.len() - k,
{
    if k == digits.len() {
        assert(digits.take(k) == digits);
    } else {
        let shorter = digits.drop_last();
        assert(shorter.take(k) == digits.take(k));
        lemma_decimal_value_grows(shorter, k);
    }
}

/// Reads the number that the digits `v[from..to]` write.
pub(crate) fn parse_number(v: &Vec<char>, from: usize, to: usize) -> (r: Option<usize>)
    requires
        from <= to <= v.len(),
    ensures
        r == digits_number(v@.subrange(from as int, to as int)),
{
    let ghost digits = v@.subrange(from as int, to as int);
    if from == to {
        return None;
    }
    let mut value: usize = 0;
    let mut i: usize = from;
    assert(digits.take(0) == Seq::<char>::empty());
    while i < to
        invariant
            from <= i <= to <= v.len(),
            from < to,
            digits == v@.subrange(from as int, to as int),
            forall|j: int| 0 <= j < i - from ==> is_digit(#[trigger] digits[j]),
            value == decimal_value(digits.take(i - from)),
        decreases to - i,
    {
        let c = v[i];
        assert(c == digits[i - from]);
        if !(c >= '0' && c <= '9') {
            assert(!is_digit(digits[i - from]));
            return None;
        }
        let d = (c as u32 - '0' as u32) as usize;
        proof {
            let longer = digits.take(i - from + 1);
            assert(longer.drop_last() == digits.take(i - from));
            assert(longer.last() == c);
        }
        if value > (usize::MAX - d) / 10 {
            proof {
                if forall|j: int| 0 <= j < digits.len() ==> is_digit(#[trigger] digits[j]) {
                    lemma_decimal_value_grows(digits, i - from + 1);
                }
            }
            return None;
        }
        value = value * 10 + d;
        i += 1;
    }
    assert(digits.take(to - from) == digits);
    Some(value)
}

/// The position of the first occurrence of `pattern` in `s`, or `s.len()`
/// where there is none.
pub open spec fn first_occurrence(s: Seq<char>, pattern: Seq<char>) -> int
    decreases s.len(),
{
    if s.len() < pattern.len() || s.len() == 0 {
        s.len() as int
    } else if s.take(pattern.len() as int) == pattern {
        0
    } else {
        1 + first_occurrence(s.drop_first(), pattern)
    }
}

/// `first_occurrence` stays inside `s`; where it finds `pattern`, `pattern` fits there.
pub proof fn lemma_first_occurrence(s: Seq<char>, pattern: Seq<char>)
    ensures
        0 <= first_occurrence(s, pattern) <= s.len(),
        first_occurrence(s, pattern) < s.len() ==> first_occurrence(s, pattern) + pattern.len()
            <= s.len(),
        first_occurrence(s, pattern) < s.len() ==> s.subrange(
            first_occurrence(s, pattern),
            first_occurrence(s, pattern) + pattern.len(),
        ) == pattern,
    decreases s.len(),
{
    if s.len() < pattern.len() || s.len() == 0 {
    } else if s.take(pattern.len() as int) == pattern {
        assert(s.subrange(0, pattern.len() as int) == s.take(pattern.len() as int));
    } else {
        let t = s.drop_first();
        lemma_first_occurrence(t, pattern);
        let f = first_occurrence(t, pattern);
        if f < t.len() {
            assert(s.subrange(1 + f, 1 + f + pattern.len()) == t.subrange(f, f + pattern.len()));
        }
    }
}

/// Whether `pattern` stands in `v` at position `at`.
fn matches_at(v: &Vec<char>, at: usize, to: usize, pattern: &Vec<char>) -> (r: bool)
    requires
        at <= to <= v.len(),
    ensures
        r == (pattern.len() <= to - at && v@.subrange(at as int, at + pattern.len())
            == pattern@),
{
    if pattern.len() > to - at {
        return false;
    }
    let mut j: usize = 0;
    while j < pattern.len()
        invariant
            j <= pattern.len() <= to - at,
            at <= to <= v.len(),
            forall|k: int| 0 <= k < j ==> v@[at + k] == pattern@[k],
        decreases pattern.len() - j,
    {
        if v[at + j] != pattern[j] {
            assert(v@.subrange(at as int, at + pattern.len())[j as int] != pattern@[j as int]);
            return false;
        }
        j += 1;
    }
    assert(v@.subrange(at as int, at + pattern.len()) =~= pattern@);
    true
}

/// The position of the first occurrence of `pattern` in `v[from..to]`, or `to`
/// where there is none.
pub(crate) fn find_text(v: &Vec<char>, from: usize, to: usize, pattern: &Vec<char>) -> (r: usize)
    requires
        from <= to <= v.len(),
    ensures
        from <= r <= to,
        r - from == first_occurrence(v@.subrange(from as int, to as int), pattern@),
{
    let mut i: usize = from;
    assert(v@.subrange(from as int, to as int).skip(0) == v@.subrange(from as int, to as int));
    while i < to
        invariant
            from <= i <= to <= v.len(),
            first_occurrence(v@.subrange(from as int, to as int), pattern@) == (i - from)
                + first_occurrence(v@.subrange(i as int, to as int), pattern@),
        decreases to - i,
    {
        let ghost rest = v@.subrange(i as int, to as int);
        if matches_at(v, i, to, pattern) {
            assert(rest.take(pattern.len() as int) == v@.subrange(
                i as int,
                i + pattern.len(),
            ));
            return i;
        }
        proof {
            if rest.len() >= pattern.len() {
                assert(rest.take(pattern.len() as int) == v@.subrange(
                    i as int,
                    i + pattern.len(),
                ));
                assert(rest.drop_first() == v@.subrange(i + 1, to as int));
            }
        }
        if to - i < pattern.len() {
            return to;
        }
        i += 1;
    }
    assert(v@.subrange(to as int, to as int).len() == 0);
    to
}

/// The character that writes the digit `d`.
pub open spec fn digit_char(d: int) -> char {
    if d == 0 {
        '0'
    } else if d == 1 {
        '1'
    } else if d == 2 {
        '2'
    } else if d == 3 {
        '3'
    } else if d == 4 {
        '4'
    } else if d == 5 {
        '5'
    } else if d == 6 {
        '6'
    } else if d == 7 {
        '7'
    } else if d == 8 {
        '8'
    } else {
        '9'
    }
}

/// The digits that write `n` in base ten, without leading zeros.
pub open spec fn decimal_text(n: nat) -> Seq<char>
    decreases n,
{
    if n < 10 {
        seq![digit_char(n as int)]
    } else {
        decimal_text(n / 10).push(digit_char((n % 10) as int))
    }
}

/// Reading the digits that write `n` gives `n` back.
pub proof fn lemma_decimal_round_trip(n: nat)
    ensures
        decimal_text(n).len() > 0,
        forall|i: int| 0 <= i < decimal_text(n).len() ==> is_digit(#[trigger] decimal_text(n)[i]),
        decimal_value(decimal_text(n)) == n,
        n <= usize::MAX ==> digits_number(decimal_text(n)) == Some(n as usize),
    decreases n,
{
    let text = decimal_text(n);
    if n < 10 {
        assert(text.drop_last() == Seq::<char>::empty());
        assert(decimal_value(text.drop_last()) == 0);
        assert(text.last() == digit_char(n as int));
    } else {
        lemma_decimal_round_trip(n / 10);
        let head = decimal_text(n / 10);
        assert(text.drop_last() == head);
        assert(text.last() == digit_char((n % 10) as int));
        assert forall|i: int| 0 <= i < text.len() implies is_digit(#[trigger] text[i]) by {
            if i < head.len() {
                assert(text[i] == head[i]);
            }
        }
    }
}

/// The character that writes the digit `d`.
fn digit(d: usize) -> (c: char)
    requires
        d < 10,
    ensures
        c == digit_char(d as int),
{
    if d == 0 {
        '0'
    } else if d == 1 {
        '1'
    } else if d == 2 {
        '2'
    } else if d == 3 {
        '3'
    } else if d == 4 {
        '4'
    } else if d == 5 {
        '5'
    } else if d == 6 {
        '6'
    } else if d == 7 {
        '7'
    } else if d == 8 {
        '8'
    } else {
        '9'
    }
}

/// Writes `n` in base ten.
pub fn number_text(n: usize) -> (s: String)
    ensures
        s@ == decimal_text(n as nat),
    decreases n,
{
    if n < 10 {
        let mut s = String::new();
        push_char(&mut s, digit(n));
        s
    } else {
        let mut s = number_text(n / 10);
        push_char(&mut s, digit(n % 10));
        s
    }
}

/// The lines of a text, as strings.
pub fn lines(source: &str) -> (r: Vec<String>)
    ensures
        string_views(r@) == split_lines(source@),
{
    let chars = to_chars(source);
    let split = lines_of(&chars);
    let mut r: Vec<String> = Vec::new();
    let mut i: usize = 0;
    while i < split.len()
        invariant
            i <= split.len(),
            string_views(r@) == line_views(split@).take(i as int),
        decreases split.len() - i,
    {
        let line = string_of(&split[i], 0, split[i].len());
        assert(split[i as int]@.subrange(0, split[i as int]@.len() as int) == split[i as int]@);
        let ghost before = r@;
        r.push(line);
        proof {
            assert(string_views(r@) =~= string_views(before).push(line@));
            assert(line_views(split@).take(i + 1) =~= line_views(split@).take(i as int).push(
                split[i as int]@,
            ));
        }
        i += 1;
    }
    assert(line_views(split@).take(split.len() as int) == line_views(split@));
    r
}

} // verus!
