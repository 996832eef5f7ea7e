//! The variable classifier: decides what a `NAME=rest` line declares.
use crate::text::{
    decimal_text, digits_number, find_char, find_text, first_index, first_occurrence,
    lemma_decimal_round_trip, lemma_first_index, lemma_first_occurrence, parse_number, slice_of,
    string_of, text_of, to_chars,
};
use vstd::prelude::*;

verus! {

/// Whether `c` can start a name: an uppercase ASCII letter.
pub open spec fn is_name_start(c: char) -> bool {
    'A' <= c && c <= 'Z'
}

/// Whether `c` can stand in a name: an uppercase ASCII letter, a digit or an underscore.
pub open spec fn is_name_char(c: char) -> bool {
    is_name_start(c) || ('0' <= c && c <= '9') || c == '_'
}

/// Whether `name` is a valid variable name: its first character is an
/// uppercase ASCII letter, and each of its characters is an uppercase ASCII
/// letter, a digit or an underscore.
pub open spec fn valid_name(name: Seq<char>) -> bool {
    &&& name.len() > 0
    &&& is_name_start(name[0])
    &&& forall|i: int| 0 <= i < name.len() ==> is_name_char(#[trigger] name[i])
}

/// Whether `c` can stand in a name.
fn name_char(c: char) -> (r: bool)
    ensures
        r == is_name_char(c),
{
    (c >= 'A' && c <= 'Z') || (c >= '0' && c <= '9') || c == '_'
}

/// Whether the characters of `name` make a valid variable name.
fn valid_name_chars(name: &Vec<char>) -> (r: bool)
    ensures
        r == valid_name(name@),
{
    if name.len() == 0 {
        return false;
    }
    if !(name[0] >= 'A' && name[0] <= 'Z') {
        return false;
    }
    let mut i: usize = 0;
    while i < name.len()
        invariant
            i <= name.len(),
            forall|j: int| 0 <= j < i ==> is_name_char(#[trigger] name@[j]),
        decreases name.len() - i,
    {
        if !name_char(name[i]) {
            return false;
        }
        i += 1;
    }
    true
}

/// Whether `name` is a valid variable name.
pub fn is_valid_name(name: &str) -> (r: bool)
    ensures
        r == valid_name(name@),
{
    let chars = to_chars(name);
    valid_name_chars(&chars)
}

/// Whether `value[open..=close]` is a placeholder: a `{`, a valid name and a `}`.
pub open spec fn placeholder_at(value: Seq<char>, open: int, close: int) -> bool {
    &&& 0 <= open < close < value.len()
    &&& value[open] == '{'
    &&& value[close] == '}'
    &&& valid_name(value.subrange(open + 1, close))
}

/// Whether `value` holds a placeholder `{NAME}` with a valid name.
pub open spec fn has_placeholder(value: Seq<char>) -> bool {
    exists|open: int, close: int| placeholder_at(value, open, close)
}

/// Whether `value` holds a placeholder with a valid name.
fn placeholder_in(value: &Vec<char>) -> (r: bool)
    ensures
        r == has_placeholder(value@),
{
    let n = value.len();
    let mut i: usize = 0;
    while i < n
        invariant
            i <= n == value.len(),
            forall|open: int, close: int| open < i ==> !placeholder_at(value@, open, close),
        decreases n - i,
    {
        if value[i] == '{' {
            let close = find_char(value, i + 1, n, '}');
            let ghost tail = value@.subrange(i + 1, n as int);
            proof {
                lemma_first_index(tail, '}');
            }
            if close < n {
                let name = slice_of(value, i + 1, close);
                if valid_name_chars(&name) {
                    assert(value@[close as int] == tail[close - i - 1]);
                    assert(placeholder_at(value@, i as int, close as int));
                    return true;
                }
            }
            assert forall|other: int| !placeholder_at(value@, i as int, other) by {
                if placeholder_at(value@, i as int, other) {
                    assert(value@[other] == tail[other - i - 1]);
                    assert(close <= other);
                    if close < other {
                        let name = value@.subrange(i + 1, other);
                        assert(name[close - i - 1] == tail[close - i - 1]);
                        assert(!is_name_char(name[close - i - 1]));
                    }
                }
            }
        }
        i += 1;
    }
    false
}

/// Whether `value` is a pattern: it holds a placeholder `{NAME}` with a valid name.
pub fn is_auto_generated_variable(value: &str) -> (r: bool)
    ensures
        r == has_placeholder(value@),
{
    let chars = to_chars(value);
    placeholder_in(&chars)
}

/// The text that opens a request for a random value.
pub open spec fn random_prefix() -> Seq<char> {
    seq!['<', 'r', 'a', 'n', 'd', 'o', 'm']
}

/// What `value` asks for, where it is a request for a random value:
/// `<random>` asks for a value of any length (`Some(None)`), `<random:N>` for
/// one of `N` characters (`Some(Some(N))`), where `N` is one digit or more and
/// fits in a `usize`. Anything else is no request (`None`).
pub open spec fn random_request(value: Seq<char>) -> Option<Option<usize>> {
    if value.len() >= 8 && value.take(7) == random_prefix() && value.last() == '>' {
        let number = value.subrange(7, value.len() - 1);
        if number.len() == 0 {
            Some(None)
        } else if number[0] == ':' {
            match digits_number(number.skip(1)) {
                Some(n) => Some(Some(n)),
                None => None,
            }
        } else {
            None
        }
    } else {
        None
    }
}

/// The request `<random:N>`, with `N` written in base ten, asks for a value
/// of exactly `N` characters; the request `<random>` names no length.
pub proof fn lemma_random_request_of_length(n: usize)
    ensures
        random_request(random_prefix() + seq![':'] + decimal_text(n as nat) + seq!['>']) == Some(
            Some(n),
        ),
        random_request(random_prefix() + seq!['>']) == Some(None::<usize>),
{
    lemma_decimal_round_trip(n as nat);
    let digits = decimal_text(n as nat);
    let value = random_prefix() + seq![':'] + digits + seq!['>'];
    assert(value.take(7) == random_prefix());
    let number = value.subrange(7, value.len() - 1);
    assert(number == seq![':'] + digits);
    assert(number.skip(1) == digits);
    let bare = random_prefix() + seq!['>'];
    assert(bare.take(7) == random_prefix());
    assert(bare.subrange(7, bare.len() - 1).len() == 0);
}

/// What `value` asks for, where it is a request for a random value.
fn random_request_of(value: &Vec<char>) -> (r: Option<Option<usize>>)
    ensures
        r == random_request(value@),
{
    let n = value.len();
    if n < 8 {
        return None;
    }
    if !(value[0] == '<' && value[1] == 'r' && value[2] == 'a' && value[3] == 'n' && value[4] == 'd'
        && value[5] == 'o' && value[6] == 'm') {
        assert(value@.take(7)[0] == value@[0]);
        assert(value@.take(7)[1] == value@[1]);
        assert(value@.take(7)[2] == value@[2]);
        assert(value@.take(7)[3] == value@[3]);
        assert(value@.take(7)[4] == value@[4]);
        assert(value@.take(7)[5] == value@[5]);
        assert(value@.take(7)[6] == value@[6]);
        return None;
    }
    assert(value@.take(7) =~= random_prefix());
    if value[n - 1] != '>' {
        return None;
    }
    let ghost number = value@.subrange(7, n - 1);
    if n == 8 {
        return Some(None);
    }
    assert(number[0] == value@[7]);
    if value[7] != ':' {
        return None;
    }
    assert(number.skip(1) == value@.subrange(8, n - 1));
    match parse_number(value, 8, n - 1) {
        Some(length) => Some(Some(length)),
        None => None,
    }
}

/// Whether `value` is a request for a random value, and the length that it
/// asks for where it names one.
pub fn is_random_variable(value: &str) -> (r: (bool, Option<usize>))
    ensures
        r.0 == random_request(value@) is Some,
        r.1 == (match random_request(value@) {
            Some(length) => length,
            None => None,
        }),
{
    let chars = to_chars(value);
    match random_request_of(&chars) {
        Some(length) => (true, length),
        None => (false, None),
    }
}

/// The text that separates a value from the help that follows it.
pub open spec fn help_separator() -> Seq<char> {
    seq![' ', ' ', '#', ' ']
}

/// What a variable line declares.
pub enum Classified {
    /// A variable with an optional default and an optional help text.
    Simple { name: Seq<char>, default: Option<Seq<char>>, help: Option<Seq<char>> },
    /// A variable with a random value of the given length, or of any length.
    Random { name: Seq<char>, length: Option<usize> },
    /// A variable whose value is a pattern over other variables.
    AutoGenerated { name: Seq<char>, pattern: Seq<char> },
    /// No variable: the line has no `=`, or the text before it is no valid name.
    Malformed,
}

/// The part of `rest` before the help separator, or all of it where there is none.
pub open spec fn value_part(rest: Seq<char>) -> Seq<char> {
    rest.take(first_occurrence(rest, help_separator()))
}

/// The part of `rest` after the help separator, where there is one.
pub open spec fn help_part(rest: Seq<char>) -> Option<Seq<char>> {
    if first_occurrence(rest, help_separator()) < rest.len() {
        Some(rest.skip(first_occurrence(rest, help_separator()) + 4))
    } else {
        None
    }
}

/// What the value and the help of a line declare for the variable `name`:
/// an empty value is a variable without default; a request for a random value
/// comes before a pattern, and a pattern before a literal default.
pub open spec fn classified_value(name: Seq<char>, value: Seq<char>, help: Option<Seq<char>>) -> Classified {
    if value.len() == 0 {
        Classified::Simple { name, default: None, help }
    } else if random_request(value) is Some {
        Classified::Random { name, length: random_request(value).unwrap() }
    } else if has_placeholder(value) {
        Classified::AutoGenerated { name, pattern: value }
    } else {
        Classified::Simple { name, default: Some(value), help }
    }
}

/// What `line` declares. The name is the text before the first `=`; the rest
/// is split at the first help separator into the value and the help.
pub open spec fn classified(line: Seq<char>) -> Classified {
    let eq = first_index(line, '=');
    if eq >= line.len() || !valid_name(line.take(eq)) {
        Classified::Malformed
    } else {
        classified_value(line.take(eq), value_part(line.skip(eq + 1)), help_part(line.skip(eq + 1)))
    }
}

/// The name that a classification gives its variable; none for a malformed line.
pub open spec fn classified_name(c: Classified) -> Option<Seq<char>> {
    match c {
        Classified::Simple { name, .. } => Some(name),
        Classified::Random { name, .. } => Some(name),
        Classified::AutoGenerated { name, .. } => Some(name),
        Classified::Malformed => None,
    }
}

/// Every variable that a line declares has a valid name: the text before the
/// first `=` of the line.
pub proof fn lemma_classified_name_is_valid(line: Seq<char>)
    ensures
        classified_name(classified(line)) matches Some(name) ==> valid_name(name) && name
            == line.take(first_index(line, '=')),
{
}

/// What a variable line declares, with the texts that it names.
#[derive(Clone, Debug, PartialEq, Eq)]
pub enum Classification {
    Simple { name: String, default: Option<String>, help: Option<String> },
    Random { name: String, length: Option<usize> },
    AutoGenerated { name: String, pattern: String },
    Malformed,
}

impl View for Classification {
    type V = Classified;

    open spec fn view(&self) -> Classified {
        match *self {
            Classification::Simple { name, default, help } => Classified::Simple {
                name: name@,
                default: match default {
                    Some(d) => Some(d@),
                    None => None,
                },
                help: match help {
                    Some(h) => Some(h@),
                    None => None,
                },
            },
            Classification::Random { name, length } => Classified::Random { name: name@, length },
            Classification::AutoGenerated { name, pattern } => Classified::AutoGenerated {
                name: name@,
                pattern: pattern@,
            },
            Classification::Malformed => Classified::Malformed,
        }
    }
}

/// Classifies a variable line.
pub fn classify(line: &str) -> (r: Classification)
    ensures
        r@ == classified(line@),
{
    let chars = to_chars(line);
    let n = chars.len();
    let eq = find_char(&chars, 0, n, '=');
    proof {
        assert(chars@.subrange(0, n as int) == chars@);
        lemma_first_index(chars@, '=');
    }
    if eq >= n {
        return Classification::Malformed;
    }
    let name = slice_of(&chars, 0, eq);
    assert(name@ == chars@.take(eq as int));
    if !valid_name_chars(&name) {
        return Classification::Malformed;
    }
    let rest = slice_of(&chars, eq + 1, n);
    assert(rest@ == chars@.skip(eq + 1));
    let separator: Vec<char> = vec![' ', ' ', '#', ' '];
    assert(separator@ =~= help_separator());
    let at = find_text(&rest, 0, rest.len(), &separator);
    proof {
        assert(rest@.subrange(0, rest.len() as int) == rest@);
        lemma_first_occurrence(rest@, help_separator());
    }
    let value = slice_of(&rest, 0, at);
    assert(value@ == value_part(rest@));
    let help = if at < rest.len() {
        let text = string_of(&rest, at + 4, rest.len());
        assert(text@ == rest@.skip(at + 4));
        Some(text)
    } else {
        None
    };
    if value.len() == 0 {
        return Classification::Simple { name: text_of(&name), default: None, help };
    }
    match random_request_of(&value) {
        Some(length) => {
            return Classification::Random { name: text_of(&name), length };
        },
        None => {},
    }
    if placeholder_in(&value) {
        Classification::AutoGenerated { name: text_of(&name), pattern: text_of(&value) }
    } else {
        Classification::Simple { name: text_of(&name), default: Some(text_of(&value)), help }
    }
}

} // verus!
