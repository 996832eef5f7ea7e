//! The answer to the question whether an existing file may be overwritten.
use crate::text::{to_chars, trim, trim_bounds};
use vstd::prelude::*;

verus! {

/// The uppercase form of the letters that the answers are made of; any other
/// character stands for itself.
pub open spec fn uppercase(letter: char) -> char {
    if letter == 'y' {
        'Y'
    } else if letter == 'e' {
        'E'
    } else if letter == 's' {
        'S'
    } else if letter == 'n' {
        'N'
    } else if letter == 'o' {
        'O'
    } else {
        letter
    }
}

/// Whether `c` is `letter` or its uppercase form.
pub open spec fn is_letter(c: char, letter: char) -> bool {
    c == letter || c == uppercase(letter)
}

/// Whether `s` is `word`, whatever the case of its letters.
pub open spec fn is_word(s: Seq<char>, word: Seq<char>) -> bool {
    s.len() == word.len() && forall|i: int| 0 <= i < s.len() ==> is_letter(#[trigger] s[i], word[i])
}

/// What `answer` says once trimmed: `y` or `yes` allows (`Some(true)`), `n` or
/// `no` refuses (`Some(false)`), whatever the case of the letters; anything
/// else is no answer (`None`), and the question is to be asked again.
pub open spec fn allowed(answer: Seq<char>) -> Option<bool> {
    if is_word(trim(answer), seq!['y']) || is_word(trim(answer), seq!['y', 'e', 's']) {
        Some(true)
    } else if is_word(trim(answer), seq!['n']) || is_word(trim(answer), seq!['n', 'o']) {
        Some(false)
    } else {
        None
    }
}

/// Whether `v[at]` is `letter` or its uppercase form.
fn letter_at(v: &Vec<char>, at: usize, letter: char) -> (r: bool)
    requires
        at < v.len(),
    ensures
        r == is_letter(v@[at as int], letter),
{
    let c = v[at];
    let upper = if letter == 'y' {
        'Y'
    } else if letter == 'e' {
        'E'
    } else if letter == 's' {
        'S'
    } else if letter == 'n' {
        'N'
    } else if letter == 'o' {
        'O'
    } else {
        letter
    };
    c == letter || c == upper
}

/// Reads the operator's answer to a yes-or-no question.
pub fn overwrite_answer(answer: &str) -> (r: Option<bool>)
    ensures
        r == allowed(answer@),
{
    let chars = to_chars(answer);
    let (a, b) = trim_bounds(&chars, 0, chars.len());
    let ghost word = trim(answer@);
    proof {
        assert(chars@.subrange(0, chars.len() as int) == chars@);
        assert(forall|i: int| 0 <= i < word.len() ==> word[i] == chars@[a + i]);
    }
    let n = b - a;
    if n == 1 && letter_at(&chars, a, 'y') {
        assert(is_word(word, seq!['y']));
        Some(true)
    } else if n == 3 && letter_at(&chars, a, 'y') && letter_at(&chars, a + 1, 'e') && letter_at(
        &chars,
        a + 2,
        's',
    ) {
        assert(is_word(word, seq!['y', 'e', 's']));
        Some(true)
    } else if n == 1 && letter_at(&chars, a, 'n') {
        assert(is_word(word, seq!['n']));
        assert(!is_word(word, seq!['y'])) by {
            assert(!is_letter(word[0], seq!['y'][0]));
        }
        Some(false)
    } else if n == 2 && letter_at(&chars, a, 'n') && letter_at(&chars, a + 1, 'o') {
        assert(is_word(word, seq!['n', 'o']));
        Some(false)
    } else {
        proof {
            if is_word(word, seq!['y']) {
                assert(is_letter(word[0], seq!['y'][0]));
            }
            if is_word(word, seq!['y', 'e', 's']) {
                assert(is_letter(word[0], seq!['y', 'e', 's'][0]));
                assert(is_letter(word[1], seq!['y', 'e', 's'][1]));
                assert(is_letter(word[2], seq!['y', 'e', 's'][2]));
            }
            if is_word(word, seq!['n']) {
                assert(is_letter(word[0], seq!['n'][0]));
            }
            if is_word(word, seq!['n', 'o']) {
                assert(is_letter(word[0], seq!['n', 'o'][0]));
                assert(is_letter(word[1], seq!['n', 'o'][1]));
            }
        }
        None
    }
}

} // verus!
