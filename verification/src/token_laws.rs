//! Where tokens end and what they stand for: numbers, words, and what is passed over.

use crate::lexer::{
    digits_end, digits_value, has_fraction, is_blank, number_end, one_char_symbol, skip_ignored,
    token_at, two_char_symbol, word_end, word_part, word_start, word_token, Scan, TokenV,
};
use crate::text::ascii_digit;
use crate::value_laws::number_of;
use vstd::prelude::*;

verus! {

/// A text of digits.
pub open spec fn all_digits(t: Seq<char>) -> bool {
    forall|i: int| 0 <= i < t.len() ==> ascii_digit(#[trigger] t[i])
}

proof fn lemma_digits(t: Seq<char>, i: int, n: int)
    requires
        0 <= i <= n <= t.len(),
        forall|k: int| i <= k < n ==> ascii_digit(#[trigger] t[k]),
        n < t.len() ==> !ascii_digit(t[n]),
    ensures
        digits_end(t, i) == n,
    decreases n - i,
{
    if i < n {
        assert(ascii_digit(t[i]));
        lemma_digits(t, i + 1, n);
    }
}

proof fn lemma_value(t: Seq<char>)
    requires
        all_digits(t),
    ensures
        digits_value(t) == number_of(t),
    decreases t.len(),
{
    if t.len() > 0 {
        let front = t.drop_last();
        assert forall|i: int| 0 <= i < front.len() implies ascii_digit(#[trigger] front[i]) by {
            assert(front[i] == t[i]);
        }
        lemma_value(front);
        assert(ascii_digit(t[t.len() - 1]));
    }
}

proof fn lemma_digit_is_no_symbol(c: char, d: char)
    requires
        ascii_digit(c),
    ensures
        two_char_symbol(c, d) is None,
        one_char_symbol(c) is None,
        c != '&',
        c != '"',
{
}

/// Digits that no digit follows, and no point but for the two of a range, are the integer that they
/// stand for, where it fits; elsewhere they are an error.
pub proof fn law_integer_token(s: Scan, digits: Seq<char>, rest: Seq<char>)
    requires
        digits.len() > 0,
        all_digits(digits),
        s.rest == digits + rest,
        rest.len() > 0 ==> !ascii_digit(rest[0]),
        rest.len() > 0 && rest[0] == '.' ==> rest.len() > 1 && rest[1] == '.',
    ensures
        number_of(digits) <= i64::MAX ==> token_at(s) == (
            Ok::<TokenV, Seq<char>>(TokenV::Int(number_of(digits) as i64)),
            digits.len() as int,
        ),
        number_of(digits) > i64::MAX ==> token_at(s).0 is Err,
{
    let t = s.rest;
    let n = digits.len() as int;
    assert forall|k: int| 0 <= k < n implies ascii_digit(#[trigger] t[k]) by {
        assert(t[k] == digits[k]);
    }
    if n < t.len() {
        assert(t[n] == rest[0]);
    }
    if n + 1 < t.len() {
        assert(t[n + 1] == rest[1]);
    }
    lemma_digits(t, 1, n);
    assert(ascii_digit(t[0]));
    lemma_digit_is_no_symbol(
        t[0],
        if t.len() > 1 {
            t[1]
        } else {
            'a'
        },
    );
    assert(!has_fraction(t));
    assert(number_end(t) == n);
    assert(t.subrange(0, n) =~= digits);
    lemma_value(digits);
}

/// Digits, a point and digits are a number with a fraction, as it is written.
pub proof fn law_float_token(s: Scan, a: Seq<char>, b: Seq<char>, rest: Seq<char>)
    requires
        a.len() > 0,
        b.len() > 0,
        all_digits(a),
        all_digits(b),
        s.rest == a + seq!['.'] + b + rest,
        rest.len() > 0 ==> !ascii_digit(rest[0]),
    ensures
        token_at(s) == (
            Ok::<TokenV, Seq<char>>(TokenV::Float(a + seq!['.'] + b)),
            (a.len() + 1 + b.len()) as int,
        ),
{
    let t = s.rest;
    let n = a.len() as int;
    let e = n + 1 + b.len();
    assert forall|k: int| 0 <= k < n implies ascii_digit(#[trigger] t[k]) by {
        assert(t[k] == a[k]);
    }
    assert(t[n] == '.');
    assert(t[n + 1] == b[0]);
    assert forall|k: int| n + 1 <= k < e implies ascii_digit(#[trigger] t[k]) by {
        assert(t[k] == b[k - n - 1]);
    }
    if e < t.len() {
        assert(t[e] == rest[0]);
    }
    lemma_digits(t, 1, n);
    lemma_digits(t, n + 1, e);
    assert(ascii_digit(t[0]));
    lemma_digit_is_no_symbol(t[0], t[1]);
    assert(has_fraction(t));
    assert(number_end(t) == e);
    assert(t.subrange(0, e) =~= a + seq!['.'] + b);
}

proof fn lemma_word(t: Seq<char>, i: int, n: int)
    requires
        0 <= i <= n <= t.len(),
        forall|k: int| i <= k < n ==> word_part(#[trigger] t[k]),
        n < t.len() ==> !word_part(t[n]),
    ensures
        word_end(t, i) == n,
    decreases n - i,
{
    if i < n {
        assert(word_part(t[i]));
        lemma_word(t, i + 1, n);
    }
}

/// A word goes on as long as it can: it is a keyword or a name as a whole.
pub proof fn law_word_token(s: Scan, word: Seq<char>, rest: Seq<char>)
    requires
        word.len() > 0,
        word_start(word[0]),
        !ascii_digit(word[0]),
        one_char_symbol(word[0]) is None,
        forall|d: char| #[trigger] two_char_symbol(word[0], d) is None,
        word[0] != '&',
        word[0] != '"',
        forall|k: int| 0 < k < word.len() ==> word_part(#[trigger] word[k]),
        s.rest == word + rest,
        rest.len() > 0 ==> !word_part(rest[0]),
    ensures
        token_at(s) == (Ok::<TokenV, Seq<char>>(word_token(word)), word.len() as int),
{
    let t = s.rest;
    let n = word.len() as int;
    assert(t[0] == word[0]);
    assert forall|k: int| 1 <= k < n implies word_part(#[trigger] t[k]) by {
        assert(t[k] == word[k]);
    }
    if n < t.len() {
        assert(t[n] == rest[0]);
    }
    lemma_word(t, 1, n);
    assert(t.subrange(0, n) =~= word);
}

/// Blanks are passed over.
pub proof fn law_blank_is_passed(s: Scan)
    requires
        s.rest.len() > 0,
        is_blank(s.rest[0]),
    ensures
        skip_ignored(s, false) == skip_ignored(s.bump(), false),
{
}

/// A comment is passed over up to the end of its line, whatever stands in it.
pub proof fn law_comment_is_passed(s: Scan, in_it: bool)
    requires
        s.rest.len() > 0,
    ensures
        in_it && s.rest[0] != '\n' ==> skip_ignored(s, true) == skip_ignored(s.bump(), true),
        in_it && s.rest[0] == '\n' ==> skip_ignored(s, true) == skip_ignored(s.bump(), false),
        !in_it && s.rest.len() > 1 && s.rest[0] == '/' && s.rest[1] == '/' && !is_blank('/')
            ==> skip_ignored(s, false) == skip_ignored(s.bump(), true),
        !in_it && !is_blank(s.rest[0]) && !(s.rest.len() > 1 && s.rest[0] == '/' && s.rest[1]
            == '/') ==> skip_ignored(s, false) == s,
{
}

} // verus!
