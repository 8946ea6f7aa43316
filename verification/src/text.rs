//! Small operations on strings, specified over their characters.

use vstd::prelude::*;
#[allow(unused_imports)]
use vstd::string::*;
#[allow(unused_imports)]
use vstd::utf8::*;

verus! {

/// Two strings with the same UTF-8 encoding hold the same characters.
proof fn lemma_encoding_is_injective(a: Seq<char>, b: Seq<char>)
    ensures
        encode_utf8(a) == encode_utf8(b) ==> a == b,
{
    encode_utf8_decode_utf8(a);
    encode_utf8_decode_utf8(b);
}

/// Encoding a concatenation encodes its parts one after the other.
proof fn lemma_encoding_of_concatenation(a: Seq<char>, b: Seq<char>)
    ensures
        encode_utf8(a + b) == encode_utf8(a) + encode_utf8(b),
    decreases a.len(),
{
    if a.len() == 0 {
        assert(a + b =~= b);
        assert(encode_utf8(a) + encode_utf8(b) =~= encode_utf8(b));
    } else {
        assert((a + b).drop_first() =~= a.drop_first() + b);
        lemma_encoding_of_concatenation(a.drop_first(), b);
        assert(encode_utf8(a + b) =~= encode_utf8(a) + encode_utf8(b));
    }
}

/// Whether `a` and `b` hold the same characters.
pub fn same_text(a: &str, b: &str) -> (same: bool)
    ensures
        same == (a@ == b@),
{
    let left: &[u8] = a.as_bytes();
    let right: &[u8] = b.as_bytes();
    proof {
        lemma_encoding_is_injective(a@, b@);
    }
    if left.len() != right.len() {
        return false;
    }
    let mut i: usize = 0;
    while i < left.len()
        invariant
            i <= left.len(),
            left@.len() == right@.len(),
            left@ == encode_utf8(a@),
            right@ == encode_utf8(b@),
            forall|j: int| 0 <= j < i ==> left@[j] == right@[j],
        decreases left.len() - i,
    {
        if left[i] != right[i] {
            return false;
        }
        i = i + 1;
    }
    assert(left@ =~= right@);
    true
}

/// What follows `prefix` in `text`; nothing if `text` does not start with it.
pub open spec fn after_prefix(text: Seq<char>, prefix: Seq<char>) -> Option<Seq<char>> {
    if prefix.is_prefix_of(text) {
        Some(text.skip(prefix.len() as int))
    } else {
        None
    }
}

/// What follows `prefix` in `text`; nothing if `text` does not start with it.
pub fn strip_prefix<'a>(text: &'a str, prefix: &str) -> (rest: Option<&'a str>)
    ensures
        match rest {
            Some(rest) => after_prefix(text@, prefix@) == Some(rest@),
            None => after_prefix(text@, prefix@) is None,
        },
{
    let cut: usize = prefix.as_bytes().len();
    let ghost bytes = encode_utf8(text@);
    proof {
        encode_utf8_valid_utf8(text@);
        if prefix@.is_prefix_of(text@) {
            let tail = text@.skip(prefix@.len() as int);
            assert(text@ =~= prefix@ + tail);
            lemma_encoding_of_concatenation(prefix@, tail);
            encode_utf8_valid_utf8(prefix@);
            encode_utf8_valid_utf8(tail);
            lemma_boundary_between(encode_utf8(prefix@), encode_utf8(tail));
        }
    }
    if !text.is_char_boundary(cut) {
        return None;
    }
    let (head, rest): (&str, &str) = text.split_at(cut);
    proof {
        lemma_boundary_in_range(bytes, cut as int);
        assert(bytes =~= encode_utf8(head@) + encode_utf8(rest@));
        lemma_encoding_of_concatenation(head@, rest@);
        lemma_encoding_is_injective(text@, head@ + rest@);
        assert(text@ == head@ + rest@);
    }
    if same_text(head, prefix) {
        assert(text@.skip(prefix@.len() as int) =~= rest@);
        Some(rest)
    } else {
        proof {
            if prefix@.is_prefix_of(text@) {
                let tail = text@.skip(prefix@.len() as int);
                assert(text@ =~= prefix@ + tail);
                assert(encode_utf8(head@) =~= bytes.subrange(0, cut as int));
                assert(encode_utf8(prefix@) =~= bytes.subrange(0, cut as int));
                lemma_encoding_is_injective(head@, prefix@);
            }
        }
        None
    }
}

/// The end of one valid encoding is a character boundary of it and what follows.
proof fn lemma_boundary_between(a: Seq<u8>, b: Seq<u8>)
    requires
        valid_utf8(a),
        valid_utf8(b),
    ensures
        is_char_boundary(a + b, a.len() as int),
    decreases a.len(),
{
    valid_utf8_concat(a, b);
    if a.len() > 0 {
        let rest = pop_first_scalar(a);
        assert(length_of_first_scalar(a + b) == length_of_first_scalar(a));
        assert(pop_first_scalar(a + b) =~= rest + b);
        lemma_boundary_between(rest, b);
    }
}

/// A character boundary lies within the bytes.
proof fn lemma_boundary_in_range(bytes: Seq<u8>, index: int)
    requires
        valid_utf8(bytes),
        is_char_boundary(bytes, index),
    ensures
        0 <= index <= bytes.len(),
{
}

/// The number that a decimal digit stands for.
pub open spec fn digit_value(c: char) -> nat {
    (c as nat - '0' as nat) as nat
}

/// Whether `s` is made of decimal digits alone.
pub open spec fn all_digits(s: Seq<char>) -> bool {
    forall|i: int| 0 <= i < s.len() ==> '0' <= #[trigger] s[i] <= '9'
}

/// The number that a string of decimal digits stands for.
pub open spec fn decimal_value(s: Seq<char>) -> nat
    decreases s.len(),
{
    if s.len() == 0 {
        0
    } else {
        decimal_value(s.drop_last()) * 10 + digit_value(s.last())
    }
}

/// The digits of a number: what follows an optional plus sign.
pub open spec fn unsigned_digits(s: Seq<char>) -> Seq<char> {
    if s.len() > 0 && s[0] == '+' {
        s.skip(1)
    } else {
        s
    }
}

/// The number written in `s`: an optional plus sign and at least one decimal
/// digit, with nothing else around them, within the range of `usize`.
pub open spec fn number_in(s: Seq<char>) -> Option<usize> {
    let digits = unsigned_digits(s);
    if digits.len() > 0 && all_digits(digits) && decimal_value(digits) <= usize::MAX {
        Some(decimal_value(digits) as usize)
    } else {
        None
    }
}

/// More digits never make a number smaller.
proof fn lemma_prefix_value(s: Seq<char>, n: int)
    requires
        0 <= n <= s.len(),
    ensures
        decimal_value(s.take(n)) <= decimal_value(s),
    decreases s.len() - n,
{
    if n == s.len() {
        assert(s.take(n) =~= s);
    } else {
        assert(s.take(n + 1).drop_last() =~= s.take(n));
        lemma_prefix_value(s, n + 1);
    }
}

/// The number written in `text`, if it is one.
pub fn parse_number(text: &str) -> (number: Option<usize>)
    ensures
        number == number_in(text@),
{
    let ghost digits = unsigned_digits(text@);
    if !text.is_ascii() {
        proof {
            if all_digits(digits) {
                assert forall|i: int| 0 <= i < text@.len() implies '\0' <= #[trigger] text@[i]
                    <= '\u{7f}' by {
                    if text@ != digits && i > 0 {
                        assert(digits[i - 1] == text@[i]);
                    }
                }
                assert(is_ascii_chars(text@));
            }
        }
        return None;
    }
    let bytes: &[u8] = text.as_bytes();
    proof {
        is_ascii_chars_encode_utf8(text@);
    }
    let start: usize = if bytes.len() > 0 && bytes[0] == 43u8 {
        1
    } else {
        0
    };
    assert(start == text@.len() - digits.len());
    assert(forall|i: int| 0 <= i < digits.len() ==> digits[i] == text@[i + start]);
    if start == bytes.len() {
        return None;
    }
    let mut value: usize = 0;
    let mut i: usize = start;
    while i < bytes.len()
        invariant
            start <= i <= bytes.len(),
            start <= 1,
            bytes@.len() == text@.len(),
            is_ascii_chars(text@),
            digits == unsigned_digits(text@),
            start == text@.len() - digits.len(),
            forall|j: int| 0 <= j < digits.len() ==> digits[j] == text@[j + start],
            forall|j: int| 0 <= j < text@.len() ==> text@[j] as u8 == #[trigger] bytes@[j],
            forall|j: int| 0 <= j < i - start ==> '0' <= #[trigger] digits[j] <= '9',
            value == decimal_value(digits.take(i - start)),
        decreases bytes.len() - i,
    {
        let b: u8 = bytes[i];
        let ghost k = i - start;
        assert(digits[k] as u8 == b);
        assert((digits[k] as nat) < 128);
        if b < 48 || b > 57 {
            assert(!('0' <= digits[k] <= '9'));
            return None;
        }
        let d: usize = (b - 48) as usize;
        proof {
            assert(digits.take(k + 1).drop_last() =~= digits.take(k));
            assert(digits.take(k + 1).last() == digits[k]);
            lemma_prefix_value(digits, k + 1);
        }
        if value > (usize::MAX - d) / 10 {
            return None;
        }
        value = value * 10 + d;
        i = i + 1;
    }
    assert(digits.take(digits.len() as int) =~= digits);
    Some(value)
}

/// What follows a prefix is found again, and only where the text starts with the prefix.
pub proof fn law_prefix_is_cut_off(text: Seq<char>, prefix: Seq<char>, rest: Seq<char>)
    ensures
        after_prefix(text, prefix) == Some(rest) <==> text == prefix + rest,
{
    if text == prefix + rest {
        assert(text.skip(prefix.len() as int) =~= rest);
        assert(text.take(prefix.len() as int) =~= prefix);
    }
    if after_prefix(text, prefix) == Some(rest) {
        assert(text =~= prefix + rest);
    }
}

/// The value of a digit, and nothing for any other character.
pub open spec fn digit_in(c: char) -> Option<int> {
    if '0' <= c && c <= '9' {
        Some(c as int - '0' as int)
    } else {
        None
    }
}

/// How a number is read, digit by digit: each digit behind a number makes it ten times as
/// large and adds to it, as long as it stays within range; any other character spoils it
/// for good, and so does a digit too many. It takes a digit to start with, behind a plus
/// sign or not.
pub proof fn law_number_is_read_digit_by_digit(s: Seq<char>, c: char)
    ensures
        number_in(seq![]) is None,
        number_in(seq!['+']) is None,
        digit_in(c) matches Some(d) ==> number_in(seq![c]) == Some(d as usize) && number_in(
            seq!['+', c],
        ) == Some(d as usize),
        digit_in(c) is None ==> number_in(seq!['+', c]) is None && number_in(seq![c]) is None,
        number_in(s) matches Some(n) ==> match digit_in(c) {
            Some(d) => if n * 10 + d <= usize::MAX {
                number_in(s.push(c)) == Some((n * 10 + d) as usize)
            } else {
                number_in(s.push(c)) is None
            },
            None => number_in(s.push(c)) is None,
        },
        number_in(s) is None && s.len() > 0 && s != seq!['+'] ==> number_in(s.push(c)) is None,
{
    reveal_with_fuel(decimal_value, 2);
    assert(seq!['+', c].skip(1) =~= seq![c]);
    assert(seq!['+'].skip(1) =~= Seq::<char>::empty());
    assert(seq![c].drop_last() =~= Seq::<char>::empty());
    if digit_in(c) is None {
        assert(!('0' <= seq![c][0] <= '9'));
    }
    if s.len() > 0 && s != seq!['+'] {
        let digits = unsigned_digits(s);
        let more = unsigned_digits(s.push(c));
        assert(more =~= digits.push(c));
        assert(more.drop_last() =~= digits);
        assert(digits.len() > 0) by {
            if digits.len() == 0 {
                assert(s =~= seq!['+']);
            }
        }
        if all_digits(more) {
            assert forall|i: int| 0 <= i < digits.len() implies '0' <= #[trigger] digits[i] <= '9' by {
                assert(more[i] == digits[i]);
            }
            assert(more[digits.len() as int] == c);
        }
        if all_digits(digits) && digit_in(c) is Some {
            assert forall|i: int| 0 <= i < more.len() implies '0' <= #[trigger] more[i] <= '9' by {
                if i < digits.len() {
                    assert(more[i] == digits[i]);
                }
            }
        }
    }
}

} // verus!
