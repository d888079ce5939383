//! What decimal notation, splitting and words are, over characters and places.

use vstd::arithmetic::div_mod::lemma_div_denominator;
use vstd::arithmetic::power::{lemma_pow0, lemma_pow_positive, pow};
use vstd::prelude::*;

use crate::text::{
    all_digits, decimal, digit, is_digit, is_space, law_pieces_of_joined_texts,
    lemma_decimal_digits, lemma_one_piece, lemma_word_end, lemma_word_end_is, number, pieces,
    unsigned, word_end, words,
};

verus! {

/// A digit weighs ten times what it would weigh one place further to the right.
proof fn lemma_next_place(n: nat, k: nat)
    requires
        k > 0,
    ensures
        n as int / pow(10, k) == (n / 10) as int / pow(10, (k - 1) as nat),
{
    reveal(pow);
    lemma_pow_positive(10, (k - 1) as nat);
    lemma_div_denominator(n as int, 10, pow(10, (k - 1) as nat));
}

/// The digits of a text, from the right, are the decimal places of its number.
proof fn lemma_places(text: Seq<char>, k: int)
    requires
        all_digits(text),
        0 <= k < text.len(),
    ensures
        (number(text) as int / pow(10, k as nat)) % 10 == text[text.len() - 1 - k] as int
            - '0' as int,
    decreases text.len(),
{
    let before = text.drop_last();
    assert(is_digit(text[text.len() - 1]));
    assert(number(text) / 10 == number(before));
    if k == 0 {
        lemma_pow0(10);
    } else {
        assert forall|i: int| 0 <= i < before.len() implies is_digit(#[trigger] before[i]) by {
            assert(is_digit(text[i]));
        }
        lemma_places(before, k - 1);
        lemma_next_place(number(text), k as nat);
    }
}

/// A number of as many digits is less than the next power of ten.
proof fn lemma_below_power(text: Seq<char>)
    requires
        all_digits(text),
    ensures
        (number(text) as int) < pow(10, text.len()),
    decreases text.len(),
{
    if text.len() == 0 {
        lemma_pow0(10);
    } else {
        let before = text.drop_last();
        assert(is_digit(text[text.len() - 1]));
        assert forall|i: int| 0 <= i < before.len() implies is_digit(#[trigger] before[i]) by {
            assert(is_digit(text[i]));
        }
        lemma_below_power(before);
        reveal(pow);
    }
}

proof fn lemma_no_leading_zero(n: nat)
    ensures
        decimal(n).len() > 1 ==> decimal(n)[0] != '0',
        n > 0 ==> decimal(n)[0] != '0',
    decreases n,
{
    if n >= 10 {
        lemma_no_leading_zero(n / 10);
        lemma_decimal_digits(n / 10);
        assert(decimal(n)[0] == decimal(n / 10)[0]);
    }
}

/// Decimal notation is positional: it consists of the characters from `0` to `9`, without
/// leading zeros, and the character at place `k` from the right is how many times the `k`th
/// power of ten is left over in `n` after all higher ones.
pub proof fn law_decimal_places(n: nat)
    ensures
        decimal(n).len() > 0,
        forall|i: int| 0 <= i < decimal(n).len() ==> '0' <= #[trigger] decimal(n)[i] <= '9',
        decimal(n).len() > 1 ==> decimal(n)[0] != '0',
        (n as int) < pow(10, decimal(n).len()),
        forall|k: int|
            #![trigger pow(10, k as nat)]
            0 <= k < decimal(n).len() ==> decimal(n)[decimal(n).len() - 1 - k] as int - '0' as int
                == (n as int / pow(10, k as nat)) % 10,
{
    lemma_decimal_digits(n);
    lemma_no_leading_zero(n);
    lemma_below_power(decimal(n));
    assert forall|i: int| 0 <= i < decimal(n).len() implies '0' <= #[trigger] decimal(n)[i]
        <= '9' by {
        assert(is_digit(decimal(n)[i]));
    }
    assert forall|k: int|
        #![trigger pow(10, k as nat)]
        0 <= k < decimal(n).len() implies decimal(n)[decimal(n).len() - 1 - k] as int - '0' as int
        == (n as int / pow(10, k as nat)) % 10 by {
        lemma_places(decimal(n), k);
    }
}

/// What the digits of a text weigh, each by its place.
pub open spec fn weights(text: Seq<char>) -> Seq<int> {
    Seq::new(
        text.len(),
        |i: int| (text[i] as int - '0' as int) * pow(10, (text.len() - 1 - i) as nat),
    )
}

/// The sum of the given numbers.
pub open spec fn total(parts: Seq<int>) -> int {
    parts.fold_left(0int, |sum: int, part: int| sum + part)
}

proof fn lemma_total_scaled(parts: Seq<int>, scaled: Seq<int>)
    requires
        parts.len() == scaled.len(),
        forall|i: int| 0 <= i < parts.len() ==> #[trigger] scaled[i] == 10 * parts[i],
    ensures
        total(scaled) == 10 * total(parts),
    decreases parts.len(),
{
    if parts.len() > 0 {
        lemma_total_scaled(parts.drop_last(), scaled.drop_last());
        assert(scaled[parts.len() - 1] == 10 * parts[parts.len() - 1]);
    }
}

/// A text of digits stands for the sum of its digits, each weighted with the power of ten of
/// its place.
pub proof fn law_number_is_weighted_sum(text: Seq<char>)
    requires
        forall|i: int| 0 <= i < text.len() ==> '0' <= #[trigger] text[i] <= '9',
    ensures
        number(text) == total(weights(text)),
    decreases text.len(),
{
    if text.len() > 0 {
        let before = text.drop_last();
        let last = text.len() - 1;
        let all = weights(text);
        law_number_is_weighted_sum(before);
        lemma_pow0(10);
        assert forall|i: int| 0 <= i < before.len() implies #[trigger] all.drop_last()[i] == 10
            * weights(before)[i] by {
            let k = (last - i) as nat;
            let d = text[i] as int - '0' as int;
            reveal(pow);
            let p = pow(10, (k - 1) as nat);
            assert(pow(10, k) == 10 * p);
            assert(all[i] == d * pow(10, k));
            assert(d * (10 * p) == 10 * (d * p)) by (nonlinear_arith);
        }
        lemma_total_scaled(weights(before), all.drop_last());
        assert('0' <= text[last] <= '9');
        assert(all[last] == text[last] as int - '0' as int) by {
            assert((text[last] as int - '0' as int) * 1 == text[last] as int - '0' as int);
        }
        assert(all.last() == all[last]);
    }
}

/// Decimal notation weighs what it stands for.
pub proof fn law_decimal_is_weighted_sum(n: nat)
    ensures
        total(weights(decimal(n))) == n,
{
    law_decimal_places(n);
    lemma_decimal_digits(n);
    law_number_is_weighted_sum(decimal(n));
}

/// A number is read from exactly the texts that consist of at least one character from `0`
/// to `9`, with a plus sign before them or not, and weigh no more than fits; it is what they
/// weigh.
pub proof fn law_unsigned(text: Seq<char>, digits: Seq<char>)
    requires
        digits == if text.len() > 0 && text[0] == '+' {
            text.skip(1)
        } else {
            text
        },
    ensures
        unsigned(text) is Some <==> digits.len() > 0 && (forall|i: int|
            0 <= i < digits.len() ==> '0' <= #[trigger] digits[i] <= '9') && total(weights(digits))
            <= usize::MAX,
        unsigned(text) matches Some(n) ==> n == total(weights(digits)),
{
    if forall|i: int| 0 <= i < digits.len() ==> '0' <= #[trigger] digits[i] <= '9' {
        law_number_is_weighted_sum(digits);
        assert forall|i: int| 0 <= i < digits.len() implies is_digit(#[trigger] digits[i]) by {
            assert('0' <= digits[i] <= '9');
        }
        assert(all_digits(digits));
    } else {
        let i = choose|i: int| 0 <= i < digits.len() && !('0' <= #[trigger] digits[i] <= '9');
        assert(!is_digit(digits[i]));
        assert(!all_digits(digits));
    }
}

/// Of a text in which the pattern does not occur there is one piece, the text.
pub proof fn law_unsplit(text: Seq<char>, pattern: Seq<char>)
    requires
        pattern.len() > 0,
        forall|i: int|
            0 <= i && i + pattern.len() <= text.len() ==> #[trigger] text.subrange(
                i,
                i + pattern.len(),
            ) != pattern,
    ensures
        pieces(text, pattern) == seq![text],
{
    lemma_one_piece(text, pattern);
}

/// An occurrence of the pattern is left out, and the pieces before and after it are those of
/// the texts before and after it.  Together with `law_unsplit` this says what the pieces of any
/// text are.
pub proof fn law_split(left: Seq<char>, pattern: Seq<char>, right: Seq<char>)
    requires
        pattern.len() > 0,
        forall|k: int|
            0 < k < pattern.len() ==> #[trigger] pattern.skip(k) != pattern.take(
                pattern.len() - k,
            ),
    ensures
        pieces(left + pattern + right, pattern) == pieces(left, pattern) + pieces(right, pattern),
{
    law_pieces_of_joined_texts(left, pattern, right);
}

/// Space, tab, line feed, form feed and carriage return separate words, and nothing else
/// does.
pub proof fn law_spaces(c: char)
    ensures
        is_space(c) <==> c as u32 == 32 || c as u32 == 9 || c as u32 == 10 || c as u32 == 12
            || c as u32 == 13,
{
}

/// There is no word in nothing.
pub proof fn law_no_words()
    ensures
        words(Seq::empty()) == Seq::<Seq<char>>::empty(),
{
}

/// A text without spaces is one word.
pub proof fn law_one_word(text: Seq<char>)
    requires
        text.len() > 0,
        forall|i: int|
            0 <= i < text.len() ==> #[trigger] text[i] != ' ' && text[i] != '\t' && text[i] != '\n'
                && text[i] != '\x0c' && text[i] != '\r',
    ensures
        words(text) == seq![text],
{
    assert(!is_space(text[0]));
    lemma_word_end_is(text, 0, text.len() as int);
    assert(text.take(text.len() as int) == text);
    assert(text.skip(text.len() as int) == Seq::<char>::empty());
    law_no_words();
    assert(seq![text] + Seq::<Seq<char>>::empty() == seq![text]);
}

/// A space is left out, and the words before and after it are those of the texts before and
/// after it.  Together with `law_no_words` and `law_one_word` this says what the words of any
/// text are.
pub proof fn law_words_around_space(left: Seq<char>, space: char, right: Seq<char>)
    requires
        space == ' ' || space == '\t' || space == '\n' || space == '\x0c' || space == '\r',
    ensures
        words(left + seq![space] + right) == words(left) + words(right),
    decreases left.len(),
{
    let whole = left + seq![space] + right;
    if left.len() == 0 {
        assert(whole[0] == space);
        assert(whole.skip(1) == right);
        assert(words(left) + words(right) == words(right));
    } else if is_space(left[0]) {
        law_words_around_space(left.skip(1), space, right);
        assert(whole[0] == left[0]);
        assert(whole.skip(1) == left.skip(1) + seq![space] + right);
    } else {
        let end = word_end(left, 0);
        lemma_word_end(left, 0);
        assert(whole[0] == left[0]);
        assert forall|j: int| 0 <= j < end implies !is_space(whole[j]) by {
            assert(whole[j] == left[j]);
        }
        assert(is_space(whole[end])) by {
            if end < left.len() {
                assert(whole[end] == left[end]);
            } else {
                assert(whole[end] == space);
            }
        }
        lemma_word_end_is(whole, 0, end);
        law_words_around_space(left.skip(end), space, right);
        assert(whole.take(end) == left.take(end));
        assert(whole.skip(end) == left.skip(end) + seq![space] + right);
        assert(seq![left.take(end)] + (words(left.skip(end)) + words(right)) == seq![
            left.take(end),
        ] + words(left.skip(end)) + words(right));
    }
}

} // verus!
