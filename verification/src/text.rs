//! Text as sequences of characters: splitting, words and decimal numbers.

use vstd::prelude::*;
use vstd::slice::slice_subrange;

verus! {

/// `String::push` appends one character to the end of the string.
pub assume_specification[ String::push ](s: &mut String, c: char)
    ensures
        final(s)@ == old(s)@.push(c),
;

/// The characters of `s`, in order.
pub fn chars_of(s: &str) -> (r: Vec<char>)
    ensures
        r@ == s@,
{
    let mut out: Vec<char> = Vec::new();
    for c in it: s.chars()
        invariant
            it.seq() == s@,
            out@ == s@.take(it.index()),
    {
        out.push(c);
        assert(s@.take(it.index() + 1) == s@.take(it.index()).push(c));
    }
    assert(s@.take(s@.len() as int) == s@);
    out
}

/// The string that holds the characters of `text`, in order.
pub fn string_of(text: &[char]) -> (r: String)
    ensures
        r@ == text@,
{
    let mut out = String::new();
    let mut i: usize = 0;
    while i < text.len()
        invariant
            i <= text@.len(),
            out@ == text@.take(i as int),
        decreases text@.len() - i,
    {
        out.push(text[i]);
        i = i + 1;
        assert(text@.take(i as int) == text@.take(i - 1).push(text@[i - 1]));
    }
    assert(text@.take(text@.len() as int) == text@);
    out
}

/// Whether two texts hold the same characters.
pub fn same_texts(left: &[char], right: &[char]) -> (r: bool)
    ensures
        r == (left@ == right@),
{
    if left.len() != right.len() {
        return false;
    }
    assert(left@.subrange(0, left@.len() as int) == left@);
    matches_here(left, 0, right)
}

/// Whether `text` holds exactly the characters of `word`.
pub fn equals(text: &[char], word: &str) -> (r: bool)
    ensures
        r == (text@ == word@),
{
    same_texts(text, chars_of(word).as_slice())
}

/// Whether two strings hold the same characters.
pub fn same(left: &str, right: &str) -> (r: bool)
    ensures
        r == (left@ == right@),
{
    equals(chars_of(left).as_slice(), right)
}

/// Whether `pattern` occurs in `text` at index `i`.
pub open spec fn matches_at(text: Seq<char>, pattern: Seq<char>, i: int) -> bool {
    &&& 0 <= i
    &&& i + pattern.len() <= text.len()
    &&& text.subrange(i, i + pattern.len()) == pattern
}

/// The first index from `from` on at which `pattern` occurs in `text`.
pub open spec fn find(text: Seq<char>, pattern: Seq<char>, from: int) -> Option<int>
    decreases text.len() - from + 1,
{
    if from + pattern.len() > text.len() {
        None
    } else if matches_at(text, pattern, from) {
        Some(from)
    } else {
        find(text, pattern, from + 1)
    }
}

/// What stands between the occurrences of `pattern` in `text`, the text before the
/// first one and the text after the last one among them.
/// Occurrences are taken from the left and do not overlap.
pub open spec fn pieces(text: Seq<char>, pattern: Seq<char>) -> Seq<Seq<char>>
    decreases text.len(),
{
    match find(text, pattern, 0) {
        Some(i) if pattern.len() > 0 => {
            proof {
                lemma_find(text, pattern, 0);
            }
            seq![text.take(i)] + pieces(text.skip(i + pattern.len()), pattern)
        },
        _ => seq![text],
    }
}

/// `find` gives an occurrence, and none stands between `from` and it.
pub proof fn lemma_find(text: Seq<char>, pattern: Seq<char>, from: int)
    requires
        0 <= from,
    ensures
        match find(text, pattern, from) {
            Some(i) => from <= i && matches_at(text, pattern, i) && (forall|j: int|
                from <= j < i ==> !matches_at(text, pattern, j)),
            None => forall|j: int| from <= j ==> !matches_at(text, pattern, j),
        },
    decreases text.len() - from + 1,
{
    if from + pattern.len() <= text.len() && !matches_at(text, pattern, from) {
        lemma_find(text, pattern, from + 1);
    }
}

/// An occurrence that no other one precedes is the one that `find` gives.
pub proof fn lemma_find_is(text: Seq<char>, pattern: Seq<char>, from: int, i: int)
    requires
        0 <= from <= i,
        matches_at(text, pattern, i),
        forall|j: int| from <= j < i ==> !matches_at(text, pattern, j),
    ensures
        find(text, pattern, from) == Some(i),
{
    lemma_find(text, pattern, from);
}

/// There is always at least one piece.
pub proof fn lemma_some_piece(text: Seq<char>, pattern: Seq<char>)
    ensures
        pieces(text, pattern).len() > 0,
{
}

/// Whether no proper ending of the pattern is also a beginning of it, so that its
/// occurrences never overlap.
pub open spec fn is_borderless(pattern: Seq<char>) -> bool {
    &&& pattern.len() > 0
    &&& forall|k: int|
        0 < k < pattern.len() ==> #[trigger] pattern.skip(k) != pattern.take(pattern.len() - k)
}

/// Whether `pattern` occurs nowhere in `text`.
pub open spec fn is_free_of(text: Seq<char>, pattern: Seq<char>) -> bool {
    forall|i: int| !matches_at(text, pattern, i)
}

/// A text without the pattern is its only piece.
pub proof fn lemma_one_piece(text: Seq<char>, pattern: Seq<char>)
    requires
        is_free_of(text, pattern),
    ensures
        pieces(text, pattern) == seq![text],
{
    lemma_find(text, pattern, 0);
}

/// The pieces of a text, the pattern and another text are those of both texts.
pub proof fn law_pieces_of_joined_texts(left: Seq<char>, pattern: Seq<char>, right: Seq<char>)
    requires
        is_borderless(pattern),
    ensures
        pieces(left + pattern + right, pattern) == pieces(left, pattern) + pieces(right, pattern),
    decreases left.len(),
{
    let size = pattern.len() as int;
    let whole = left + pattern + right;
    lemma_find(left, pattern, 0);
    match find(left, pattern, 0) {
        Some(i) => {
            let tail = left.skip(i + size);
            assert forall|j: int| 0 <= j < i implies !matches_at(whole, pattern, j) by {
                assert(whole.subrange(j, j + size) == left.subrange(j, j + size));
                assert(!matches_at(left, pattern, j));
            }
            assert(whole.subrange(i, i + size) == left.subrange(i, i + size));
            lemma_find_is(whole, pattern, 0, i);
            assert(whole.take(i) == left.take(i));
            assert(whole.skip(i + size) == tail + pattern + right);
            law_pieces_of_joined_texts(tail, pattern, right);
            assert(pieces(whole, pattern) == pieces(left, pattern) + pieces(right, pattern));
        },
        None => {
            let n = left.len() as int;
            assert forall|j: int| 0 <= j < n implies !matches_at(whole, pattern, j) by {
                if matches_at(whole, pattern, j) {
                    if j + size <= n {
                        assert(whole.subrange(j, j + size) == left.subrange(j, j + size));
                        assert(matches_at(left, pattern, j));
                    } else {
                        let k = n - j;
                        let window = whole.subrange(j, j + size);
                        assert forall|m: int| 0 <= m < size - k implies pattern.skip(k)[m]
                            == pattern.take(size - k)[m] by {
                            assert(window[k + m] == whole[n + m]);
                        }
                        assert(pattern.skip(k) =~= pattern.take(size - k));
                    }
                }
            }
            assert(whole.subrange(n, n + size) == pattern);
            lemma_find_is(whole, pattern, 0, n);
            assert(whole.take(n) == left);
            assert(whole.skip(n + size) == right);
        },
    }
}

/// The texts of a list with the pattern between each two of them.
pub open spec fn glued(list: Seq<Seq<char>>, pattern: Seq<char>) -> Seq<char>
    decreases list.len(),
{
    if list.len() == 0 {
        Seq::empty()
    } else if list.len() == 1 {
        list[0]
    } else {
        list[0] + pattern + glued(list.skip(1), pattern)
    }
}

/// The pieces of a text, glued together again, are the text.
pub proof fn law_glued_pieces(text: Seq<char>, pattern: Seq<char>)
    ensures
        glued(pieces(text, pattern), pattern) == text,
    decreases text.len(),
{
    lemma_find(text, pattern, 0);
    if pattern.len() > 0 {
        if let Some(i) = find(text, pattern, 0) {
            let rest = text.skip(i + pattern.len());
            let all = pieces(text, pattern);
            law_glued_pieces(rest, pattern);
            lemma_some_piece(rest, pattern);
            assert(all == seq![text.take(i)] + pieces(rest, pattern));
            assert(all.skip(1) == pieces(rest, pattern));
            assert(text == text.take(i) + pattern + rest) by {
                assert(text.subrange(i, i + pattern.len()) == pattern);
                assert forall|k: int| i <= k < i + pattern.len() implies text[k] == pattern[k
                    - i] by {
                    assert(text.subrange(i, i + pattern.len())[k - i] == text[k]);
                }
            }
        }
    }
}

/// Texts without the pattern, glued together with it, have those texts as pieces.
pub proof fn law_pieces_of_glued(list: Seq<Seq<char>>, pattern: Seq<char>)
    requires
        list.len() > 0,
        is_borderless(pattern),
        forall|i: int| 0 <= i < list.len() ==> is_free_of(#[trigger] list[i], pattern),
    ensures
        pieces(glued(list, pattern), pattern) == list,
    decreases list.len(),
{
    lemma_one_piece(list[0], pattern);
    if list.len() == 1 {
        assert(seq![list[0]] == list);
    } else {
        let rest = list.skip(1);
        assert forall|i: int| 0 <= i < rest.len() implies is_free_of(
            #[trigger] rest[i],
            pattern,
        ) by {
            assert(rest[i] == list[i + 1]);
        }
        law_pieces_of_glued(rest, pattern);
        law_pieces_of_joined_texts(list[0], pattern, glued(rest, pattern));
        assert(seq![list[0]] + rest == list);
    }
}

/// Every piece stands in the text somewhere, and the pattern occurs in none of them.
pub proof fn law_pieces_free_of_pattern(text: Seq<char>, pattern: Seq<char>, k: int) -> (at: int)
    requires
        pattern.len() > 0,
        0 <= k < pieces(text, pattern).len(),
    ensures
        0 <= at,
        matches_at(text, pieces(text, pattern)[k], at),
        is_free_of(pieces(text, pattern)[k], pattern),
    decreases text.len(),
{
    lemma_find(text, pattern, 0);
    match find(text, pattern, 0) {
        Some(i) => {
            let head = text.take(i);
            let rest = text.skip(i + pattern.len());
            assert(pieces(text, pattern) == seq![head] + pieces(rest, pattern));
            if k == 0 {
                assert forall|j: int| !matches_at(head, pattern, j) by {
                    if matches_at(head, pattern, j) {
                        assert(head.subrange(j, j + pattern.len()) == text.subrange(
                            j,
                            j + pattern.len(),
                        ));
                        assert(matches_at(text, pattern, j));
                    }
                }
                assert(text.subrange(0, i) == head);
                0
            } else {
                let at = law_pieces_free_of_pattern(rest, pattern, k - 1);
                let piece = pieces(rest, pattern)[k - 1];
                let offset = i + pattern.len() + at;
                assert(text.subrange(offset, offset + piece.len()) == rest.subrange(
                    at,
                    at + piece.len(),
                ));
                offset
            }
        },
        None => {
            assert(text.subrange(0, text.len() as int) == text);
            assert forall|j: int| !matches_at(text, pattern, j) by {}
            0
        },
    }
}

/// Whether `pattern` stands in `text` at index `i`.
fn matches_here(text: &[char], i: usize, pattern: &[char]) -> (r: bool)
    requires
        i + pattern@.len() <= text@.len(),
    ensures
        r == matches_at(text@, pattern@, i as int),
{
    let ghost window = text@.subrange(i as int, i + pattern@.len());
    let size: usize = text.len();
    let mut k: usize = 0;
    while k < pattern.len()
        invariant
            k <= pattern@.len(),
            size == text@.len(),
            i + pattern@.len() <= size,
            window == text@.subrange(i as int, i + pattern@.len()),
            forall|j: int| 0 <= j < k ==> window[j] == pattern@[j],
        decreases pattern@.len() - k,
    {
        if text[i + k] != pattern[k] {
            assert(window[k as int] != pattern@[k as int]);
            return false;
        }
        k = k + 1;
    }
    assert(window =~= pattern@);
    true
}

/// The texts of a list of slices.
pub open spec fn texts(list: Seq<&[char]>) -> Seq<Seq<char>> {
    Seq::new(list.len(), |i: int| list[i]@)
}

/// Splits `text` at the occurrences of `pattern`.
pub fn split<'a>(text: &'a [char], pattern: &[char]) -> (r: Vec<&'a [char]>)
    requires
        pattern@.len() > 0,
    ensures
        texts(r@) == pieces(text@, pattern@),
{
    let mut out: Vec<&'a [char]> = Vec::new();
    let mut rest: &'a [char] = text;
    let mut i: usize = 0;
    assert(texts(out@) + pieces(text@, pattern@) == pieces(text@, pattern@));
    while pattern.len() <= rest.len() && i <= rest.len() - pattern.len()
        invariant
            pattern@.len() > 0,
            i <= rest@.len(),
            forall|j: int| 0 <= j < i ==> !matches_at(rest@, pattern@, j),
            texts(out@) + pieces(rest@, pattern@) == pieces(text@, pattern@),
        decreases rest@.len() - i,
    {
        if matches_here(rest, i, pattern) {
            let ghost before = out@;
            let ghost whole = rest@;
            let piece = slice_subrange(rest, 0, i);
            rest = slice_subrange(rest, i + pattern.len(), rest.len());
            out.push(piece);
            proof {
                lemma_find_is(whole, pattern@, 0, i as int);
                assert(whole.take(i as int) == piece@);
                assert(whole.skip(i + pattern@.len()) == rest@);
                assert(texts(out@) == texts(before).push(piece@));
                assert(texts(out@) + pieces(rest@, pattern@) == texts(before) + (seq![piece@]
                    + pieces(rest@, pattern@)));
            }
            i = 0;
        } else {
            i = i + 1;
        }
    }
    let ghost before = out@;
    out.push(rest);
    proof {
        lemma_find(rest@, pattern@, 0);
        assert(pieces(rest@, pattern@) == seq![rest@]);
        assert(texts(out@) == texts(before).push(rest@));
    }
    out
}

/// Space, tab, line feed, form feed and carriage return.
pub open spec fn is_space(c: char) -> bool {
    c == ' ' || c == '\t' || c == '\n' || c == '\x0c' || c == '\r'
}

/// The first index from `from` on that holds a space or ends the text.
pub open spec fn word_end(text: Seq<char>, from: int) -> int
    decreases text.len() - from,
{
    if from < 0 || from >= text.len() || is_space(text[from]) {
        from
    } else {
        word_end(text, from + 1)
    }
}

/// The longest runs of characters that are no spaces, in order.
pub open spec fn words(text: Seq<char>) -> Seq<Seq<char>>
    decreases text.len(),
{
    if text.len() == 0 {
        Seq::empty()
    } else if is_space(text[0]) {
        words(text.skip(1))
    } else {
        let end = word_end(text, 0);
        proof {
            lemma_word_end(text, 0);
        }
        seq![text.take(end)] + words(text.skip(end))
    }
}

/// `word_end` is the first index from `from` on that ends the text or holds a space.
pub proof fn lemma_word_end(text: Seq<char>, from: int)
    requires
        0 <= from <= text.len(),
    ensures
        from <= word_end(text, from) <= text.len(),
        forall|j: int| from <= j < word_end(text, from) ==> !is_space(text[j]),
        word_end(text, from) < text.len() ==> is_space(text[word_end(text, from)]),
    decreases text.len() - from,
{
    if from < text.len() && !is_space(text[from]) {
        lemma_word_end(text, from + 1);
    }
}

/// An index that ends the text or holds a space, with none before it, ends the word.
pub proof fn lemma_word_end_is(text: Seq<char>, from: int, end: int)
    requires
        0 <= from <= end <= text.len(),
        forall|j: int| from <= j < end ==> !is_space(text[j]),
        end < text.len() ==> is_space(text[end]),
    ensures
        word_end(text, from) == end,
{
    lemma_word_end(text, from);
}

fn is_space_char(c: char) -> (r: bool)
    ensures
        r == is_space(c),
{
    c == ' ' || c == '\t' || c == '\n' || c == '\x0c' || c == '\r'
}

/// The words of `text`.
pub fn split_words<'a>(text: &'a [char]) -> (r: Vec<&'a [char]>)
    ensures
        texts(r@) == words(text@),
{
    let mut out: Vec<&'a [char]> = Vec::new();
    let mut i: usize = 0;
    assert(text@.skip(0) == text@);
    assert(texts(out@) + words(text@) == words(text@));
    while i < text.len()
        invariant
            i <= text@.len(),
            texts(out@) + words(text@.skip(i as int)) == words(text@),
        decreases text@.len() - i,
    {
        let ghost rest = text@.skip(i as int);
        if is_space_char(text[i]) {
            i = i + 1;
            assert(rest.skip(1) == text@.skip(i as int));
        } else {
            let start: usize = i;
            while i < text.len() && !is_space_char(text[i])
                invariant
                    start <= i <= text@.len(),
                    forall|j: int| start <= j < i ==> !is_space(#[trigger] text@[j]),
                decreases text@.len() - i,
            {
                i = i + 1;
            }
            let ghost before = out@;
            let word = slice_subrange(text, start, i);
            out.push(word);
            proof {
                assert(!is_space(text@[start as int]));
                assert(start < i);
                lemma_word_end_is(rest, 0, i - start);
                assert(rest.take(i - start) == word@);
                assert(rest.skip(i - start) == text@.skip(i as int));
                assert(texts(out@) == texts(before).push(word@));
                assert(texts(out@) + words(text@.skip(i as int)) == texts(before) + (seq![word@]
                    + words(text@.skip(i as int))));
            }
        }
    }
    assert(words(text@.skip(i as int)) == Seq::<Seq<char>>::empty());
    assert(texts(out@) + Seq::<Seq<char>>::empty() == texts(out@));
    out
}

pub open spec fn is_digit(c: char) -> bool {
    '0' <= c <= '9'
}

pub open spec fn digit_value(c: char) -> nat {
    (c as nat - '0' as nat) as nat
}

/// The decimal digit with value `d`.
pub open spec fn digit(d: nat) -> char {
    ('0' as nat + d) as char
}

/// The decimal notation of `n`, without leading zeros.
pub open spec fn decimal(n: nat) -> Seq<char>
    decreases n,
{
    if n < 10 {
        seq![digit(n)]
    } else {
        decimal(n / 10).push(digit(n % 10))
    }
}

/// The number that a sequence of decimal digits stands for.
pub open spec fn number(digits: Seq<char>) -> nat
    decreases digits.len(),
{
    if digits.len() == 0 {
        0
    } else {
        number(digits.drop_last()) * 10 + digit_value(digits.last())
    }
}

pub open spec fn all_digits(text: Seq<char>) -> bool {
    forall|i: int| 0 <= i < text.len() ==> is_digit(#[trigger] text[i])
}

/// The digits of a number in text form: what follows a leading plus sign, if there is one.
pub open spec fn unsigned_digits(text: Seq<char>) -> Seq<char> {
    if text.len() > 0 && text[0] == '+' {
        text.skip(1)
    } else {
        text
    }
}

/// The number that `text` denotes: at least one decimal digit, a plus sign before it or
/// not, within the range of `usize`.
pub open spec fn unsigned(text: Seq<char>) -> Option<usize> {
    let digits = unsigned_digits(text);
    if digits.len() > 0 && all_digits(digits) && number(digits) <= usize::MAX {
        Some(number(digits) as usize)
    } else {
        None
    }
}

/// More digits never denote a smaller number.
proof fn lemma_number_grows(digits: Seq<char>, n: int)
    requires
        0 <= n <= digits.len(),
    ensures
        number(digits.take(n)) <= number(digits),
    decreases digits.len() - n,
{
    if n < digits.len() {
        lemma_number_grows(digits, n + 1);
        assert(digits.take(n + 1).drop_last() == digits.take(n));
    } else {
        assert(digits.take(n) == digits);
    }
}

/// Reads an unsigned number.
pub fn parse_unsigned(text: &[char]) -> (r: Option<usize>)
    ensures
        r == unsigned(text@),
{
    let mut i: usize = 0;
    if text.len() > 0 && text[0] == '+' {
        i = 1;
    }
    let ghost digits = unsigned_digits(text@);
    let start: usize = i;
    if i == text.len() {
        return None;
    }
    let mut value: usize = 0;
    while i < text.len()
        invariant
            start <= i <= text@.len(),
            digits == text@.skip(start as int),
            digits == unsigned_digits(text@),
            all_digits(digits.take(i - start)),
            value == number(digits.take(i - start)),
        decreases text@.len() - i,
    {
        let c = text[i];
        let ghost seen = digits.take(i - start);
        let ghost more = digits.take(i - start + 1);
        assert(more.drop_last() == seen && more.last() == c);
        assert(digits[i - start] == c);
        if c < '0' || c > '9' {
            return None;
        }
        let d: usize = (c as u32 - '0' as u32) as usize;
        proof {
            lemma_number_grows(digits, i - start + 1);
        }
        if value > (usize::MAX - d) / 10 {
            return None;
        }
        value = value * 10 + d;
        i = i + 1;
        assert forall|j: int| 0 <= j < more.len() implies is_digit(#[trigger] more[j]) by {
            if j < seen.len() {
                assert(is_digit(seen[j]));
            }
        }
    }
    assert(digits.take(i - start) == digits);
    Some(value)
}

/// The digit character of `d`.
fn digit_char(d: usize) -> (r: char)
    requires
        d < 10,
    ensures
        r == digit(d as nat),
{
    (48u8 + d as u8) as char
}

/// Appends the decimal notation of `n`.
pub fn push_decimal(out: &mut String, n: usize)
    ensures
        final(out)@ == old(out)@ + decimal(n as nat),
    decreases n,
{
    if n >= 10 {
        push_decimal(out, n / 10);
    }
    out.push(digit_char(n % 10));
}

proof fn lemma_digit(d: nat)
    requires
        d < 10,
    ensures
        is_digit(digit(d)),
        digit_value(digit(d)) == d,
{
}

/// Decimal notation consists of at least one digit, and nothing else.
pub proof fn lemma_decimal_digits(n: nat)
    ensures
        decimal(n).len() > 0,
        all_digits(decimal(n)),
        number(decimal(n)) == n,
    decreases n,
{
    if n < 10 {
        lemma_digit(n);
        assert(decimal(n).drop_last() == Seq::<char>::empty());
        assert(number(Seq::<char>::empty()) == 0);
    } else {
        lemma_decimal_digits(n / 10);
        lemma_digit(n % 10);
        assert(decimal(n).drop_last() == decimal(n / 10));
    }
}

/// A number written in decimal notation is read back as that number.
pub proof fn law_decimal_read_back(n: usize)
    ensures
        unsigned(decimal(n as nat)) == Some(n),
{
    lemma_decimal_digits(n as nat);
    assert(is_digit(decimal(n as nat)[0]));
}

} // verus!
