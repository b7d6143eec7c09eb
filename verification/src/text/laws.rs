//! What holds of texts, said of the texts themselves.

use vstd::prelude::*;

use super::{
    ascii_lower, contains_text, decimal, digit_value, digits_value, lower, number_value, occurs_at,
    replace_all, replace_of_absent_is_identity, right_aligned, signed_decimal, NumberError,
};

verus! {

// ---------------------------------------------------------------------------
// Searching
// ---------------------------------------------------------------------------

/// A text contains what stands between any two texts in it, empty ones too.
pub proof fn what_stands_between_is_contained(
    before: Seq<char>,
    needle: Seq<char>,
    after: Seq<char>,
)
    ensures
        contains_text(before + needle + after, needle),
{
    let hay = before + needle + after;
    let at = before.len() as int;
    assert(hay.subrange(at, at + needle.len()) =~= needle);
    assert(occurs_at(hay, needle, at));
}

/// What a text contains stands between two texts in it.
pub proof fn what_is_contained_stands_between(hay: Seq<char>, needle: Seq<char>) -> (around: (
    Seq<char>,
    Seq<char>,
))
    requires
        contains_text(hay, needle),
    ensures
        hay == around.0 + needle + around.1,
{
    let at = choose|at: int| occurs_at(hay, needle, at);
    let before = hay.take(at);
    let after = hay.skip(at + needle.len());
    assert forall|i: int| 0 <= i < hay.len() implies hay[i] == (before + needle + after)[i] by {
        if at <= i < at + needle.len() {
            assert(hay.subrange(at, at + needle.len())[i - at] == needle[i - at]);
        }
    }
    assert(hay =~= before + needle + after);
    (before, after)
}

// ---------------------------------------------------------------------------
// Replacing
// ---------------------------------------------------------------------------

/// The leftmost occurrence of a text is replaced, what stands before it stays, and what stands
/// behind it is treated alike.
pub proof fn the_leftmost_occurrence_is_replaced(
    before: Seq<char>,
    needle: Seq<char>,
    after: Seq<char>,
    marker: Seq<char>,
)
    requires
        needle.len() > 0,
        forall|at: int|
            0 <= at < before.len() ==> !occurs_at(
                before + needle + after,
                needle,
                at,
            ),
    ensures
        replace_all(before + needle + after, needle, marker) == before + marker + replace_all(
            after,
            needle,
            marker,
        ),
    decreases before.len(),
{
    let hay = before + needle + after;
    if before.len() == 0 {
        assert(hay.subrange(0, needle.len() as int) =~= needle);
        assert(hay.skip(needle.len() as int) =~= after);
        assert(before + marker =~= marker);
    } else {
        let fewer = before.skip(1);
        let rest = fewer + needle + after;
        assert(hay.skip(1) =~= rest);
        assert(!occurs_at(hay, needle, 0));
        assert forall|at: int| 0 <= at < fewer.len() implies !occurs_at(rest, needle, at) by {
            assert(!occurs_at(hay, needle, at + 1));
            if occurs_at(rest, needle, at) {
                assert(hay.subrange(at + 1, at + 1 + needle.len()) =~= rest.subrange(
                    at,
                    at + needle.len(),
                ));
            }
        }
        the_leftmost_occurrence_is_replaced(fewer, needle, after, marker);
        assert(seq![hay[0]] + (fewer + marker + replace_all(after, needle, marker)) =~= before
            + marker + replace_all(after, needle, marker));
    }
}

/// Nothing is replaced where nothing is asked for, and nothing in a text without the text.
pub proof fn what_is_not_there_is_not_replaced(
    hay: Seq<char>,
    needle: Seq<char>,
    marker: Seq<char>,
)
    ensures
        replace_all(hay, Seq::empty(), marker) == hay,
        !contains_text(hay, needle) ==> replace_all(hay, needle, marker) == hay,
{
    if !contains_text(hay, needle) {
        if needle.len() > 0 {
            replace_of_absent_is_identity(hay, needle, marker);
        }
    }
}

// ---------------------------------------------------------------------------
// ASCII case
// ---------------------------------------------------------------------------

/// `ch` is an ASCII capital and `small` its small letter.
pub open spec fn is_capital_of(ch: char, small: char) -> bool {
    &&& 'A' <= ch <= 'Z'
    &&& small as int == ch as int + 32
}

/// Two characters are the same, ASCII case aside.
pub open spec fn alike_but_for_case(left: char, right: char) -> bool {
    left == right || is_capital_of(left, right) || is_capital_of(right, left)
}

/// `piece` stands in `hay` at position `at`, ASCII case aside.
pub open spec fn stands_at(hay: Seq<char>, piece: Seq<char>, at: int) -> bool {
    &&& 0 <= at
    &&& at + piece.len() <= hay.len()
    &&& forall|i: int|
        0 <= i < piece.len() ==> alike_but_for_case(#[trigger] hay[at + i], piece[i])
}

/// Characters become the same in small letters exactly where they are, ASCII case aside.
pub proof fn small_letters_tell_alike(left: char, right: char)
    ensures
        lower(left) == lower(right) <==> alike_but_for_case(left, right),
{
}

/// Small letters of a text contain those of another exactly where the other stands in it, ASCII
/// case aside.
pub proof fn small_letters_contain_what_stands(hay: Seq<char>, piece: Seq<char>)
    ensures
        contains_text(ascii_lower(hay), ascii_lower(piece)) <==> exists|at: int|
            stands_at(hay, piece, at),
        ascii_lower(piece).is_prefix_of(ascii_lower(hay)) <==> stands_at(hay, piece, 0),
{
    assert forall|at: int| #[trigger]
        occurs_at(ascii_lower(hay), ascii_lower(piece), at) <==> stands_at(hay, piece, at) by {
        let small = ascii_lower(hay);
        let part = ascii_lower(piece);
        if occurs_at(small, part, at) {
            assert forall|i: int| 0 <= i < piece.len() implies alike_but_for_case(
                #[trigger] hay[at + i],
                piece[i],
            ) by {
                assert(small.subrange(at, at + part.len())[i] == part[i]);
                small_letters_tell_alike(hay[at + i], piece[i]);
            }
        }
        if stands_at(hay, piece, at) {
            assert forall|i: int| 0 <= i < part.len() implies small.subrange(at, at + part.len())[i]
                == part[i] by {
                assert(alike_but_for_case(hay[at + i], piece[i]));
                small_letters_tell_alike(hay[at + i], piece[i]);
            }
            assert(small.subrange(at, at + part.len()) =~= part);
        }
    }
    if contains_text(ascii_lower(hay), ascii_lower(piece)) {
        let at = choose|at: int| occurs_at(ascii_lower(hay), ascii_lower(piece), at);
        assert(stands_at(hay, piece, at));
    }
    if exists|at: int| stands_at(hay, piece, at) {
        let at = choose|at: int| stands_at(hay, piece, at);
        assert(occurs_at(ascii_lower(hay), ascii_lower(piece), at));
    }
    assert(ascii_lower(piece).is_prefix_of(ascii_lower(hay)) <==> occurs_at(
        ascii_lower(hay),
        ascii_lower(piece),
        0,
    ));
}

// ---------------------------------------------------------------------------
// Padding and numbers
// ---------------------------------------------------------------------------

/// An aligned text ends in the text, is as wide as asked for or as the text, and has blanks alone
/// before it.
pub proof fn aligned_texts_end_in_the_text(text: Seq<char>, width: int)
    ensures
        right_aligned(text, width).len() == if text.len() < width {
            width
        } else {
            text.len() as int
        },
        right_aligned(text, width).skip(right_aligned(text, width).len() - text.len()) == text,
        forall|i: int|
            0 <= i < right_aligned(text, width).len() - text.len() ==> #[trigger] right_aligned(
                text,
                width,
            )[i] == ' ',
{
    let aligned = right_aligned(text, width);
    assert(aligned.skip(aligned.len() - text.len()) =~= text);
}

/// A number above nine is written as its tenth part and one digit more, its remainder; a smaller
/// one as that digit alone. A negative number is written as its opposite behind a minus sign.
pub proof fn numbers_are_written_digit_by_digit(number: nat)
    ensures
        number < 10 ==> decimal(number) == seq!["0123456789"@[number as int]],
        number >= 10 ==> decimal(number) == decimal(number / 10).push(
            "0123456789"@[(number % 10) as int],
        ),
        signed_decimal(number as int) == decimal(number),
        number > 0 ==> signed_decimal(-(number as int)) == seq!['-'] + decimal(number),
{
    reveal_strlit("0123456789");
}

// ---------------------------------------------------------------------------
// Reading numbers
// ---------------------------------------------------------------------------

/// A digit counts for its place among the digits, as a small letter or a capital, and nothing else
/// is a digit.
pub proof fn digits_count_for_their_place(ch: char, place: int, radix: int)
    requires
        2 <= radix <= 16,
    ensures
        0 <= place < radix ==> digit_value("0123456789abcdef"@[place], radix) == Some(place),
        0 <= place < radix ==> digit_value("0123456789ABCDEF"@[place], radix) == Some(place),
        digit_value(ch, radix) matches Some(value) ==> {
            &&& 0 <= value < radix
            &&& ch == "0123456789abcdef"@[value] || ch == "0123456789ABCDEF"@[value]
        },
{
    reveal_strlit("0123456789abcdef");
    reveal_strlit("0123456789ABCDEF");
}

/// All of `text` are digits of base `radix`.
pub open spec fn all_digits(text: Seq<char>, radix: int) -> bool {
    forall|i: int| 0 <= i < text.len() ==> digit_value(#[trigger] text[i], radix) is Some
}

/// What `digits` of base `radix` stand for: each counts `radix` times what the one behind it does.
pub open spec fn positional(digits: Seq<char>, radix: int) -> int
    decreases digits.len(),
{
    if digits.len() == 0 {
        0
    } else {
        positional(digits.drop_last(), radix) * radix + digit_value(digits.last(), radix)->0
    }
}

proof fn lemma_digits_in_turn(
    first: Seq<char>,
    second: Seq<char>,
    radix: int,
    max: int,
    high: int,
)
    ensures
        digits_value(first + second, radix, max, high) == match digits_value(
            first,
            radix,
            max,
            high,
        ) {
            Ok(value) => digits_value(second, radix, max, value),
            Err(error) => Err::<int, NumberError>(error),
        },
    decreases first.len(),
{
    if first.len() == 0 {
        assert(first + second =~= second);
    } else {
        assert((first + second).skip(1) =~= first.skip(1) + second);
        if let Some(digit) = digit_value(first[0], radix) {
            lemma_digits_in_turn(first.skip(1), second, radix, max, high * radix + digit);
        }
    }
}

proof fn lemma_digits_stand_for_a_number(digits: Seq<char>, radix: int, max: int)
    requires
        2 <= radix <= 16,
        0 <= max,
        all_digits(digits, radix),
    ensures
        0 <= positional(digits, radix),
        digits_value(digits, radix, max, 0) == if positional(digits, radix) <= max {
            Ok::<int, NumberError>(positional(digits, radix))
        } else {
            Err(NumberError::PosOverflow)
        },
    decreases digits.len(),
{
    if digits.len() > 0 {
        let fewer = digits.drop_last();
        let last = digits.last();
        let high = positional(fewer, radix);
        assert(digits[digits.len() - 1] == last);
        digits_count_for_their_place(last, 0, radix);
        assert(all_digits(fewer, radix)) by {
            assert forall|i: int| 0 <= i < fewer.len() implies digit_value(
                #[trigger] fewer[i],
                radix,
            ) is Some by {
                assert(digits[i] == fewer[i]);
            }
        }
        lemma_digits_stand_for_a_number(fewer, radix, max);
        assert(high <= high * radix) by (nonlinear_arith)
            requires
                0 <= high,
                2 <= radix,
        ;
        assert(digits =~= fewer + seq![last]);
        lemma_digits_in_turn(fewer, seq![last], radix, max, 0);
        reveal_with_fuel(digits_value, 3);
    }
}

/// A text of digits alone is read as the number that they stand for, if it is not too great, and is
/// refused as too great otherwise; so is one with a plus sign before the digits.
pub proof fn digits_are_read_as_what_they_stand_for(digits: Seq<char>, radix: int, max: int)
    requires
        2 <= radix <= 16,
        0 <= max,
        digits.len() > 0,
        all_digits(digits, radix),
    ensures
        number_value(digits, radix, max) == if positional(digits, radix) <= max {
            Ok::<int, NumberError>(positional(digits, radix))
        } else {
            Err(NumberError::PosOverflow)
        },
        number_value(seq!['+'] + digits, radix, max) == number_value(digits, radix, max),
{
    lemma_digits_stand_for_a_number(digits, radix, max);
    assert(digit_value(digits[0], radix) is Some);
    assert((seq!['+'] + digits).skip(1) =~= digits);
}

/// A text with something in it that is no digit is refused for that, unless the digits before it
/// stand for a number that is too great: it is refused for what comes first. A plus sign before the
/// text changes nothing, and neither nothing at all nor a plus sign alone is a number, nor is
/// anything behind two.
pub proof fn what_is_no_digit_is_refused(
    digits: Seq<char>,
    other: char,
    rest: Seq<char>,
    radix: int,
    max: int,
)
    requires
        2 <= radix <= 16,
        0 <= max,
        all_digits(digits, radix),
        digit_value(other, radix) is None,
        digits.len() > 0 || other != '+',
    ensures
        number_value(digits.push(other) + rest, radix, max) == Err::<int, NumberError>(
            if positional(digits, radix) <= max {
                NumberError::InvalidDigit
            } else {
                NumberError::PosOverflow
            },
        ),
        number_value(seq!['+'] + (digits.push(other) + rest), radix, max) == number_value(
            digits.push(other) + rest,
            radix,
            max,
        ),
        number_value(Seq::empty(), radix, max) == Err::<int, NumberError>(NumberError::Empty),
        number_value(seq!['+'], radix, max) == Err::<int, NumberError>(NumberError::InvalidDigit),
        number_value(seq!['+', '+'] + rest, radix, max) == Err::<int, NumberError>(
            NumberError::InvalidDigit,
        ),
{
    let text = digits.push(other) + rest;
    lemma_digits_stand_for_a_number(digits, radix, max);
    assert(text =~= digits + (seq![other] + rest));
    lemma_digits_in_turn(digits, seq![other] + rest, radix, max, 0);
    if digits.len() > 0 {
        assert(digit_value(digits[0], radix) is Some);
        assert(text[0] == digits[0]);
    } else {
        assert(text[0] == other);
    }
    assert((seq!['+'] + text).skip(1) =~= text);
}

/// A number that is read is not negative and not above the greatest that was allowed.
pub proof fn numbers_that_are_read_are_in_range(text: Seq<char>, radix: int, max: int)
    requires
        2 <= radix <= 16,
        0 <= max,
    ensures
        number_value(text, radix, max) matches Ok(number) ==> 0 <= number <= max,
{
    lemma_in_range(text, radix, max, 0);
    lemma_in_range(text.skip(1), radix, max, 0);
}

proof fn lemma_in_range(digits: Seq<char>, radix: int, max: int, high: int)
    requires
        2 <= radix <= 16,
        0 <= high <= max,
    ensures
        digits_value(digits, radix, max, high) matches Ok(number) ==> 0 <= number <= max,
    decreases digits.len(),
{
    if digits.len() > 0 {
        if let Some(digit) = digit_value(digits[0], radix) {
            digits_count_for_their_place(digits[0], 0, radix);
            assert(0 <= high * radix) by (nonlinear_arith)
                requires
                    0 <= high,
                    2 <= radix,
            ;
            if high * radix + digit <= max {
                lemma_in_range(digits.skip(1), radix, max, high * radix + digit);
            }
        }
    }
}

/// Each reason why a text is no number has its own words.
pub proof fn number_errors_have_words(error: NumberError)
    ensures
        error is Empty ==> error.text() == "cannot parse integer from empty string"@,
        error is InvalidDigit ==> error.text() == "invalid digit found in string"@,
        error is PosOverflow ==> error.text() == "number too large to fit in target type"@,
{
}

} // verus!
