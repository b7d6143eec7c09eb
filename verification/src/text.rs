//! Text as a sequence of characters: searching, replacing, reading and writing numbers.

use vstd::prelude::*;

pub mod laws;

verus! {

// ---------------------------------------------------------------------------
// Characters and strings
// ---------------------------------------------------------------------------

/// `String::push` appends one character.
pub assume_specification[ String::push ](text: &mut String, ch: char)
    ensures
        final(text)@ == old(text)@.push(ch),
;

/// The characters of `text`.
pub fn to_chars(text: &str) -> (chars: Vec<char>)
    ensures
        chars@ == text@,
{
    let mut chars: Vec<char> = Vec::new();
    for ch in it: text.chars()
        invariant
            it.seq() == text@,
            chars@ == text@.take(it.index() as int),
    {
        assert(text@.take(it.index() + 1) =~= text@.take(it.index() as int).push(ch));
        chars.push(ch);
    }
    assert(text@.take(text@.len() as int) =~= text@);
    chars
}

/// Whether two texts hold the same characters.
pub fn same_text(left: &str, right: &str) -> (same: bool)
    ensures
        same == (left@ == right@),
{
    left.to_owned() == right.to_owned()
}

// ---------------------------------------------------------------------------
// Searching
// ---------------------------------------------------------------------------

/// `needle` stands in `hay` at position `at`.
pub open spec fn occurs_at(hay: Seq<char>, needle: Seq<char>, at: int) -> bool {
    &&& 0 <= at
    &&& at + needle.len() <= hay.len()
    &&& hay.subrange(at, at + needle.len()) == needle
}

/// `needle` stands somewhere in `hay`.
pub open spec fn contains_text(hay: Seq<char>, needle: Seq<char>) -> bool {
    exists|at: int| occurs_at(hay, needle, at)
}

fn chars_occur_at(hay: &Vec<char>, needle: &Vec<char>, at: usize) -> (occurs: bool)
    requires
        at <= hay.len(),
    ensures
        occurs == occurs_at(hay@, needle@, at as int),
{
    if hay.len() - at < needle.len() {
        return false;
    }
    let mut i: usize = 0;
    while i < needle.len()
        invariant
            i <= needle.len(),
            at + needle.len() <= hay.len(),
            forall|j: int| 0 <= j < i ==> hay@[at + j] == needle@[j],
        decreases needle.len() - i,
    {
        if hay[at + i] != needle[i] {
            assert(hay@.subrange(at as int, at + needle.len())[i as int] != needle@[i as int]);
            return false;
        }
        i += 1;
    }
    assert(hay@.subrange(at as int, at + needle.len()) =~= needle@);
    true
}

/// Whether `needle` stands somewhere in `hay`.
pub fn contains(hay: &str, needle: &str) -> (found: bool)
    ensures
        found == contains_text(hay@, needle@),
{
    let hay: Vec<char> = to_chars(hay);
    let needle: Vec<char> = to_chars(needle);
    chars_contain(&hay, &needle)
}

fn chars_contain(hay: &Vec<char>, needle: &Vec<char>) -> (found: bool)
    ensures
        found == contains_text(hay@, needle@),
{
    let mut at: usize = 0;
    while at < hay.len()
        invariant
            at <= hay.len(),
            forall|j: int| 0 <= j < at ==> !occurs_at(hay@, needle@, j),
        decreases hay.len() - at,
    {
        if chars_occur_at(hay, needle, at) {
            return true;
        }
        at += 1;
    }
    chars_occur_at(hay, needle, at)
}

// ---------------------------------------------------------------------------
// Replacing
// ---------------------------------------------------------------------------

/// `hay` with every occurrence of `needle`, taken from the left and without overlap, turned into
/// `marker`.
pub open spec fn replace_all(hay: Seq<char>, needle: Seq<char>, marker: Seq<char>) -> Seq<char>
    decreases hay.len(),
{
    if needle.len() == 0 || hay.len() < needle.len() {
        hay
    } else if occurs_at(hay, needle, 0) {
        marker + replace_all(hay.skip(needle.len() as int), needle, marker)
    } else {
        seq![hay[0]] + replace_all(hay.skip(1), needle, marker)
    }
}

/// `piece` laid over `marker`, shifted by `shift` and sharing at least one position with it, agrees
/// with it on every shared position.
pub open spec fn agrees_when_shifted(piece: Seq<char>, marker: Seq<char>, shift: int) -> bool {
    &&& -piece.len() < shift < marker.len()
    &&& forall|i: int|
        #![trigger piece[i]]
        0 <= i < piece.len() && 0 <= i + shift < marker.len() ==> piece[i] == marker[i + shift]
}

/// No occurrence of `piece` can share a position with an occurrence of `marker`.
pub open spec fn clear_of(piece: Seq<char>, marker: Seq<char>) -> bool {
    forall|shift: int| !agrees_when_shifted(piece, marker, shift)
}

/// `hay` with every occurrence of `needle` turned into `marker`.
pub fn replace(hay: &str, needle: &str, marker: &str) -> (replaced: String)
    requires
        needle@.len() > 0,
    ensures
        replaced@ == replace_all(hay@, needle@, marker@),
{
    let ghost text = hay@;
    let hay: Vec<char> = to_chars(hay);
    let needle: Vec<char> = to_chars(needle);
    let mut replaced: String = String::new();
    let mut at: usize = 0;
    assert(hay@.skip(0) =~= hay@);
    while at < hay.len()
        invariant
            at <= hay.len(),
            needle.len() > 0,
            hay@ == text,
            replace_all(text, needle@, marker@) == replaced@ + replace_all(
                hay@.skip(at as int),
                needle@,
                marker@,
            ),
        decreases hay.len() - at,
    {
        let ghost rest = hay@.skip(at as int);
        let ghost before = replaced@;
        if chars_occur_at(&hay, &needle, at) {
            assert(rest.subrange(0, needle.len() as int) =~= hay@.subrange(
                at as int,
                at + needle.len(),
            ));
            assert(rest.skip(needle.len() as int) =~= hay@.skip(at + needle.len()));
            replaced.append(marker);
            at += needle.len();
        } else {
            assert(!occurs_at(rest, needle@, 0)) by {
                if occurs_at(rest, needle@, 0) {
                    assert(rest.subrange(0, needle.len() as int) =~= hay@.subrange(
                        at as int,
                        at + needle.len(),
                    ));
                }
            }
            assert(rest.skip(1) =~= hay@.skip(at + 1));
            assert(rest == seq![rest[0]] + rest.skip(1));
            assert(replace_all(rest, needle@, marker@) == seq![rest[0]] + replace_all(
                rest.skip(1),
                needle@,
                marker@,
            )) by {
                if rest.len() < needle.len() {
                    assert(rest.skip(1).len() < needle.len());
                }
            }
            replaced.push(hay[at]);
            at += 1;
        }
        assert(replace_all(text, needle@, marker@) =~= replaced@ + replace_all(
            hay@.skip(at as int),
            needle@,
            marker@,
        ));
    }
    assert(hay@.skip(at as int).len() == 0);
    assert(replaced@ + hay@.skip(at as int) =~= replaced@);
    replaced
}

/// Replacing what does not occur changes nothing.
pub proof fn replace_of_absent_is_identity(hay: Seq<char>, needle: Seq<char>, marker: Seq<char>)
    requires
        !contains_text(hay, needle),
    ensures
        replace_all(hay, needle, marker) == hay,
    decreases hay.len(),
{
    if needle.len() > 0 && hay.len() >= needle.len() {
        let rest = hay.skip(1);
        assert(!contains_text(rest, needle)) by {
            if contains_text(rest, needle) {
                let at = choose|at: int| occurs_at(rest, needle, at);
                assert(rest.subrange(at, at + needle.len()) =~= hay.subrange(
                    at + 1,
                    at + 1 + needle.len(),
                ));
                assert(occurs_at(hay, needle, at + 1));
            }
        }
        replace_of_absent_is_identity(rest, needle, marker);
        assert(seq![hay[0]] + rest =~= hay);
    }
}

/// A tail of `piece` at the start of the replaced text already stood at the start of the text.
proof fn lemma_tail_at_start(
    hay: Seq<char>,
    needle: Seq<char>,
    marker: Seq<char>,
    piece: Seq<char>,
    from: int,
)
    requires
        needle.len() > 0,
        marker.len() > 0,
        clear_of(piece, marker),
        0 <= from <= piece.len(),
        occurs_at(replace_all(hay, needle, marker), piece.skip(from), 0),
    ensures
        occurs_at(hay, piece.skip(from), 0),
    decreases hay.len(),
{
    let tail = piece.skip(from);
    let out = replace_all(hay, needle, marker);
    if tail.len() == 0 {
        assert(hay.subrange(0, 0) =~= tail);
    } else if hay.len() < needle.len() {
    } else if occurs_at(hay, needle, 0) {
        assert forall|i: int|
            #![trigger piece[i]]
            0 <= i < piece.len() && 0 <= i - from < marker.len() implies piece[i] == marker[i
            - from] by {
            assert(out.subrange(0, tail.len() as int)[i - from] == tail[i - from]);
        }
        assert(agrees_when_shifted(piece, marker, -from));
    } else {
        let rest = hay.skip(1);
        let next = piece.skip(from + 1);
        let out_rest = replace_all(rest, needle, marker);
        assert(next =~= tail.skip(1));
        assert(out.subrange(0, tail.len() as int)[0] == tail[0]);
        assert(out_rest.subrange(0, next.len() as int) =~= next) by {
            assert forall|i: int| 0 <= i < next.len() implies out_rest[i] == next[i] by {
                assert(out[i + 1] == out_rest[i]);
                assert(out.subrange(0, tail.len() as int)[i + 1] == tail[i + 1]);
            }
        }
        lemma_tail_at_start(rest, needle, marker, piece, from + 1);
        assert(hay.subrange(0, tail.len() as int) =~= tail) by {
            assert forall|i: int| 0 <= i < tail.len() implies hay[i] == tail[i] by {
                if i > 0 {
                    assert(rest.subrange(0, next.len() as int)[i - 1] == next[i - 1]);
                }
            }
        }
    }
}

/// What is clear of the marker and occurs in the replaced text also occurred in the text, and is
/// not what was replaced.
pub proof fn replaced_text_holds_only_old_occurrences(
    hay: Seq<char>,
    needle: Seq<char>,
    marker: Seq<char>,
    piece: Seq<char>,
)
    requires
        needle.len() > 0,
        marker.len() > 0,
        piece.len() > 0,
        clear_of(piece, marker),
        contains_text(replace_all(hay, needle, marker), piece),
    ensures
        contains_text(hay, piece),
        piece != needle,
    decreases hay.len(),
{
    let out = replace_all(hay, needle, marker);
    let at = choose|at: int| occurs_at(out, piece, at);
    if hay.len() < needle.len() {
    } else if occurs_at(hay, needle, 0) {
        let rest = hay.skip(needle.len() as int);
        let out_rest = replace_all(rest, needle, marker);
        if at < marker.len() {
            assert forall|i: int|
                #![trigger piece[i]]
                0 <= i < piece.len() && 0 <= i + at < marker.len() implies piece[i] == marker[i
                + at] by {
                assert(out.subrange(at, at + piece.len())[i] == piece[i]);
            }
            assert(agrees_when_shifted(piece, marker, at));
        } else {
            assert(out_rest.subrange(at - marker.len(), at - marker.len() + piece.len())
                =~= out.subrange(at, at + piece.len()));
            assert(occurs_at(out_rest, piece, at - marker.len()));
            replaced_text_holds_only_old_occurrences(rest, needle, marker, piece);
            lemma_contains_in_skip(hay, needle.len() as int, piece);
        }
    } else {
        let rest = hay.skip(1);
        let out_rest = replace_all(rest, needle, marker);
        if at == 0 {
            assert(piece.skip(0) =~= piece);
            lemma_tail_at_start(hay, needle, marker, piece, 0);
            assert(occurs_at(hay, piece, 0));
        } else {
            assert(out_rest.subrange(at - 1, at - 1 + piece.len()) =~= out.subrange(
                at,
                at + piece.len(),
            ));
            assert(occurs_at(out_rest, piece, at - 1));
            replaced_text_holds_only_old_occurrences(rest, needle, marker, piece);
            lemma_contains_in_skip(hay, 1, piece);
        }
    }
}

proof fn lemma_contains_in_skip(hay: Seq<char>, n: int, piece: Seq<char>)
    requires
        0 <= n <= hay.len(),
        contains_text(hay.skip(n), piece),
    ensures
        contains_text(hay, piece),
{
    let rest = hay.skip(n);
    let at = choose|at: int| occurs_at(rest, piece, at);
    assert(hay.subrange(at + n, at + n + piece.len()) =~= rest.subrange(at, at + piece.len()));
    assert(occurs_at(hay, piece, at + n));
}

// ---------------------------------------------------------------------------
// ASCII case
// ---------------------------------------------------------------------------

/// `ch` with an ASCII capital turned into its small letter.
pub open spec fn lower(ch: char) -> char {
    if 'A' <= ch && ch <= 'Z' {
        ((ch as u32 + 32) as u32) as char
    } else {
        ch
    }
}

/// `text` with every ASCII capital turned into its small letter.
pub open spec fn ascii_lower(text: Seq<char>) -> Seq<char> {
    Seq::new(text.len(), |i: int| lower(text[i]))
}

fn lower_char(ch: char) -> (small: char)
    ensures
        small == lower(ch),
{
    if 'A' <= ch && ch <= 'Z' {
        let code: u32 = ch as u32;
        (code as u8 + 32) as char
    } else {
        ch
    }
}

fn lower_chars(text: &str) -> (small: Vec<char>)
    ensures
        small@ == ascii_lower(text@),
{
    let chars: Vec<char> = to_chars(text);
    let mut small: Vec<char> = Vec::new();
    for i in 0..chars.len()
        invariant
            chars@ == text@,
            small@ == ascii_lower(text@).take(i as int),
    {
        small.push(lower_char(chars[i]));
        assert(small@ =~= ascii_lower(text@).take(i + 1));
    }
    assert(small@ =~= ascii_lower(text@));
    small
}

/// Whether `needle` stands somewhere in `hay`, ASCII case aside.
pub fn contains_ignoring_case(hay: &str, needle: &str) -> (found: bool)
    ensures
        found == contains_text(ascii_lower(hay@), ascii_lower(needle@)),
{
    let hay: Vec<char> = lower_chars(hay);
    let needle: Vec<char> = lower_chars(needle);
    chars_contain(&hay, &needle)
}

/// Whether `text` starts with `prefix`, ASCII case aside.
pub fn starts_with_ignoring_case(text: &str, prefix: &str) -> (starts: bool)
    ensures
        starts == ascii_lower(prefix@).is_prefix_of(ascii_lower(text@)),
{
    let text: Vec<char> = lower_chars(text);
    let prefix: Vec<char> = lower_chars(prefix);
    assert(prefix@.is_prefix_of(text@) == occurs_at(text@, prefix@, 0));
    chars_occur_at(&text, &prefix, 0)
}

// ---------------------------------------------------------------------------
// Numbers
// ---------------------------------------------------------------------------

/// Why a text is not a number.
#[derive(Debug, Clone, Copy, PartialEq, Eq)]
pub enum NumberError {
    /// There is nothing to read.
    Empty,
    /// A character is not a digit of the base, or a sign stands alone.
    InvalidDigit,
    /// The number is above the greatest one that is accepted.
    PosOverflow,
}

impl NumberError {
    /// What is wrong.
    pub open spec fn text(self) -> Seq<char> {
        match self {
            NumberError::Empty => "cannot parse integer from empty string"@,
            NumberError::InvalidDigit => "invalid digit found in string"@,
            NumberError::PosOverflow => "number too large to fit in target type"@,
        }
    }

    /// What is wrong.
    pub fn describe(&self) -> (description: &'static str)
        ensures
            description@ == self.text(),
    {
        match self {
            NumberError::Empty => "cannot parse integer from empty string",
            NumberError::InvalidDigit => "invalid digit found in string",
            NumberError::PosOverflow => "number too large to fit in target type",
        }
    }
}

/// The value of `ch` as a digit of base `radix`.
pub open spec fn digit_value(ch: char, radix: int) -> Option<int> {
    let value: int = if '0' <= ch && ch <= '9' {
        ch as int - '0' as int
    } else if 'a' <= ch && ch <= 'z' {
        10 + (ch as int - 'a' as int)
    } else if 'A' <= ch && ch <= 'Z' {
        10 + (ch as int - 'A' as int)
    } else {
        radix
    };
    if value < radix {
        Some(value)
    } else {
        None
    }
}

/// The number that `digits` write after a number whose value is `high`. The first digit that is
/// none, or that takes the number above `max`, decides the error.
pub open spec fn digits_value(digits: Seq<char>, radix: int, max: int, high: int) -> Result<
    int,
    NumberError,
>
    decreases digits.len(),
{
    if digits.len() == 0 {
        Ok(high)
    } else {
        match digit_value(digits[0], radix) {
            None => Err(NumberError::InvalidDigit),
            Some(digit) => if high * radix + digit > max {
                Err(NumberError::PosOverflow)
            } else {
                digits_value(digits.skip(1), radix, max, high * radix + digit)
            },
        }
    }
}

/// The number that `text` writes in base `radix`: one or more digits after an optional `+`.
pub open spec fn number_value(text: Seq<char>, radix: int, max: int) -> Result<int, NumberError> {
    if text.len() == 0 {
        Err(NumberError::Empty)
    } else if text[0] != '+' {
        digits_value(text, radix, max, 0)
    } else if text.len() == 1 {
        Err(NumberError::InvalidDigit)
    } else {
        digits_value(text.skip(1), radix, max, 0)
    }
}

fn read_digit(ch: char, radix: u32) -> (digit: Option<u32>)
    requires
        2 <= radix <= 36,
    ensures
        digit_value(ch, radix as int) == match digit {
            Some(value) => Some(value as int),
            None => None,
        },
        digit matches Some(value) ==> value < radix,
{
    let value: u32 = if '0' <= ch && ch <= '9' {
        ch as u32 - '0' as u32
    } else if 'a' <= ch && ch <= 'z' {
        10 + (ch as u32 - 'a' as u32)
    } else if 'A' <= ch && ch <= 'Z' {
        10 + (ch as u32 - 'A' as u32)
    } else {
        radix
    };
    if value < radix {
        Some(value)
    } else {
        None
    }
}

/// Reads `chars`, from position `from` on, as a number in base `radix` of at most `max`.
pub fn read_number(chars: &Vec<char>, from: usize, radix: u32, max: u32) -> (number: Result<
    u32,
    NumberError,
>)
    requires
        from <= chars.len(),
        2 <= radix <= 36,
    ensures
        number_value(chars@.skip(from as int), radix as int, max as int) == match number {
            Ok(value) => Ok::<int, NumberError>(value as int),
            Err(error) => Err(error),
        },
        number matches Ok(value) ==> value <= max,
{
    let ghost text = chars@.skip(from as int);
    if from == chars.len() {
        return Err(NumberError::Empty);
    }
    let mut at: usize = from;
    if chars[from] == '+' {
        if chars.len() - from == 1 {
            return Err(NumberError::InvalidDigit);
        }
        at = from + 1;
        assert(text.skip(1) =~= chars@.skip(from + 1));
    }
    let ghost expected = number_value(text, radix as int, max as int);
    let mut number: u32 = 0;
    while at < chars.len()
        invariant
            at <= chars.len(),
            2 <= radix <= 36,
            number <= max,
            expected == number_value(chars@.skip(from as int), radix as int, max as int),
            expected == digits_value(
                chars@.skip(at as int),
                radix as int,
                max as int,
                number as int,
            ),
        decreases chars.len() - at,
    {
        let ghost rest = chars@.skip(at as int);
        assert(rest.skip(1) =~= chars@.skip(at + 1));
        let digit: u32 = match read_digit(chars[at], radix) {
            None => {
                return Err(NumberError::InvalidDigit);
            },
            Some(digit) => digit,
        };
        assert(number * radix <= 0xffff_ffff * 36) by (nonlinear_arith)
            requires
                number <= 0xffff_ffff,
                radix <= 36,
        ;
        let next: u64 = number as u64 * radix as u64 + digit as u64;
        if next > max as u64 {
            return Err(NumberError::PosOverflow);
        }
        number = next as u32;
        at += 1;
    }
    Ok(number)
}

/// `number` in decimal, with no leading zero.
pub open spec fn decimal(number: nat) -> Seq<char>
    decreases number,
{
    if number < 10 {
        seq![(('0' as u32 + number) as u32) as char]
    } else {
        decimal(number / 10).push((('0' as u32 + number % 10) as u32) as char)
    }
}

/// A number in decimal is one or more digits.
pub proof fn decimals_are_digits(number: nat)
    ensures
        decimal(number).len() > 0,
        forall|i: int|
            0 <= i < decimal(number).len() ==> '0' <= #[trigger] decimal(number)[i]
                && decimal(number)[i] <= '9',
    decreases number,
{
    if number >= 10 {
        decimals_are_digits(number / 10);
    }
}

/// `number` in decimal, with a leading `-` where it is negative.
pub open spec fn signed_decimal(number: int) -> Seq<char> {
    if number < 0 {
        seq!['-'] + decimal((-number) as nat)
    } else {
        decimal(number as nat)
    }
}

/// Appends `number` to `text`, in decimal.
pub fn push_decimal(text: &mut String, number: u64)
    ensures
        final(text)@ == old(text)@ + decimal(number as nat),
    decreases number,
{
    if number >= 10 {
        push_decimal(text, number / 10);
    }
    let digit: u8 = (number % 10) as u8;
    let ghost before = text@;
    text.push((48 + digit) as char);
    assert(text@ =~= old(text)@ + decimal(number as nat));
}

/// `number` in decimal.
pub fn to_decimal(number: i64) -> (text: String)
    ensures
        text@ == signed_decimal(number as int),
{
    let mut text: String = String::new();
    if number < 0 {
        text.push('-');
        // The magnitude of the least number has no positive counterpart of the same width.
        let magnitude: u64 = (-(number + 1)) as u64 + 1;
        push_decimal(&mut text, magnitude);
        assert(text@ =~= signed_decimal(number as int));
    } else {
        push_decimal(&mut text, number as u64);
        assert(text@ =~= signed_decimal(number as int));
    }
    text
}

// ---------------------------------------------------------------------------
// Padding
// ---------------------------------------------------------------------------

/// `count` blanks.
pub open spec fn blanks(count: int) -> Seq<char> {
    Seq::new(
        if count > 0 {
            count as nat
        } else {
            0
        },
        |i: int| ' ',
    )
}

/// `text` behind as many blanks as take it to `width` characters.
pub open spec fn right_aligned(text: Seq<char>, width: int) -> Seq<char> {
    blanks(width - text.len()) + text
}

/// `text` behind as many blanks as take it to `width` characters.
pub fn right_align(text: &str, width: usize) -> (aligned: String)
    ensures
        aligned@ == right_aligned(text@, width as int),
{
    let mut aligned: String = String::new();
    let mut length: usize = text.unicode_len();
    while length < width
        invariant
            text@.len() <= length,
            length <= width || length == text@.len(),
            aligned@ == blanks(length - text@.len()),
        decreases width - length,
    {
        aligned.push(' ');
        length += 1;
        assert(aligned@ =~= blanks(length - text@.len()));
    }
    aligned.append(text);
    assert(aligned@ =~= right_aligned(text@, width as int));
    aligned
}

} // verus!
