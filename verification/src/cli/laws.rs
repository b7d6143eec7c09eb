//! What holds of the command line as a whole.

use vstd::prelude::*;

use super::{complaint, overridden, scancode_value, user_supplies, ConnectArgs};
use crate::client::{not_supplied, MissingField};
use crate::daemon::refusal;
use crate::properties::{PropertyMap, PropertyValue};
use crate::text::{decimal, decimals_are_digits, digit_value, digits_value, NumberError};

verus! {

/// What the command line refuses to send, the daemon would refuse to connect with.
pub proof fn what_is_not_sent_would_be_refused(check: Result<Seq<MissingField>, Seq<char>>)
    ensures
        complaint(check) is Some ==> refusal(check) is Some,
{
    if let Ok(fields) = check {
        let mine = |field: MissingField| user_supplies(field);
        let theirs = |field: MissingField| !field.is_identity();
        let missing = fields.filter(mine);
        if missing.len() > 0 {
            fields.lemma_filter_pred(mine, 0);
            assert(missing.contains(missing[0]));
            fields.lemma_filter_contains_rev(mine, missing[0]);
            let at = choose|at: int| 0 <= at < fields.len() && fields[at] == missing[0];
            assert(theirs(fields[at]));
            fields.lemma_filter_contains(theirs, at);
            assert(not_supplied(fields).len() > 0);
        }
    }
}

/// What the command line says wins: it stands under its key whatever the file said, and every other
/// key keeps what the file said.
pub proof fn overrides_win(properties: PropertyMap, args: ConnectArgs, key: Seq<char>)
    ensures
        args.server matches Some(server) ==> overridden(properties, args)["full address"@]
            == PropertyValue::Str(server@),
        args.username matches Some(username) ==> overridden(properties, args)["username"@]
            == PropertyValue::Str(username@),
        args.password matches Some(password) ==> overridden(properties, args)["ClearTextPassword"@]
            == PropertyValue::Str(password@),
        args.domain matches Some(domain) ==> overridden(properties, args)["domain"@]
            == PropertyValue::Str(domain@),
        !(args.server is Some && key == "full address"@) && !(args.username is Some && key
            == "username"@) && !(args.password is Some && key == "ClearTextPassword"@) && !(
        args.domain is Some && key == "domain"@) ==> {
            &&& overridden(properties, args).contains_key(key) == properties.contains_key(key)
            &&& properties.contains_key(key) ==> overridden(properties, args)[key]
                == properties[key]
        },
{
    reveal_strlit("full address");
    reveal_strlit("username");
    reveal_strlit("ClearTextPassword");
    reveal_strlit("domain");
    assert("full address"@.len() == 12);
    assert("username"@.len() == 8);
    assert("ClearTextPassword"@.len() == 17);
    assert("domain"@.len() == 6);
}

proof fn lemma_digits_one_more(digits: Seq<char>, last: char, radix: int, max: int, high: int)
    ensures
        digits_value(digits.push(last), radix, max, high) == match digits_value(
            digits,
            radix,
            max,
            high,
        ) {
            Ok(value) => digits_value(seq![last], radix, max, value),
            Err(error) => Err::<int, NumberError>(error),
        },
    decreases digits.len(),
{
    if digits.len() == 0 {
        assert(digits.push(last) =~= seq![last]);
    } else {
        assert(digits.push(last).skip(1) =~= digits.skip(1).push(last));
        match digit_value(digits[0], radix) {
            Some(digit) => {
                lemma_digits_one_more(digits.skip(1), last, radix, max, high * radix + digit);
            },
            None => {},
        }
    }
}

pub(crate) proof fn lemma_decimal_reads_back(number: nat, max: int)
    requires
        number <= max,
    ensures
        digits_value(decimal(number), 10, max, 0) == Ok::<int, NumberError>(number as int),
    decreases number,
{
    let last = decimal(number).last();
    decimals_are_digits(number);
    if number < 10 {
        assert(decimal(number) =~= Seq::<char>::empty().push(last));
        assert(digits_value(Seq::empty(), 10, max, 0) == Ok::<int, NumberError>(0));
        lemma_digits_one_more(Seq::empty(), last, 10, max, 0);
        reveal_with_fuel(digits_value, 3);
    } else {
        lemma_decimal_reads_back(number / 10, max);
        assert(decimal(number) =~= decimal(number / 10).push(last));
        lemma_digits_one_more(decimal(number / 10), last, 10, max, 0);
        reveal_with_fuel(digits_value, 3);
    }
}

/// `digits` write `number` in base `radix`, whatever the case of letters among them, and with any
/// number of leading zeros.
pub open spec fn writes_number(digits: Seq<char>, radix: int, number: int) -> bool
    decreases digits.len(),
{
    if digits.len() == 0 {
        false
    } else if digits.len() == 1 {
        digit_value(digits[0], radix) == Some(number)
    } else {
        &&& digit_value(digits.last(), radix) == Some(number % radix)
        &&& writes_number(digits.drop_last(), radix, number / radix)
    }
}

/// `number` in hexadecimal, with no leading zero, and letters of this case.
pub open spec fn hexadecimal(number: nat, upper: bool) -> Seq<char>
    decreases number,
{
    let digits = if upper {
        "0123456789ABCDEF"@
    } else {
        "0123456789abcdef"@
    };
    if number < 16 {
        seq![digits[number as int]]
    } else {
        hexadecimal(number / 16, upper).push(digits[(number % 16) as int])
    }
}

proof fn lemma_written_number_reads_back(digits: Seq<char>, radix: int, number: int, max: int)
    requires
        2 <= radix <= 36,
        0 <= number <= max,
        writes_number(digits, radix, number),
    ensures
        digits[0] != '+',
        digits_value(digits, radix, max, 0) == Ok::<int, NumberError>(number),
    decreases digits.len(),
{
    let last = digits.last();
    let fewer = digits.drop_last();
    assert(digits =~= fewer.push(last));
    lemma_digits_one_more(fewer, last, radix, max, 0);
    reveal_with_fuel(digits_value, 3);
    if digits.len() == 1 {
        assert(fewer =~= Seq::empty());
    } else {
        assert(0 <= number / radix <= number && (number / radix) * radix + number % radix == number)
            by (nonlinear_arith)
            requires
                radix >= 2,
                number >= 0,
        ;
        lemma_written_number_reads_back(fewer, radix, number / radix, max);
    }
}

/// A scancode that is written in hexadecimal reads back: after `0x` or `0X`, in digits of either
/// letter case, mixed as they may be.
pub proof fn hexadecimal_scancodes_read_back(scancode: u16, digits: Seq<char>)
    requires
        writes_number(digits, 16, scancode as int),
    ensures
        scancode_value(seq!['0', 'x'] + digits) == Ok::<int, NumberError>(scancode as int),
        scancode_value(seq!['0', 'X'] + digits) == Ok::<int, NumberError>(scancode as int),
{
    lemma_written_number_reads_back(digits, 16, scancode as int, u16::MAX as int);
    assert((seq!['0', 'x'] + digits).skip(2) =~= digits);
    assert((seq!['0', 'X'] + digits).skip(2) =~= digits);
}

/// Every number has hexadecimal digits that write it, in either letter case.
pub proof fn hexadecimal_digits_write_numbers(number: nat, upper: bool)
    ensures
        writes_number(hexadecimal(number, upper), 16, number as int),
    decreases number,
{
    reveal_strlit("0123456789ABCDEF");
    reveal_strlit("0123456789abcdef");
    let digits = hexadecimal(number, upper);
    if number >= 16 {
        let fewer = hexadecimal(number / 16, upper);
        hexadecimal_digits_write_numbers(number / 16, upper);
        assert(digits.drop_last() =~= fewer);
        assert(fewer.len() > 0);
    }
}

/// A scancode that is written in decimal reads back.
pub proof fn decimal_scancodes_read_back(scancode: u16)
    ensures
        scancode_value(decimal(scancode as nat)) == Ok::<int, NumberError>(scancode as int),
{
    decimals_are_digits(scancode as nat);
    lemma_decimal_reads_back(scancode as nat, u16::MAX as int);
    let text = decimal(scancode as nat);
    assert(text[0] != '+');
    if text.len() >= 2 {
        assert(text[1] != 'x' && text[1] != 'X');
    }
}

} // verus!
