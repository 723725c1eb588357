//! Reading what the user typed: surrounding blanks, amounts, menu numbers.

use vstd::prelude::*;
use vstd::string::*;
use vstd::std_specs::iter::IteratorSpec;
use crate::decimal::{decimal_digits, decimal_text, digit_char};

verus! {

/// White space: the characters that are cut off both ends of a line.
pub open spec fn is_blank(c: char) -> bool {
    ||| '\u{9}' <= c <= '\u{d}'
    ||| c == ' '
    ||| c == '\u{85}'
    ||| c == '\u{a0}'
    ||| c == '\u{1680}'
    ||| '\u{2000}' <= c <= '\u{200a}'
    ||| c == '\u{2028}'
    ||| c == '\u{2029}'
    ||| c == '\u{202f}'
    ||| c == '\u{205f}'
    ||| c == '\u{3000}'
}

/// `text` from its first character that is not blank.
pub open spec fn without_leading_blanks(text: Seq<char>) -> Seq<char>
    decreases text.len(),
{
    if text.len() > 0 && is_blank(text.first()) {
        without_leading_blanks(text.drop_first())
    } else {
        text
    }
}

/// `text` up to its last character that is not blank.
pub open spec fn without_trailing_blanks(text: Seq<char>) -> Seq<char>
    decreases text.len(),
{
    if text.len() > 0 && is_blank(text.last()) {
        without_trailing_blanks(text.drop_last())
    } else {
        text
    }
}

/// `text` without the blanks at its two ends.
pub open spec fn trimmed(text: Seq<char>) -> Seq<char> {
    without_trailing_blanks(without_leading_blanks(text))
}

/// Cutting the leading blanks leaves what follows the first `start`
/// characters, when these are blank and the next one is not.
proof fn lemma_leading_blanks(text: Seq<char>, start: int)
    requires
        0 <= start <= text.len(),
        forall|i: int| 0 <= i < start ==> is_blank(#[trigger] text[i]),
        start < text.len() ==> !is_blank(text[start]),
    ensures
        without_leading_blanks(text) == text.skip(start),
    decreases start,
{
    if start == 0 {
        assert(text.skip(0) =~= text);
    } else {
        let rest = text.drop_first();
        assert forall|i: int| 0 <= i < start - 1 implies is_blank(#[trigger] rest[i]) by {
            assert(rest[i] == text[i + 1]);
        }
        lemma_leading_blanks(rest, start - 1);
        assert(rest.skip(start - 1) =~= text.skip(start));
    }
}

/// Cutting the trailing blanks leaves the first `end` characters, when all
/// after them are blank and the last of them is not.
proof fn lemma_trailing_blanks(text: Seq<char>, end: int)
    requires
        0 <= end <= text.len(),
        forall|i: int| end <= i < text.len() ==> is_blank(#[trigger] text[i]),
        end > 0 ==> !is_blank(text[end - 1]),
    ensures
        without_trailing_blanks(text) == text.take(end),
    decreases text.len() - end,
{
    if end == text.len() {
        assert(text.take(end) =~= text);
    } else {
        let rest = text.drop_last();
        lemma_trailing_blanks(rest, end);
        assert(rest.take(end) =~= text.take(end));
    }
}

fn is_blank_char(c: char) -> (blank: bool)
    ensures
        blank == is_blank(c),
{
    (c >= '\u{9}' && c <= '\u{d}') || c == ' ' || c == '\u{85}' || c == '\u{a0}' || c
        == '\u{1680}' || (c >= '\u{2000}' && c <= '\u{200a}') || c == '\u{2028}' || c
        == '\u{2029}' || c == '\u{202f}' || c == '\u{205f}' || c == '\u{3000}'
}

/// Cuts the blanks off both ends of `text`.
pub fn trim_blanks(text: &str) -> (inner: &str)
    ensures
        inner@ == trimmed(text@),
{
    let length = text.unicode_len();
    let mut chars = text.chars();
    let mut position: usize = 0;
    let mut start: usize = 0;
    let mut end: usize = 0;
    loop
        invariant
            length == text@.len(),
            position <= length,
            chars.remaining() == text@.skip(position as int),
            chars.decrease() is Some,
            start <= position,
            end <= position,
            forall|i: int| 0 <= i < start ==> is_blank(#[trigger] text@[i]),
            start < position ==> !is_blank(text@[start as int]),
            forall|i: int| end <= i < position ==> is_blank(#[trigger] text@[i]),
            end > 0 ==> !is_blank(text@[end - 1]),
            end > 0 ==> start < end,
        ensures
            position == length,
            start <= position,
            end <= position,
            forall|i: int| 0 <= i < start ==> is_blank(#[trigger] text@[i]),
            start < position ==> !is_blank(text@[start as int]),
            forall|i: int| end <= i < position ==> is_blank(#[trigger] text@[i]),
            end > 0 ==> !is_blank(text@[end - 1]),
            end > 0 ==> start < end,
        decreases chars.decrease()->0,
    {
        match chars.next() {
            Some(c) => {
                assert(c == text@[position as int]);
                assert(text@.skip(position as int).drop_first() =~= text@.skip(position + 1));
                if is_blank_char(c) {
                    if start == position {
                        start = start + 1;
                    }
                } else {
                    end = position + 1;
                }
                position = position + 1;
            },
            None => {
                break ;
            },
        }
    }
    proof {
        lemma_leading_blanks(text@, start as int);
        let tail = text@.skip(start as int);
        if end > 0 {
            assert forall|i: int| end - start <= i < tail.len() implies is_blank(
                #[trigger] tail[i],
            ) by {
                assert(tail[i] == text@[i + start]);
            }
            lemma_trailing_blanks(tail, end - start);
            assert(tail.take(end - start) =~= text@.subrange(start as int, end as int));
        } else {
            assert forall|i: int| 0 <= i < tail.len() implies is_blank(#[trigger] tail[i]) by {
                assert(tail[i] == text@[i + start]);
            }
            lemma_trailing_blanks(tail, 0);
            assert(tail.take(0) =~= text@.subrange(0, 0));
        }
    }
    if end == 0 {
        text.substring_char(0, 0)
    } else {
        text.substring_char(start, end)
    }
}

/// The value of a decimal digit; zero for any other character.
pub open spec fn digit_value(c: char) -> nat {
    if c == '1' {
        1
    } else if c == '2' {
        2
    } else if c == '3' {
        3
    } else if c == '4' {
        4
    } else if c == '5' {
        5
    } else if c == '6' {
        6
    } else if c == '7' {
        7
    } else if c == '8' {
        8
    } else if c == '9' {
        9
    } else {
        0
    }
}

/// `c` is one of the ten decimal digits.
pub open spec fn is_decimal_digit(c: char) -> bool {
    c == '0' || digit_value(c) > 0
}

/// Every character is a decimal digit.
pub open spec fn all_decimal_digits(digits: Seq<char>) -> bool {
    forall|i: int| 0 <= i < digits.len() ==> is_decimal_digit(#[trigger] digits[i])
}

/// The number that the digits write in base ten, most significant first.
pub open spec fn digits_value(digits: Seq<char>) -> nat
    decreases digits.len(),
{
    if digits.len() == 0 {
        0
    } else {
        digits_value(digits.drop_last()) * 10 + digit_value(digits.last())
    }
}

/// The amount that `text` writes: an optional `+` or `-`, then one or more
/// decimal digits and nothing else, for a number in the range of `i64`.
/// Any other text writes no amount.
pub open spec fn parsed_amount(text: Seq<char>) -> Option<i64> {
    let signed = text.len() > 0 && (text[0] == '+' || text[0] == '-');
    let digits = if signed {
        text.skip(1)
    } else {
        text
    };
    let value = if signed && text[0] == '-' {
        -(digits_value(digits) as int)
    } else {
        digits_value(digits) as int
    };
    if digits.len() > 0 && all_decimal_digits(digits) && i64::MIN <= value <= i64::MAX {
        Some(value as i64)
    } else {
        None
    }
}

/// The first digits of a number write no more than all of them.
proof fn lemma_digits_value_of_prefix(digits: Seq<char>, k: int)
    requires
        0 <= k <= digits.len(),
    ensures
        digits_value(digits.take(k)) <= digits_value(digits),
    decreases digits.len() - k,
{
    if k == digits.len() {
        assert(digits.take(k) =~= digits);
    } else {
        lemma_digits_value_of_prefix(digits, k + 1);
        assert(digits.take(k + 1).drop_last() =~= digits.take(k));
    }
}

/// The digits that write a number are decimal digits, and they write it.
proof fn lemma_decimal_digits_are_read_back(n: nat)
    ensures
        decimal_digits(n).len() > 0,
        all_decimal_digits(decimal_digits(n)),
        digits_value(decimal_digits(n)) == n,
    decreases n,
{
    let digits = decimal_digits(n);
    if n < 10 {
        assert(digits.drop_last() =~= Seq::<char>::empty());
        assert(digits_value(digits.drop_last()) == 0);
        assert(digits.last() == digit_char(n as int));
    } else {
        let higher = decimal_digits(n / 10);
        lemma_decimal_digits_are_read_back(n / 10);
        assert(digits.drop_last() =~= higher);
        assert(digits.last() == digit_char((n % 10) as int));
        assert forall|i: int| 0 <= i < digits.len() implies is_decimal_digit(
            #[trigger] digits[i],
        ) by {
            if i < higher.len() {
                assert(digits[i] == higher[i]);
            }
        }
    }
}

/// Reading the decimal text of an amount gives the amount back.
pub proof fn lemma_written_amount_is_read_back(amount: i64)
    ensures
        parsed_amount(decimal_text(amount as int)) == Some(amount),
{
    let text = decimal_text(amount as int);
    if amount < 0 {
        let digits = decimal_digits((-amount) as nat);
        lemma_decimal_digits_are_read_back((-amount) as nat);
        assert(text[0] == '-');
        assert(text.skip(1) =~= digits);
    } else {
        lemma_decimal_digits_are_read_back(amount as nat);
        assert(is_decimal_digit(text[0]));
    }
}

/// Reads an amount: an optional sign and decimal digits, nothing before,
/// between or after them.
pub fn parse_amount(text: &str) -> (amount: Option<i64>)
    ensures
        amount == parsed_amount(text@),
{
    let mut chars = text.chars();
    let mut first = true;
    let mut negative = false;
    let mut any_digit = false;
    let mut magnitude: u64 = 0;
    let ghost mut seen: int = 0;
    let ghost mut sign: int = 0;
    assert(text@.skip(0) =~= text@);
    assert(text@.skip(0).take(0) =~= Seq::<char>::empty());
    loop
        invariant
            0 <= sign <= seen <= text@.len(),
            sign <= 1,
            first == (seen == 0),
            chars.remaining() == text@.skip(seen),
            chars.decrease() is Some,
            seen > 0 ==> (sign == 1 <==> (text@[0] == '+' || text@[0] == '-')),
            negative <==> sign == 1 && text@[0] == '-',
            any_digit == (seen > sign),
            all_decimal_digits(text@.skip(sign).take(seen - sign)),
            magnitude == digits_value(text@.skip(sign).take(seen - sign)),
            magnitude <= 0x8000_0000_0000_0000,
            !negative ==> magnitude <= 0x7fff_ffff_ffff_ffff,
        ensures
            seen == text@.len(),
            0 <= sign <= seen,
            sign == 1 <==> text@.len() > 0 && (text@[0] == '+' || text@[0] == '-'),
            negative <==> sign == 1 && text@[0] == '-',
            any_digit == (seen > sign),
            all_decimal_digits(text@.skip(sign).take(seen - sign)),
            magnitude == digits_value(text@.skip(sign).take(seen - sign)),
            magnitude <= 0x8000_0000_0000_0000,
            !negative ==> magnitude <= 0x7fff_ffff_ffff_ffff,
        decreases chars.decrease()->0,
    {
        match chars.next() {
            Some(c) => {
                assert(c == text@[seen]);
                assert(text@.skip(seen).drop_first() =~= text@.skip(seen + 1));
                let ghost digits = text@.skip(sign);
                assert(sign == 1 <==> (text@[0] == '+' || text@[0] == '-') && !first);
                if first && (c == '+' || c == '-') {
                    negative = c == '-';
                    proof {
                        sign = 1;
                        seen = 1;
                        assert(text@.skip(1).take(0) =~= Seq::<char>::empty());
                    }
                } else if c >= '0' && c <= '9' {
                    let digit = (c as u32 - '0' as u32) as u64;
                    let wider = magnitude as u128 * 10 + digit as u128;
                    proof {
                        let longer = digits.take(seen - sign + 1);
                        assert(longer.drop_last() =~= digits.take(seen - sign));
                        assert(longer.last() == c);
                        assert(digit == digit_value(c));
                        assert(wider == digits_value(longer));
                        lemma_digits_value_of_prefix(digits, seen - sign + 1);
                    }
                    if wider > 0x8000_0000_0000_0000 || (!negative && wider
                        > 0x7fff_ffff_ffff_ffff) {
                        proof {
                            assert(text@.skip(0) =~= text@);
                            assert(digits_value(digits) >= wider);
                        }
                        return None;
                    }
                    magnitude = wider as u64;
                    any_digit = true;
                    proof {
                        seen = seen + 1;
                    }
                } else {
                    proof {
                        assert(text@.skip(0) =~= text@);
                        assert(digits[seen - sign] == c);
                        assert(!is_decimal_digit(c));
                    }
                    return None;
                }
                first = false;
            },
            None => {
                break ;
            },
        }
    }
    proof {
        let digits = text@.skip(sign);
        assert(text@.skip(0) =~= text@);
        assert(digits.take(seen - sign) =~= digits);
    }
    if !any_digit {
        None
    } else if !negative {
        Some(magnitude as i64)
    } else if magnitude == 0x8000_0000_0000_0000 {
        Some(i64::MIN)
    } else {
        Some(-(magnitude as i64))
    }
}

/// What the user picks at the menu of the terminal.
#[derive(Debug, Clone, Copy, PartialEq, Eq)]
pub enum MenuChoice {
    CheckBalance,
    Deposit,
    Withdraw,
    ViewHistory,
    Exit,
    /// Anything but one of the five numbers of the menu.
    Invalid,
}

/// The choice that the text `choice` stands for: the numbers `1` to `5`
/// name the five entries of the menu, in the order of `MenuChoice`.
pub open spec fn menu_choice(choice: Seq<char>) -> MenuChoice {
    if choice == "1"@ {
        MenuChoice::CheckBalance
    } else if choice == "2"@ {
        MenuChoice::Deposit
    } else if choice == "3"@ {
        MenuChoice::Withdraw
    } else if choice == "4"@ {
        MenuChoice::ViewHistory
    } else if choice == "5"@ {
        MenuChoice::Exit
    } else {
        MenuChoice::Invalid
    }
}

impl MenuChoice {
    /// Reads a choice from the line that the user typed; blanks around the
    /// number do not count.
    pub fn from_input(line: &str) -> (picked: MenuChoice)
        ensures
            picked == menu_choice(trimmed(line@)),
    {
        proof {
            reveal_strlit("1");
            reveal_strlit("2");
            reveal_strlit("3");
            reveal_strlit("4");
            reveal_strlit("5");
        }
        let choice = trim_blanks(line);
        if choice.unicode_len() != 1 {
            return MenuChoice::Invalid;
        }
        let c = choice.get_char(0);
        assert(choice@ =~= seq![c]);
        assert("1"@ =~= seq!['1']);
        assert("2"@ =~= seq!['2']);
        assert("3"@ =~= seq!['3']);
        assert("4"@ =~= seq!['4']);
        assert("5"@ =~= seq!['5']);
        if c == '1' {
            MenuChoice::CheckBalance
        } else if c == '2' {
            MenuChoice::Deposit
        } else if c == '3' {
            MenuChoice::Withdraw
        } else if c == '4' {
            MenuChoice::ViewHistory
        } else if c == '5' {
            MenuChoice::Exit
        } else {
            assert(seq![c][0] == c);
            MenuChoice::Invalid
        }
    }
}

/// Reads the amount from the line that the user typed; blanks around it do
/// not count.
pub fn amount_from_input(line: &str) -> (amount: Option<i64>)
    ensures
        amount == parsed_amount(trimmed(line@)),
{
    parse_amount(trim_blanks(line))
}

} // verus!
