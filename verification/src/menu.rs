//! The menu: what the user types, and what it stands for.

use crate::errors::{result_view, InstallerError, InstallerErrorView};
use crate::text::chars_of;
use vstd::prelude::*;

verus! {

/// What the user can ask for.
#[derive(Debug, Clone, Copy, PartialEq, Eq, Structural)]
pub enum MenuChoice {
    InstallToSteam,
    InstallToWine,
    Quit,
}

impl DeepView for MenuChoice {
    type V = MenuChoice;

    open spec fn deep_view(&self) -> MenuChoice {
        *self
    }
}

/// Whether `text` holds decimal digits only.
pub open spec fn all_digits(text: Seq<char>) -> bool {
    forall|i: int| 0 <= i < text.len() ==> '0' <= #[trigger] text[i] <= '9'
}

/// The number that the decimal digits `digits` write.
pub open spec fn decimal_value(digits: Seq<char>) -> nat
    decreases digits.len(),
{
    if digits.len() == 0 {
        0
    } else {
        decimal_value(digits.drop_last()) * 10 + (digits.last() as nat - '0' as nat) as nat
    }
}

/// The number that `text` writes: a sign or none, then one decimal digit at
/// least and nothing else, where the number fits in thirty-two bits.
pub open spec fn number_of(text: Seq<char>) -> Option<int> {
    let negative = text.len() > 0 && text[0] == '-';
    let signed = negative || (text.len() > 0 && text[0] == '+');
    let body = if signed {
        text.drop_first()
    } else {
        text
    };
    let value = if negative {
        -decimal_value(body)
    } else {
        decimal_value(body) as int
    };
    if body.len() > 0 && all_digits(body) && i32::MIN <= value <= i32::MAX {
        Some(value)
    } else {
        None
    }
}

/// What a number stands for in the menu. What is no number is one error,
/// a number that stands for nothing another.
pub open spec fn choice_of(number: Option<int>) -> Result<MenuChoice, InstallerErrorView> {
    match number {
        None => Err(InstallerErrorView::NotANumber),
        Some(n) => if n == 1 {
            Ok(MenuChoice::InstallToSteam)
        } else if n == 2 {
            Ok(MenuChoice::InstallToWine)
        } else if n == 0 {
            Ok(MenuChoice::Quit)
        } else {
            Err(InstallerErrorView::InvalidNumber)
        },
    }
}

/// More digits write no smaller number.
proof fn lemma_decimal_value_grows(digits: Seq<char>, i: int)
    requires
        0 <= i <= digits.len(),
        all_digits(digits),
    ensures
        decimal_value(digits.take(i)) <= decimal_value(digits),
    decreases digits.len() - i,
{
    if i == digits.len() {
        assert(digits.take(i) =~= digits);
    } else {
        let longer = digits.take(i + 1);
        assert(longer.drop_last() =~= digits.take(i));
        lemma_decimal_value_grows(digits, i + 1);
    }
}

/// The number that `text` writes.
pub fn parse_number(text: &str) -> (r: Option<i32>)
    ensures
        match r {
            Some(number) => number_of(text@) == Some(number as int),
            None => number_of(text@) is None,
        },
{
    let chars = chars_of(text);
    let length = chars.len();
    if length == 0 {
        return None;
    }
    let negative = chars[0] == '-';
    let start: usize = if negative || chars[0] == '+' {
        1
    } else {
        0
    };
    if start == length {
        return None;
    }
    let ghost body = if start == 1 {
        chars@.drop_first()
    } else {
        chars@
    };
    let mut value: i64 = 0;
    let mut i: usize = start;
    while i < length
        invariant
            start <= i <= length == chars.len(),
            chars@ == text@,
            negative == (chars@[0] == '-'),
            start == (if negative || chars@[0] == '+' {
                1int
            } else {
                0int
            }),
            body == (if start == 1 {
                chars@.drop_first()
            } else {
                chars@
            }),
            body.len() == length - start,
            all_digits(body.take(i - start)),
            value == decimal_value(body.take(i - start)),
            value <= 0x8000_0000,
        decreases length - i,
    {
        let c = chars[i];
        let ghost upto = body.take(i - start + 1);
        assert(upto.drop_last() =~= body.take(i - start));
        if !('0' <= c && c <= '9') {
            return None;
        }
        let digit = (c as u32 - '0' as u32) as i64;
        value = value * 10 + digit;
        if value > 0x8000_0000 {
            proof {
                if all_digits(body) {
                    lemma_decimal_value_grows(body, i - start + 1);
                }
            }
            return None;
        }
        i = i + 1;
    }
    assert(body.take(length - start) =~= body);
    if negative {
        Some((-value) as i32)
    } else if value == 0x8000_0000 {
        None
    } else {
        Some(value as i32)
    }
}

/// What a number stands for in the menu.
pub fn menu_choice(number: Option<i32>) -> (r: Result<MenuChoice, InstallerError>)
    ensures
        result_view(r) == choice_of(
            match number {
                Some(n) => Some(n as int),
                None => None,
            },
        ),
{
    match number {
        None => Err(InstallerError::NotANumber),
        Some(1) => Ok(MenuChoice::InstallToSteam),
        Some(2) => Ok(MenuChoice::InstallToWine),
        Some(0) => Ok(MenuChoice::Quit),
        Some(_) => Err(InstallerError::InvalidNumber),
    }
}

/// What the user's answer `input` stands for in the menu.
pub fn read_menu_choice(input: &str) -> (r: Result<MenuChoice, InstallerError>)
    ensures
        result_view(r) == choice_of(number_of(input@)),
{
    menu_choice(parse_number(input))
}

} // verus!
