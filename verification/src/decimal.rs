//! Numbers as decimal text.
use vstd::prelude::*;

use crate::text::{all_digits, decimal_value, is_digit, unsigned_value};

verus! {

/// The digit that stands for `d`.
pub open spec fn digit_char(d: nat) -> char {
    ('0' as u32 + d) as char
}

/// The decimal digits of `n`, without leading zeros.
pub open spec fn decimal(n: nat) -> Seq<char>
    decreases n,
{
    if n < 10 {
        seq![digit_char(n)]
    } else {
        decimal(n / 10).push(digit_char(n % 10))
    }
}

/// The decimal text of a signed number.
pub open spec fn signed_decimal(n: int) -> Seq<char> {
    if n < 0 {
        seq!['-'] + decimal((-n) as nat)
    } else {
        decimal(n as nat)
    }
}

/// Decimal text is digits only, the first of which is no zero unless it stands
/// alone, and stands for the number it was made from.
pub proof fn law_decimal_text_is_its_number(n: nat)
    ensures
        decimal(n).len() > 0,
        all_digits(decimal(n)),
        decimal(n)[0] == '0' ==> n == 0,
        decimal_value(decimal(n)) == n,
    decreases n,
{
    if n < 10 {
        assert(decimal(n).drop_last() == Seq::<char>::empty());
        assert(decimal_value(Seq::<char>::empty()) == 0);
    } else {
        law_decimal_text_is_its_number(n / 10);
        let lead = decimal(n / 10);
        assert(decimal(n).drop_last() == lead);
        assert forall|i: int| 0 <= i < decimal(n).len() implies is_digit(
            #[trigger] decimal(n)[i],
        ) by {
            if i < lead.len() {
                assert(decimal(n)[i] == lead[i]);
            }
        }
        assert(decimal(n)[0] == lead[0]);
    }
}

/// A number written in decimal and read back is the same number, wherever it
/// is in range.
pub proof fn law_decimal_round_trip(n: nat, max: nat)
    requires
        n <= max,
    ensures
        unsigned_value(decimal(n), max) == Some(n),
{
    law_decimal_text_is_its_number(n);
    assert(is_digit(decimal(n)[0]));
}

/// Different numbers have different decimal texts.
pub proof fn law_decimal_is_injective(a: nat, b: nat)
    requires
        decimal(a) == decimal(b),
    ensures
        a == b,
{
    law_decimal_text_is_its_number(a);
    law_decimal_text_is_its_number(b);
}

/// The digit that stands for `d`, as a string.
fn digit_str(d: u8) -> (s: &'static str)
    requires
        d < 10,
    ensures
        s@ == seq![digit_char(d as nat)],
{
    proof {
        reveal_strlit("0");
        reveal_strlit("1");
        reveal_strlit("2");
        reveal_strlit("3");
        reveal_strlit("4");
        reveal_strlit("5");
        reveal_strlit("6");
        reveal_strlit("7");
        reveal_strlit("8");
        reveal_strlit("9");
    }
    if d == 0 {
        "0"
    } else if d == 1 {
        "1"
    } else if d == 2 {
        "2"
    } else if d == 3 {
        "3"
    } else if d == 4 {
        "4"
    } else if d == 5 {
        "5"
    } else if d == 6 {
        "6"
    } else if d == 7 {
        "7"
    } else if d == 8 {
        "8"
    } else {
        "9"
    }
}

/// The decimal text of an unsigned number.
pub fn unsigned_text(n: u128) -> (s: String)
    ensures
        s@ == decimal(n as nat),
    decreases n,
{
    let last = digit_str((n % 10) as u8);
    if n < 10 {
        String::from_str(last)
    } else {
        let mut s = unsigned_text(n / 10);
        let ghost lead = s@;
        s.append(last);
        assert(lead + last@ == lead.push(digit_char((n % 10) as nat)));
        s
    }
}

/// The decimal text of a signed number.
pub fn signed_text(n: i64) -> (s: String)
    ensures
        s@ == signed_decimal(n as int),
{
    if n < 0 {
        let mut s = String::from_str("-");
        let digits = unsigned_text((-(n as i128)) as u128);
        s.append(digits.as_str());
        proof {
            reveal_strlit("-");
            assert("-"@ == seq!['-']);
        }
        s
    } else {
        unsigned_text(n as u128)
    }
}

/// The text of a signed number is a minus sign where it is negative, and the digits of
/// its magnitude.
pub proof fn law_signed_text_is_its_number(n: int)
    ensures
        ({
            let text = signed_decimal(n);
            let digits = if n < 0 {
                text.skip(1)
            } else {
                text
            };
            &&& n < 0 ==> text[0] == '-'
            &&& digits.len() > 0
            &&& forall|i: int| 0 <= i < digits.len() ==> '0' <= #[trigger] digits[i] <= '9'
            &&& digits[0] == '0' ==> n == 0
            &&& decimal_value(digits) == if n < 0 {
                -n
            } else {
                n
            }
        }),
{
    let size = if n < 0 {
        (-n) as nat
    } else {
        n as nat
    };
    law_decimal_text_is_its_number(size);
    if n < 0 {
        assert(signed_decimal(n).skip(1) == decimal(size));
    }
    assert forall|i: int| 0 <= i < decimal(size).len() implies '0' <= #[trigger] decimal(
        size,
    )[i] <= '9' by {
        assert(is_digit(decimal(size)[i]));
    }
}

} // verus!
