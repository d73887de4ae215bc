//! Decimal numbers as they appear in commands and replies.

use vstd::prelude::*;

verus! {

/// Whether `c` is one of the digits `0` to `9`.
pub open spec fn is_digit(c: char) -> bool {
    '0' <= c <= '9'
}

/// The value of the digit `c`.
pub open spec fn digit_value(c: char) -> int {
    c as int - '0' as int
}

/// Whether `s` consists of digits only. The empty text does.
pub open spec fn all_digits(s: Seq<char>) -> bool {
    forall|i: int| 0 <= i < s.len() ==> is_digit(#[trigger] s[i])
}

/// The number that the digits `s` write in base ten, most significant digit
/// first.
pub open spec fn decimal_value(s: Seq<char>) -> int
    decreases s.len(),
{
    if s.len() == 0 {
        0
    } else {
        10 * decimal_value(s.drop_last()) + digit_value(s.last())
    }
}

/// What a piece of a command stands for as a number: the piece is one or
/// more digits, with nothing before or after them, and their value fits in
/// 16 bits. Leading zeros are allowed.
pub open spec fn number(s: Seq<char>) -> Option<u16> {
    if s.len() > 0 && all_digits(s) && decimal_value(s) <= u16::MAX {
        Some(decimal_value(s) as u16)
    } else {
        None
    }
}

/// Reads `s` as a number.
pub fn parse_u16(s: &[char]) -> (n: Option<u16>)
    ensures
        n == number(s@),
{
    if s.len() == 0 {
        return None;
    }
    let mut value: u32 = 0;
    let mut i: usize = 0;
    while i < s.len()
        invariant
            i <= s.len(),
            all_digits(s@.take(i as int)),
            value == decimal_value(s@.take(i as int)),
            value <= u16::MAX,
        decreases s.len() - i,
    {
        let c = s[i];
        if !('0' <= c && c <= '9') {
            assert(!is_digit(s@[i as int]));
            return None;
        }
        let digit: u32 = c as u32 - '0' as u32;
        proof {
            let next = s@.take(i + 1);
            assert(next.drop_last() =~= s@.take(i as int));
            assert(next.last() == c);
            assert(all_digits(next)) by {
                assert forall|j: int| 0 <= j < next.len() implies is_digit(#[trigger] next[j]) by {
                    if j < i {
                        assert(next[j] == s@.take(i as int)[j]);
                    }
                }
            }
        }
        value = 10 * value + digit;
        i += 1;
        if value > 0xFFFF {
            proof {
                if all_digits(s@) {
                    lemma_prefix_value(s@, i as int);
                }
            }
            return None;
        }
    }
    assert(s@.take(i as int) =~= s@);
    Some(value as u16)
}

/// The character that writes the digit `d`.
pub open spec fn digit_char(d: int) -> char {
    ('0' as int + d) as char
}

/// The digits that write `n` in base ten, without leading zeros; `0` is
/// written as one digit.
pub open spec fn decimal_digits(n: nat) -> Seq<char>
    decreases n,
{
    if n < 10 {
        seq![digit_char(n as int)]
    } else {
        decimal_digits(n / 10).push(digit_char((n % 10) as int))
    }
}

/// Writes `n` in base ten.
pub fn decimal(n: usize) -> (text: String)
    ensures
        text@ == decimal_digits(n as nat),
    decreases n,
{
    if n < 10 {
        String::from_str(digit_text(n))
    } else {
        let mut text = decimal(n / 10);
        text.append(digit_text(n % 10));
        text
    }
}

/// The text of one digit.
fn digit_text(d: usize) -> (t: &'static str)
    requires
        d < 10,
    ensures
        t@ == seq![digit_char(d as int)],
{
    proof {
        reveal_strlit("0");
        reveal_strlit("1");
        reveal_strlit("2");
        reveal_strlit("3");
        reveal_strlit("4");
        reveal_strlit("5");
        reveal_strlit("6");
        reveal_strlit("7");
        reveal_strlit("8");
        reveal_strlit("9");
    }
    let t = if d == 0 {
        "0"
    } else if d == 1 {
        "1"
    } else if d == 2 {
        "2"
    } else if d == 3 {
        "3"
    } else if d == 4 {
        "4"
    } else if d == 5 {
        "5"
    } else if d == 6 {
        "6"
    } else if d == 7 {
        "7"
    } else if d == 8 {
        "8"
    } else {
        "9"
    };
    assert(t@ =~= seq![digit_char(d as int)]);
    t
}

/// A text of digits is worth zero or more.
proof fn lemma_value_not_negative(s: Seq<char>)
    requires
        all_digits(s),
    ensures
        0 <= decimal_value(s),
    decreases s.len(),
{
    if s.len() > 0 {
        let t = s.drop_last();
        assert(is_digit(s.last()));
        assert forall|i: int| 0 <= i < t.len() implies is_digit(#[trigger] t[i]) by {
            assert(t[i] == s[i]);
        }
        lemma_value_not_negative(t);
    }
}

/// A text of digits is worth at least as much as any of its prefixes.
proof fn lemma_prefix_value(s: Seq<char>, n: int)
    requires
        all_digits(s),
        0 <= n <= s.len(),
    ensures
        0 <= decimal_value(s.take(n)) <= decimal_value(s),
    decreases s.len() - n,
{
    if n < s.len() {
        let t = s.drop_last();
        assert(is_digit(s.last()));
        assert(all_digits(t)) by {
            assert forall|i: int| 0 <= i < t.len() implies is_digit(#[trigger] t[i]) by {
                assert(t[i] == s[i]);
            }
        }
        lemma_prefix_value(t, n);
        assert(t.take(n) =~= s.take(n));
    } else {
        assert(s.take(n) =~= s);
        lemma_value_not_negative(s);
    }
}

/// What `decimal_digits` writes is one or more digits, and they are worth `n`.
pub proof fn lemma_decimal_digits(n: nat)
    ensures
        decimal_digits(n).len() > 0,
        all_digits(decimal_digits(n)),
        decimal_value(decimal_digits(n)) == n,
    decreases n,
{
    let s = decimal_digits(n);
    if n < 10 {
        assert(s.drop_last() =~= Seq::<char>::empty());
        assert(decimal_value(s.drop_last()) == 0);
        assert(s.last() == digit_char(n as int));
    } else {
        let head = decimal_digits(n / 10);
        lemma_decimal_digits(n / 10);
        assert(s.drop_last() =~= head);
        assert(s.last() == digit_char((n % 10) as int));
        assert forall|i: int| 0 <= i < s.len() implies is_digit(#[trigger] s[i]) by {
            if i < head.len() {
                assert(s[i] == head[i]);
            }
        }
    }
}

/// A number that fits in 16 bits, written in base ten, reads back as itself.
pub proof fn lemma_number_of_decimal_digits(n: nat)
    requires
        n <= u16::MAX,
    ensures
        number(decimal_digits(n)) == Some(n as u16),
{
    lemma_decimal_digits(n);
}

} // verus!
