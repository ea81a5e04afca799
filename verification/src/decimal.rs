//! Indices as decimal text: how an index is written into a rewritten tree and
//! how it is read back.

use vstd::prelude::*;
use vstd::string::{is_ascii_spec_bytes, StringExecFns};

verus! {

/// The character that writes the digit `d`.
pub open spec fn digit_char(d: nat) -> char {
    (d + 48) as char
}

/// Whether `c` is one of `'0'` to `'9'`.
pub open spec fn is_digit(c: char) -> bool {
    '0' <= c <= '9'
}

/// The digit that `c` writes.
pub open spec fn digit_of(c: char) -> nat {
    (c as nat - 48) as nat
}

/// Whether every character of `s` is a digit.
pub open spec fn all_digits(s: Seq<char>) -> bool {
    forall|i: int| 0 <= i < s.len() ==> is_digit(#[trigger] s[i])
}

/// The number that a run of digits writes in base ten; the empty run writes 0.
pub open spec fn digits_number(s: Seq<char>) -> nat
    decreases s.len(),
{
    if s.len() == 0 {
        0
    } else {
        10 * digits_number(s.drop_last()) + digit_of(s.last())
    }
}

/// The decimal text of `n`: its digits, most significant first, with no sign
/// and no leading zero.
pub open spec fn decimal_text(n: nat) -> Seq<char>
    decreases n,
{
    if n < 10 {
        seq![digit_char(n)]
    } else {
        decimal_text(n / 10).push(digit_char(n % 10))
    }
}

/// The index that `text` writes: an optional `+`, then one or more digits.
/// Any other text writes none.
pub open spec fn index_value(text: Seq<char>) -> Option<nat> {
    let digits = if text.len() > 0 && text[0] == '+' {
        text.skip(1)
    } else {
        text
    };
    if digits.len() > 0 && all_digits(digits) {
        Some(digits_number(digits))
    } else {
        None
    }
}

/// The decimal text of a number is made of digits, and writes that number.
pub proof fn lemma_decimal_text_digits(n: nat)
    ensures
        decimal_text(n).len() > 0,
        all_digits(decimal_text(n)),
        digits_number(decimal_text(n)) == n,
    decreases n,
{
    if n < 10 {
        let s = decimal_text(n);
        assert(s.drop_last() =~= Seq::<char>::empty());
        assert(digits_number(s.drop_last()) == 0);
    } else {
        lemma_decimal_text_digits(n / 10);
        let head = decimal_text(n / 10);
        let s = decimal_text(n);
        assert(s.drop_last() =~= head);
        assert(s.last() == digit_char(n % 10));
    }
}

/// Reading back what was written gives the index that was written.
pub proof fn lemma_index_value_of_decimal_text(n: nat)
    ensures
        index_value(decimal_text(n)) == Some(n),
{
    lemma_decimal_text_digits(n);
    let s = decimal_text(n);
    assert(is_digit(s[0]));
}

/// A run of digits writes at least what any of its prefixes writes.
proof fn lemma_digits_number_grows(s: Seq<char>, i: int)
    requires
        0 <= i <= s.len(),
    ensures
        digits_number(s.take(i)) <= digits_number(s),
    decreases s.len() - i,
{
    if i == s.len() {
        assert(s.take(i) =~= s);
    } else {
        lemma_digits_number_grows(s, i + 1);
        assert(s.take(i + 1).drop_last() =~= s.take(i));
    }
}

/// The text of one digit.
fn digit_text(d: usize) -> (text: &'static str)
    requires
        d < 10,
    ensures
        text@ == seq![digit_char(d as nat)],
{
    proof {
        reveal_strlit("0");
        reveal_strlit("1");
        reveal_strlit("2");
        reveal_strlit("3");
        reveal_strlit("4");
        reveal_strlit("5");
        reveal_strlit("6");
        reveal_strlit("7");
        reveal_strlit("8");
        reveal_strlit("9");
    }
    let text = if d == 0 {
        "0"
    } else if d == 1 {
        "1"
    } else if d == 2 {
        "2"
    } else if d == 3 {
        "3"
    } else if d == 4 {
        "4"
    } else if d == 5 {
        "5"
    } else if d == 6 {
        "6"
    } else if d == 7 {
        "7"
    } else if d == 8 {
        "8"
    } else {
        "9"
    };
    assert(text@ =~= seq![digit_char(d as nat)]);
    text
}

/// Writes an index as decimal text.
pub fn index_text(index: usize) -> (text: String)
    ensures
        text@ == decimal_text(index as nat),
    decreases index,
{
    let digit = digit_text(index % 10);
    if index < 10 {
        String::from_str(digit)
    } else {
        let mut text = index_text(index / 10);
        text.append(digit);
        assert(text@ =~= decimal_text(index as nat));
        text
    }
}

/// Reads an index from text. `None` where the text writes no index, or one
/// that does not fit in `usize`.
pub fn parse_index(text: &str) -> (index: Option<usize>)
    ensures
        index == match index_value(text@) {
            Some(n) => if n <= usize::MAX {
                Some(n as usize)
            } else {
                None
            },
            None => None,
        },
{
    if !text.is_ascii() {
        proof {
            let k = choose|k: int|
                0 <= k < text@.len() && !('\0' <= #[trigger] text@[k] <= '\u{7f}');
            if text@[0] == '+' {
                assert(text@.skip(1)[k - 1] == text@[k]);
            }
        }
        return None;
    }
    let bytes = text.as_bytes();
    let len: usize = bytes.len();
    proof {
        is_ascii_spec_bytes(text);
        assert forall|k: int| 0 <= k < len implies bytes@[k] as nat
            == #[trigger] text@[k] as nat by {
            assert('\0' <= text@[k] <= '\u{7f}');
        }
    }
    let start: usize = if len > 0 && bytes[0] == 43 {
        1
    } else {
        0
    };
    let ghost digits = text@.skip(start as int);
    proof {
        if len > 0 {
            assert(bytes@[0] as nat == text@[0] as nat);
        }
        if start == 0 {
            assert(digits =~= text@);
        }
    }
    if start == len {
        return None;
    }
    let mut value: usize = 0;
    let mut i: usize = start;
    while i < len
        invariant
            start <= i <= len,
            len == bytes@.len(),
            len == text@.len(),
            digits == text@.skip(start as int),
            index_value(text@) == if all_digits(digits) {
                Some(digits_number(digits))
            } else {
                None
            },
            vstd::utf8::is_ascii_chars(text@),
            forall|k: int| 0 <= k < len ==> bytes@[k] as nat == #[trigger] text@[k] as nat,
            all_digits(digits.take(i - start)),
            value == digits_number(digits.take(i - start)),
        decreases len - i,
    {
        let byte: u8 = bytes[i];
        let ghost c = text@[i as int];
        assert(digits[i - start] == c);
        assert('\0' <= c <= '\u{7f}');
        if byte < 48 || byte > 57 {
            return None;
        }
        let digit: usize = (byte - 48) as usize;
        proof {
            assert(digits.take(i + 1 - start).drop_last() =~= digits.take(i - start));
            lemma_digits_number_grows(digits, i + 1 - start);
        }
        let grown = match value.checked_mul(10) {
            Some(tens) => tens.checked_add(digit),
            None => None,
        };
        match grown {
            Some(next) => {
                value = next;
            },
            None => {
                return None;
            },
        }
        i += 1;
    }
    assert(digits.take(len - start) =~= digits);
    Some(value)
}

} // verus!
