//! Whole numbers written in decimal: an optional sign, then digits.

use vstd::prelude::*;
use vstd::std_specs::iter::IteratorSpec;
use vstd::string::StringExecFns;

verus! {

/// The value of a decimal digit, and nothing for any other character.
pub open spec fn digit_value(c: char) -> Option<int> {
    if '0' <= c <= '9' {
        Some(c as int - '0' as int)
    } else {
        None
    }
}

/// The number that a run of decimal digits spells, and nothing for the
/// empty text or a text that holds anything but digits.
pub open spec fn decimal_value(s: Seq<char>) -> Option<int>
    decreases s.len(),
{
    if s.len() == 0 {
        None
    } else {
        match digit_value(s.last()) {
            None => None,
            Some(d) => if s.len() == 1 {
                Some(d)
            } else {
                match decimal_value(s.drop_last()) {
                    Some(v) => Some(10 * v + d),
                    None => None,
                }
            },
        }
    }
}

/// The whole number that a text spells: digits, with `-` or `+` in front
/// or with no sign. Nothing else spells a number: no blank, no sign alone.
pub open spec fn integer_of_text(s: Seq<char>) -> Option<int> {
    if s.len() > 0 && s[0] == '-' {
        match decimal_value(s.drop_first()) {
            Some(v) => Some(-v),
            None => None,
        }
    } else if s.len() > 0 && s[0] == '+' {
        decimal_value(s.drop_first())
    } else {
        decimal_value(s)
    }
}

/// The 64-bit number that a text spells, and nothing for a text that spells
/// no number or one beyond 64 bits.
pub open spec fn i64_of_text(s: Seq<char>) -> Option<i64> {
    match integer_of_text(s) {
        Some(v) => if i64::MIN <= v <= i64::MAX {
            Some(v as i64)
        } else {
            None
        },
        None => None,
    }
}

/// The 32-bit number that a text spells, and nothing for a text that spells
/// no number or one beyond 32 bits.
pub open spec fn i32_of_text(s: Seq<char>) -> Option<i32> {
    match integer_of_text(s) {
        Some(v) => if i32::MIN <= v <= i32::MAX {
            Some(v as i32)
        } else {
            None
        },
        None => None,
    }
}

/// A run of digits spells a number that is not below zero, and every run
/// it begins with spells a number that is no greater.
pub proof fn lemma_decimal_grows(s: Seq<char>, k: int)
    requires
        1 <= k <= s.len(),
        decimal_value(s) is Some,
    ensures
        decimal_value(s.take(k)) is Some,
        0 <= decimal_value(s.take(k)).unwrap() <= decimal_value(s).unwrap(),
    decreases s.len(),
{
    if k == s.len() {
        assert(s.take(k) =~= s);
        if s.len() > 1 {
            lemma_decimal_grows(s.drop_last(), k - 1);
        }
    } else {
        lemma_decimal_grows(s.drop_last(), k);
        assert(s.drop_last().take(k) =~= s.take(k));
    }
}

/// The number that the digits of `s` from `start` on spell, where it is at
/// most `limit`.
fn parse_digits(s: &str, start: usize, limit: u64) -> (value: Option<u64>)
    requires
        start <= s@.len(),
        limit <= 0x8000_0000_0000_0000,
    ensures
        match value {
            Some(v) => decimal_value(s@.skip(start as int)) == Some(v as int) && v <= limit,
            None => match decimal_value(s@.skip(start as int)) {
                Some(v) => v > limit,
                None => true,
            },
        },
{
    broadcast use vstd::string::group_string_axioms;

    let ghost body = s@.skip(start as int);
    let mut rest = s.chars();
    let mut skipped: usize = 0;
    while skipped < start
        invariant
            skipped <= start <= s@.len(),
            rest.remaining() == s@.skip(skipped as int),
        decreases start - skipped,
    {
        let c = rest.next();
        proof {
            assert(s@.skip(skipped as int).drop_first() =~= s@.skip(skipped + 1));
        }
        skipped += 1;
    }
    let mut acc: u64 = 0;
    let mut any: bool = false;
    let ghost mut k: int = 0;
    loop
        invariant
            0 <= k <= body.len(),
            any == (k > 0),
            body == s@.skip(start as int),
            rest.remaining() == body.skip(k),
            acc <= limit <= 0x8000_0000_0000_0000,
            k == 0 ==> acc == 0,
            k > 0 ==> decimal_value(body.take(k)) == Some(acc as int),
        decreases body.len() - k,
    {
        match rest.next() {
            None => {
                proof {
                    assert(body.take(k) =~= body);
                }
                return if any {
                    Some(acc)
                } else {
                    None
                };
            },
            Some(c) => {
                proof {
                    assert(c == body[k]);
                    assert(body.skip(k).drop_first() =~= body.skip(k + 1));
                    assert(body.take(k + 1).drop_last() =~= body.take(k));
                    assert(body.take(k + 1).last() == c);
                }
                if c < '0' || c > '9' {
                    proof {
                        lemma_not_a_number(body, k);
                    }
                    return None;
                }
                let d: u64 = (c as u32 - '0' as u32) as u64;
                let wide: u128 = (acc as u128) * 10 + (d as u128);
                if wide > limit as u128 {
                    proof {
                        if decimal_value(body) is Some {
                            lemma_decimal_grows(body, k + 1);
                        }
                    }
                    return None;
                }
                acc = wide as u64;
                any = true;
                proof {
                    k = k + 1;
                }
            },
        }
    }
}

/// A text with a character that is no digit spells no number.
pub proof fn lemma_not_a_number(s: Seq<char>, k: int)
    requires
        0 <= k < s.len(),
        digit_value(s[k]) is None,
    ensures
        decimal_value(s) is None,
    decreases s.len(),
{
    if k < s.len() - 1 {
        lemma_not_a_number(s.drop_last(), k);
    }
}

/// The 64-bit number that `s` spells.
pub fn parse_i64(s: &str) -> (n: Option<i64>)
    ensures
        n == i64_of_text(s@),
{
    broadcast use vstd::string::group_string_axioms;

    let mut chars = s.chars();
    let first = chars.next();
    proof {
        assert(s@.skip(0) =~= s@);
        if s@.len() > 0 {
            assert(s@.skip(1) =~= s@.drop_first());
        }
    }
    if first == Some('-') {
        match parse_digits(s, 1, 0x8000_0000_0000_0000) {
            Some(m) => if m == 0x8000_0000_0000_0000 {
                Some(i64::MIN)
            } else {
                Some(-(m as i64))
            },
            None => None,
        }
    } else if first == Some('+') {
        match parse_digits(s, 1, 0x7fff_ffff_ffff_ffff) {
            Some(m) => Some(m as i64),
            None => None,
        }
    } else {
        match parse_digits(s, 0, 0x7fff_ffff_ffff_ffff) {
            Some(m) => Some(m as i64),
            None => None,
        }
    }
}

/// The 32-bit number that `s` spells.
pub fn parse_i32(s: &str) -> (n: Option<i32>)
    ensures
        n == i32_of_text(s@),
{
    broadcast use vstd::string::group_string_axioms;

    let mut chars = s.chars();
    let first = chars.next();
    proof {
        assert(s@.skip(0) =~= s@);
        if s@.len() > 0 {
            assert(s@.skip(1) =~= s@.drop_first());
        }
    }
    if first == Some('-') {
        match parse_digits(s, 1, 0x8000_0000) {
            Some(m) => if m == 0x8000_0000 {
                Some(i32::MIN)
            } else {
                Some(-(m as i32))
            },
            None => None,
        }
    } else if first == Some('+') {
        match parse_digits(s, 1, 0x7fff_ffff) {
            Some(m) => Some(m as i32),
            None => None,
        }
    } else {
        match parse_digits(s, 0, 0x7fff_ffff) {
            Some(m) => Some(m as i32),
            None => None,
        }
    }
}

/// The character of a decimal digit.
pub open spec fn digit_char(d: int) -> char {
    if d == 0 {
        '0'
    } else if d == 1 {
        '1'
    } else if d == 2 {
        '2'
    } else if d == 3 {
        '3'
    } else if d == 4 {
        '4'
    } else if d == 5 {
        '5'
    } else if d == 6 {
        '6'
    } else if d == 7 {
        '7'
    } else if d == 8 {
        '8'
    } else {
        '9'
    }
}

/// A number that is not below zero, written in decimal without needless
/// zeros in front.
pub open spec fn decimal_text(n: nat) -> Seq<char>
    decreases n,
{
    if n < 10 {
        seq![digit_char(n as int)]
    } else {
        decimal_text(n / 10).push(digit_char((n % 10) as int))
    }
}

/// A whole number written in decimal, with `-` in front if it is below
/// zero.
pub open spec fn text_of_integer(n: int) -> Seq<char> {
    if n < 0 {
        seq!['-'] + decimal_text((-n) as nat)
    } else {
        decimal_text(n as nat)
    }
}

/// The decimal text of a number spells that number, and begins with a
/// digit.
pub proof fn lemma_decimal_text(n: nat)
    ensures
        decimal_value(decimal_text(n)) == Some(n as int),
        decimal_text(n).len() >= 1,
        digit_value(decimal_text(n)[0]) is Some,
    decreases n,
{
    if n >= 10 {
        lemma_decimal_text(n / 10);
        let text = decimal_text(n);
        assert(text.drop_last() =~= decimal_text(n / 10));
        assert(text.last() == digit_char((n % 10) as int));
        assert(text[0] == decimal_text(n / 10)[0]);
    }
}

/// A number that was written is read back as it was.
pub proof fn lemma_text_round_trip(n: int)
    ensures
        integer_of_text(text_of_integer(n)) == Some(n),
{
    if n < 0 {
        lemma_decimal_text((-n) as nat);
        assert(text_of_integer(n).drop_first() =~= decimal_text((-n) as nat));
    } else {
        lemma_decimal_text(n as nat);
    }
}

/// The text of one decimal digit.
fn digit_text(d: u64) -> (text: &'static str)
    requires
        d < 10,
    ensures
        text@ == seq![digit_char(d as int)],
{
    proof {
        reveal_strlit("0");
        reveal_strlit("1");
        reveal_strlit("2");
        reveal_strlit("3");
        reveal_strlit("4");
        reveal_strlit("5");
        reveal_strlit("6");
        reveal_strlit("7");
        reveal_strlit("8");
        reveal_strlit("9");
    }
    let text = if d == 0 {
        "0"
    } else if d == 1 {
        "1"
    } else if d == 2 {
        "2"
    } else if d == 3 {
        "3"
    } else if d == 4 {
        "4"
    } else if d == 5 {
        "5"
    } else if d == 6 {
        "6"
    } else if d == 7 {
        "7"
    } else if d == 8 {
        "8"
    } else {
        "9"
    };
    assert(text@ =~= seq![digit_char(d as int)]);
    text
}

/// The digits, given lowest first, as text with the highest first.
pub open spec fn digits_text(digits: Seq<u64>) -> Seq<char> {
    Seq::new(digits.len(), |i: int| digit_char(digits[digits.len() - 1 - i] as int))
}

/// The 64-bit number `n` written in decimal.
pub fn i64_to_text(n: i64) -> (text: String)
    ensures
        text@ == text_of_integer(n as int),
{
    let magnitude: u64 = if n < 0 {
        if n == i64::MIN {
            0x8000_0000_0000_0000
        } else {
            (-n) as u64
        }
    } else {
        n as u64
    };
    let mut digits: Vec<u64> = Vec::new();
    let mut m: u64 = magnitude;
    digits.push(m % 10);
    m = m / 10;
    proof {
        assert(decimal_text(magnitude as nat) =~= (if m > 0 {
            decimal_text(m as nat)
        } else {
            Seq::<char>::empty()
        }) + digits_text(digits@));
    }
    while m > 0
        invariant
            digits.len() >= 1,
            forall|i: int| 0 <= i < digits.len() ==> digits[i] < 10,
            decimal_text(magnitude as nat) == (if m > 0 {
                decimal_text(m as nat)
            } else {
                Seq::<char>::empty()
            }) + digits_text(digits@),
        decreases m,
    {
        let ghost before = digits@;
        let ghost was = m;
        digits.push(m % 10);
        m = m / 10;
        proof {
            let part = if m > 0 {
                decimal_text(m as nat)
            } else {
                Seq::<char>::empty()
            };
            assert(decimal_text(was as nat) =~= part + seq![digit_char((was % 10) as int)]);
            assert(digits_text(digits@) =~= seq![digit_char((was % 10) as int)] + digits_text(
                before,
            ));
            assert(decimal_text(magnitude as nat) =~= part + digits_text(digits@));
        }
    }
    let mut text: String = if n < 0 {
        String::from_str("-")
    } else {
        String::from_str("")
    };
    proof {
        reveal_strlit("-");
        reveal_strlit("");
        assert(decimal_text(magnitude as nat) =~= digits_text(digits@));
        assert("-"@ =~= seq!['-']);
        assert(""@ =~= Seq::<char>::empty());
    }
    let ghost sign = text@;
    let mut k: usize = digits.len();
    while k > 0
        invariant
            k <= digits.len(),
            forall|i: int| 0 <= i < digits.len() ==> digits[i] < 10,
            text@ == sign + digits_text(digits@).take(digits.len() - k),
        decreases k,
    {
        let ghost so_far = text@;
        text.append(digit_text(digits[k - 1]));
        proof {
            let all = digits_text(digits@);
            let j = digits.len() - k;
            assert(all.take(j + 1) =~= all.take(j).push(all[j]));
            assert(all[j] == digit_char(digits[k - 1] as int));
            assert(text@ =~= sign + all.take(j + 1));
        }
        k -= 1;
    }
    proof {
        let all = digits_text(digits@);
        assert(all.take(digits.len() as int) =~= all);
    }
    text
}

} // verus!
