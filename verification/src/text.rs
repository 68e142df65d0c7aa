//! Rendering unsigned numbers as decimal text.

use vstd::prelude::*;

verus! {

/// The character for one decimal digit.
pub open spec fn digit_char(d: nat) -> char {
    if d == 0 {
        '0'
    } else if d == 1 {
        '1'
    } else if d == 2 {
        '2'
    } else if d == 3 {
        '3'
    } else if d == 4 {
        '4'
    } else if d == 5 {
        '5'
    } else if d == 6 {
        '6'
    } else if d == 7 {
        '7'
    } else if d == 8 {
        '8'
    } else {
        '9'
    }
}

/// The decimal digits of `n`, most significant first, without leading zeros
/// (a lone zero for 0).
pub open spec fn dec_digits(n: nat) -> Seq<char>
    decreases n,
{
    if n < 10 {
        seq![digit_char(n)]
    } else {
        dec_digits(n / 10) + seq![digit_char(n % 10)]
    }
}

/// One decimal digit as text.
fn digit_str(d: u64) -> (r: &'static str)
    requires
        d < 10,
    ensures
        r@ == seq![digit_char(d as nat)],
{
    let r: &'static str = match d {
        0 => "0",
        1 => "1",
        2 => "2",
        3 => "3",
        4 => "4",
        5 => "5",
        6 => "6",
        7 => "7",
        8 => "8",
        _ => "9",
    };
    proof {
        reveal_strlit("0");
        reveal_strlit("1");
        reveal_strlit("2");
        reveal_strlit("3");
        reveal_strlit("4");
        reveal_strlit("5");
        reveal_strlit("6");
        reveal_strlit("7");
        reveal_strlit("8");
        reveal_strlit("9");
        assert(r@ =~= seq![digit_char(d as nat)]);
    }
    r
}

/// Renders `n` as decimal text.
pub fn u64_to_string(n: u64) -> (r: String)
    ensures
        r@ == dec_digits(n as nat),
    decreases n,
{
    if n < 10 {
        digit_str(n).to_owned()
    } else {
        let mut prefix = u64_to_string(n / 10);
        prefix.append(digit_str(n % 10));
        prefix
    }
}

/// Why decimal text was rejected as an unsigned number.
#[derive(Copy, Clone, PartialEq, Eq, Structural, Debug)]
pub enum NumError {
    Empty,
    InvalidDigit,
    Overflow,
}

/// Whether `c` is a decimal digit.
pub open spec fn is_dec_digit(c: char) -> bool {
    48 <= c as u32 && c as u32 <= 57
}

/// The value of one decimal digit character.
pub open spec fn dec_digit_value(c: char) -> int {
    c as u32 - 48
}

/// Whether every character of `s` is a decimal digit.
pub open spec fn all_dec_digits(s: Seq<char>) -> bool {
    forall|i: int| 0 <= i < s.len() ==> is_dec_digit(#[trigger] s[i])
}

/// The number the decimal digit characters of `s` denote, most significant
/// first.
pub open spec fn dec_value(s: Seq<char>) -> int
    decreases s.len(),
{
    if s.len() == 0 {
        0
    } else {
        dec_value(s.drop_last()) * 10 + dec_digit_value(s.last())
    }
}

/// The digits a decimal number text consists of: everything after one
/// optional leading plus sign.
pub open spec fn dec_body(s: Seq<char>) -> Seq<char> {
    if s.len() > 0 && s[0] == '+' {
        s.skip(1)
    } else {
        s
    }
}

/// What parsing `s` as an unsigned 64-bit decimal yields: empty text is
/// `Empty`, a sign without digits or any non-digit is `InvalidDigit`, a
/// value over the 64-bit limit is `Overflow`.
pub open spec fn parse_u64_spec(s: Seq<char>) -> Result<u64, NumError> {
    let body = dec_body(s);
    if s.len() == 0 {
        Err(NumError::Empty)
    } else if body.len() == 0 {
        Err(NumError::InvalidDigit)
    } else if !all_dec_digits(body) {
        Err(NumError::InvalidDigit)
    } else if dec_value(body) > u64::MAX {
        Err(NumError::Overflow)
    } else {
        Ok(dec_value(body) as u64)
    }
}

/// Digit text denotes a nonnegative number.
proof fn lemma_dec_value_nonneg(s: Seq<char>)
    requires
        all_dec_digits(s),
    ensures
        dec_value(s) >= 0,
    decreases s.len(),
{
    if s.len() > 0 {
        assert(all_dec_digits(s.drop_last())) by {
            assert(forall|i: int| 0 <= i < s.len() - 1 ==> s.drop_last()[i] == s[i]);
        }
        lemma_dec_value_nonneg(s.drop_last());
    }
}

/// Extending digit text never shrinks the number it denotes.
proof fn lemma_dec_value_monotone(s: Seq<char>, k: int)
    requires
        all_dec_digits(s),
        0 <= k <= s.len(),
    ensures
        dec_value(s.take(k)) <= dec_value(s),
    decreases s.len() - k,
{
    if k < s.len() {
        assert(s.take(k + 1).drop_last() =~= s.take(k));
        assert(s.take(k + 1).last() == s[k]);
        assert(all_dec_digits(s.take(k))) by {
            assert(forall|i: int| 0 <= i < k ==> s.take(k)[i] == s[i]);
        }
        lemma_dec_value_nonneg(s.take(k));
        lemma_dec_value_monotone(s, k + 1);
    } else {
        assert(s.take(k) =~= s);
    }
}

/// Rendered digits are digits.
proof fn lemma_dec_digits_are_digits(n: nat)
    ensures
        all_dec_digits(dec_digits(n)),
        dec_digits(n).len() > 0,
    decreases n,
{
    if n < 10 {
        assert(is_dec_digit(digit_char(n)));
    } else {
        lemma_dec_digits_are_digits(n / 10);
        let prefix = dec_digits(n / 10);
        let whole = dec_digits(n);
        assert(is_dec_digit(digit_char(n % 10)));
        assert forall|i: int| 0 <= i < whole.len() implies is_dec_digit(#[trigger] whole[i]) by {
            if i < prefix.len() {
                assert(whole[i] == prefix[i]);
            }
        }
    }
}

/// Law (round trip): rendering a number and parsing the text back yields the
/// number again, for every unsigned 64-bit value.
pub proof fn lemma_dec_round_trip(n: u64)
    ensures
        parse_u64_spec(dec_digits(n as nat)) == Ok::<u64, NumError>(n),
{
    lemma_dec_digits_are_digits(n as nat);
    lemma_dec_value_of_digits(n as nat);
    let text = dec_digits(n as nat);
    assert(text[0] != '+') by {
        assert(is_dec_digit(text[0]));
    }
    assert(dec_body(text) == text);
}

/// The digits of `n` denote `n`.
proof fn lemma_dec_value_of_digits(n: nat)
    ensures
        dec_value(dec_digits(n)) == n,
    decreases n,
{
    if n < 10 {
        let t = dec_digits(n);
        assert(t.drop_last() =~= Seq::<char>::empty());
        assert(t.last() == digit_char(n));
        assert(dec_value(t) == dec_value(Seq::<char>::empty()) * 10 + dec_digit_value(
            digit_char(n),
        ));
    } else {
        lemma_dec_value_of_digits(n / 10);
        let prefix = dec_digits(n / 10);
        let whole = dec_digits(n);
        assert(whole.drop_last() =~= prefix);
        assert(whole.last() == digit_char(n % 10));
        assert(dec_digit_value(digit_char(n % 10)) == n % 10);
    }
}

/// Parses decimal text as an unsigned 64-bit number: one optional leading
/// plus sign, then decimal digits, rejecting anything else and any value
/// over the 64-bit limit.
pub fn parse_u64(s: &str) -> (r: Result<u64, NumError>)
    ensures
        r == parse_u64_spec(s@),
{
    let n = s.unicode_len();
    if n == 0 {
        return Err(NumError::Empty);
    }
    let start: usize = if s.get_char(0) == '+' {
        1
    } else {
        0
    };
    let ghost body = dec_body(s@);
    proof {
        assert(body =~= s@.skip(start as int));
    }
    if n == start {
        return Err(NumError::InvalidDigit);
    }
    // First pass: every character after the sign must be a digit.
    let mut i: usize = start;
    while i < n
        invariant
            start <= i <= n,
            n == s@.len(),
            body == dec_body(s@),
            body == s@.skip(start as int),
            forall|j: int| 0 <= j < i - start ==> is_dec_digit(#[trigger] body[j]),
        decreases n - i,
    {
        let c = s.get_char(i);
        let v = c as u32;
        if v < 48 || v > 57 {
            proof {
                assert(body[i - start] == s@[i as int]);
                assert(!is_dec_digit(body[i - start]));
            }
            return Err(NumError::InvalidDigit);
        }
        proof {
            assert(body[i - start] == s@[i as int]);
        }
        i = i + 1;
    }
    proof {
        assert(all_dec_digits(body));
        assert(body.take(0) =~= Seq::<char>::empty());
    }
    // Second pass: accumulate, watching the 64-bit limit.
    let mut acc: u64 = 0;
    let mut k: usize = 0;
    let m = n - start;
    while k < m
        invariant
            0 <= k <= m,
            n == s@.len(),
            start < n,
            m == n - start,
            body == dec_body(s@),
            body == s@.skip(start as int),
            body.len() == m,
            all_dec_digits(body),
            acc as int == dec_value(body.take(k as int)),
        decreases m - k,
    {
        let c = s.get_char(start + k);
        proof {
            assert(body[k as int] == s@[(start + k) as int]);
            assert(is_dec_digit(body[k as int]));
            assert(body.take(k as int + 1).drop_last() =~= body.take(k as int));
            assert(body.take(k as int + 1).last() == body[k as int]);
        }
        let d = (c as u32 - 48) as u64;
        proof {
            assert(dec_value(body.take(k as int + 1)) == acc as int * 10 + d);
        }
        let scaled = match acc.checked_mul(10) {
            Some(t) => t,
            None => {
                proof {
                    lemma_dec_value_monotone(body, k as int + 1);
                    lemma_dec_value_nonneg(body.take(k as int));
                }
                return Err(NumError::Overflow);
            },
        };
        acc = match scaled.checked_add(d) {
            Some(t) => t,
            None => {
                proof {
                    lemma_dec_value_monotone(body, k as int + 1);
                }
                return Err(NumError::Overflow);
            },
        };
        k = k + 1;
    }
    proof {
        assert(body.take(m as int) =~= body);
    }
    Ok(acc)
}

} // verus!
