//! Account identifiers and account records.
//!
//! An identifier is an opaque 128-bit value with equality only; fresh ones
//! come from a collision-resistant random source, and the canonical
//! hyphenated hexadecimal text form is parsed here with an exact contract.

use vstd::prelude::*;

verus! {

/// A globally unique, opaque 128-bit account identifier.
#[derive(Copy, Clone, PartialEq, Eq, Structural, Hash, Debug)]
pub struct AccountID(pub u128);

/// Relies on `uuid::Uuid::new_v4` (via `as_u128`): a fresh random 128-bit
/// value from a collision-resistant source. Nothing can be promised of a
/// random result.
#[verifier::external_body]
pub(crate) fn fresh_id_bits() -> u128 {
    uuid::Uuid::new_v4().as_u128()
}

/// Why identifier text was rejected.
#[derive(Copy, Clone, PartialEq, Eq, Structural, Debug)]
pub enum IdError {
    Invalid,
}

/// Whether `c` is a hexadecimal digit, either case.
pub open spec fn is_hex_digit(c: char) -> bool {
    (48 <= c as u32 && c as u32 <= 57) || (97 <= c as u32 && c as u32 <= 102) || (65 <= c as u32
        && c as u32 <= 70)
}

/// The value of one hexadecimal digit character.
pub open spec fn hex_digit_value(c: char) -> int {
    if 48 <= c as u32 && c as u32 <= 57 {
        c as u32 - 48
    } else if 97 <= c as u32 && c as u32 <= 102 {
        c as u32 - 87
    } else {
        c as u32 - 55
    }
}

/// The number the hexadecimal digit characters of `s` denote, most
/// significant first.
pub open spec fn hex_value(s: Seq<char>) -> int
    decreases s.len(),
{
    if s.len() == 0 {
        0
    } else {
        hex_value(s.drop_last()) * 16 + hex_digit_value(s.last())
    }
}

/// Sixteen to the `k`.
pub open spec fn pow16(k: nat) -> int
    decreases k,
{
    if k == 0 {
        1
    } else {
        16 * pow16((k - 1) as nat)
    }
}

/// In the canonical 36-character identifier text, the positions holding a
/// hyphen.
pub open spec fn is_dash_position(i: int) -> bool {
    i == 8 || i == 13 || i == 18 || i == 23
}

/// How many hexadecimal digits precede position `i` of the canonical text.
pub open spec fn hex_index_before(i: int) -> int {
    if i <= 8 {
        i
    } else if i <= 13 {
        i - 1
    } else if i <= 18 {
        i - 2
    } else if i <= 23 {
        i - 3
    } else {
        i - 4
    }
}

/// Whether `s` is canonical identifier text: 36 characters, hyphens at the
/// four fixed positions, hexadecimal digits (either case) everywhere else.
pub open spec fn is_canonical_id_text(s: Seq<char>) -> bool {
    &&& s.len() == 36
    &&& forall|i: int|
        0 <= i < 36 ==> (if is_dash_position(i) {
            s[i] == '-'
        } else {
            is_hex_digit(#[trigger] s[i])
        })
}

/// The 32 hexadecimal digit characters of canonical identifier text, in
/// order.
pub open spec fn id_hex_chars(s: Seq<char>) -> Seq<char> {
    Seq::new(
        32,
        |k: int|
            s[if k < 8 {
                k
            } else if k < 12 {
                k + 1
            } else if k < 16 {
                k + 2
            } else if k < 20 {
                k + 3
            } else {
                k + 4
            }],
    )
}

/// The 128-bit value canonical identifier text denotes.
pub open spec fn id_text_value(s: Seq<char>) -> int {
    hex_value(id_hex_chars(s))
}

impl AccountID {
    /// Draws a fresh random identifier.
    pub fn new() -> AccountID {
        AccountID(fresh_id_bits())
    }

    /// Parses canonical identifier text (eight, four, four, four and twelve
    /// hexadecimal digits of either case, hyphen-separated) into the 128-bit
    /// identifier it denotes; anything else is rejected.
    pub fn parse_str(s: &str) -> (r: Result<AccountID, IdError>)
        ensures
            match r {
                Ok(id) => is_canonical_id_text(s@) && id.0 as int == id_text_value(s@),
                Err(e) => e == IdError::Invalid && !is_canonical_id_text(s@),
            },
    {
        let n = s.unicode_len();
        if n != 36 {
            return Err(IdError::Invalid);
        }
        let ghost hex_chars = id_hex_chars(s@);
        proof {
            assert(pow16(32) == 0x100000000000000000000000000000000) by {
                reveal_with_fuel(pow16, 33);
            }
            assert(hex_chars.take(0) =~= Seq::<char>::empty());
        }
        let mut acc: u128 = 0;
        let mut i: usize = 0;
        while i < 36
            invariant
                0 <= i <= 36,
                s@.len() == 36,
                hex_chars == id_hex_chars(s@),
                forall|j: int|
                    0 <= j < i ==> (if is_dash_position(j) {
                        s@[j] == '-'
                    } else {
                        is_hex_digit(#[trigger] s@[j])
                    }),
                forall|j: int| 0 <= j < hex_index_before(i as int) ==> is_hex_digit(
                    #[trigger] hex_chars[j],
                ),
                acc as int == hex_value(hex_chars.take(hex_index_before(i as int))),
                (acc as int) < pow16((hex_index_before(i as int)) as nat),
                pow16(32) == 0x100000000000000000000000000000000,
            decreases 36 - i,
        {
            let c = s.get_char(i);
            if i == 8 || i == 13 || i == 18 || i == 23 {
                if !(c == '-') {
                    return Err(IdError::Invalid);
                }
            } else {
                let v = c as u32;
                let d: u32 = if 48 <= v && v <= 57 {
                    v - 48
                } else if 97 <= v && v <= 102 {
                    v - 87
                } else if 65 <= v && v <= 70 {
                    v - 55
                } else {
                    return Err(IdError::Invalid);
                };
                let ghost k = hex_index_before(i as int);
                proof {
                    assert(hex_chars[k] == s@[i as int]);
                    assert(is_hex_digit(hex_chars[k]));
                    assert(hex_chars.take(k + 1).drop_last() =~= hex_chars.take(k));
                    assert(hex_chars.take(k + 1).last() == hex_chars[k]);
                    assert(hex_index_before(i as int + 1) == k + 1);
                    let p = pow16(k as nat);
                    assert(pow16((k + 1) as nat) == 16 * p);
                    assert(acc as int * 16 <= (p - 1) * 16) by (nonlinear_arith)
                        requires
                            acc as int <= p - 1,
                    ;
                    assert(pow16(32) >= pow16((k + 1) as nat)) by {
                        lemma_pow16_monotone((k + 1) as nat, 32);
                    }
                }
                acc = acc * 16 + d as u128;
            }
            i = i + 1;
        }
        proof {
            assert(is_canonical_id_text(s@));
            assert(hex_chars.take(32) =~= hex_chars);
        }
        Ok(AccountID(acc))
    }

    /// Renders the identifier in its canonical text form.
    pub fn to_text(&self) -> (r: String)
        ensures
            r@ == canonical_id_text(self.0),
            is_canonical_id_text(r@),
            id_text_value(r@) == self.0 as int,
    {
        id_bits_to_text(self.0)
    }
}

/// Renders a 128-bit identifier in its canonical text form: 32 lowercase
/// hexadecimal digits, most significant first, hyphen-separated in groups of
/// eight, four, four, four and twelve.
pub fn id_bits_to_text(v: u128) -> (r: String)
    ensures
        r@ == canonical_id_text(v),
        is_canonical_id_text(r@),
        id_text_value(r@) == v as int,
{
    proof {
        lemma_id_text_round_trip(v);
    }
        let ghost t = canonical_id_text(v);
        let mut out = String::new();
        proof {
            assert(out@ =~= t.take(0));
        }
        let mut i: usize = 0;
        while i < 36
            invariant
                0 <= i <= 36,
                t == canonical_id_text(v),
                out@ == t.take(i as int),
            decreases 36 - i,
        {
            if i == 8 || i == 13 || i == 18 || i == 23 {
                out.append("-");
                proof {
                    reveal_strlit("-");
                    assert(out@ =~= t.take(i as int + 1));
                }
            } else {
                let k: usize = if i <= 8 {
                    i
                } else if i <= 13 {
                    i - 1
                } else if i <= 18 {
                    i - 2
                } else if i <= 23 {
                    i - 3
                } else {
                    i - 4
                };
                proof {
                    assert(k as int == hex_index_before(i as int));
                }
                let p = pow16_u128(31 - k);
                proof {
                    lemma_pow16_positive((31 - k) as nat);
                }
                let d = ((v / p) % 16) as u32;
                proof {
                    assert(d as int == nibble_of(v, k as int));
                    assert(t[i as int] == hex_digit_char(d as int));
                }
                out.append(hex_digit_str(d));
                proof {
                    assert(out@ =~= t.take(i as int + 1));
                }
            }
            i = i + 1;
        }
        proof {
            assert(t.take(36) =~= t);
        }
        out
}

/// The lowercase character for one hexadecimal digit.
pub open spec fn hex_digit_char(d: int) -> char {
    if d == 0 {
        '0'
    } else if d == 1 {
        '1'
    } else if d == 2 {
        '2'
    } else if d == 3 {
        '3'
    } else if d == 4 {
        '4'
    } else if d == 5 {
        '5'
    } else if d == 6 {
        '6'
    } else if d == 7 {
        '7'
    } else if d == 8 {
        '8'
    } else if d == 9 {
        '9'
    } else if d == 10 {
        'a'
    } else if d == 11 {
        'b'
    } else if d == 12 {
        'c'
    } else if d == 13 {
        'd'
    } else if d == 14 {
        'e'
    } else {
        'f'
    }
}

/// The `k`-th hexadecimal digit of a 128-bit value, most significant first.
pub open spec fn nibble_of(v: u128, k: int) -> int {
    (v as int / pow16((31 - k) as nat)) % 16
}

/// The canonical text of a 128-bit identifier: its 32 lowercase hexadecimal
/// digits, most significant first, with hyphens at the four fixed positions.
pub open spec fn canonical_id_text(v: u128) -> Seq<char> {
    Seq::new(
        36,
        |i: int|
            if is_dash_position(i) {
                '-'
            } else {
                hex_digit_char(nibble_of(v, hex_index_before(i)))
            },
    )
}

/// One lowercase hexadecimal digit as text.
fn hex_digit_str(d: u32) -> (r: &'static str)
    requires
        d < 16,
    ensures
        r@ == seq![hex_digit_char(d as int)],
{
    let r: &'static str = match d {
        0 => "0",
        1 => "1",
        2 => "2",
        3 => "3",
        4 => "4",
        5 => "5",
        6 => "6",
        7 => "7",
        8 => "8",
        9 => "9",
        10 => "a",
        11 => "b",
        12 => "c",
        13 => "d",
        14 => "e",
        _ => "f",
    };
    proof {
        reveal_strlit("0");
        reveal_strlit("1");
        reveal_strlit("2");
        reveal_strlit("3");
        reveal_strlit("4");
        reveal_strlit("5");
        reveal_strlit("6");
        reveal_strlit("7");
        reveal_strlit("8");
        reveal_strlit("9");
        reveal_strlit("a");
        reveal_strlit("b");
        reveal_strlit("c");
        reveal_strlit("d");
        reveal_strlit("e");
        reveal_strlit("f");
        assert(r@ =~= seq![hex_digit_char(d as int)]);
    }
    r
}

/// Sixteen to the `k`, executably, up to the width of an identifier.
fn pow16_u128(k: usize) -> (r: u128)
    requires
        k <= 31,
    ensures
        r as int == pow16(k as nat),
    decreases k,
{
    proof {
        assert(pow16(32) == 0x100000000000000000000000000000000) by {
            reveal_with_fuel(pow16, 33);
        }
        lemma_pow16_monotone(k as nat, 31);
        lemma_pow16_positive(k as nat);
        assert(16 * pow16(31) == pow16(32));
    }
    if k == 0 {
        1
    } else {
        let prev = pow16_u128(k - 1);
        proof {
            lemma_pow16_positive((k - 1) as nat);
            lemma_pow16_monotone(k as nat, 31);
        }
        16 * prev
    }
}

/// The digits read so far denote the value's leading part: reading one more
/// digit folds one more division step in.
proof fn lemma_nibble_fold(v: u128, k: int)
    requires
        0 <= k < 32,
    ensures
        (v as int / pow16((32 - k) as nat)) * 16 + nibble_of(v, k) == v as int / pow16(
            (31 - k) as nat,
        ),
{
    let p = pow16((31 - k) as nat);
    let q = v as int / p;
    lemma_pow16_positive((31 - k) as nat);
    assert(pow16((32 - k) as nat) == 16 * p);
    assert(v as int / (16 * p) == q / 16) by {
        vstd::arithmetic::div_mod::lemma_div_denominator(v as int, p, 16);
    }
    assert((q / 16) * 16 + q % 16 == q) by {
        vstd::arithmetic::div_mod::lemma_fundamental_div_mod(q, 16);
    }
}

/// Sixteen-powers grow with the exponent.
proof fn lemma_pow16_monotone(a: nat, b: nat)
    requires
        a <= b,
    ensures
        pow16(a) <= pow16(b),
    decreases b,
{
    if a < b {
        lemma_pow16_monotone(a, (b - 1) as nat);
        let p = pow16((b - 1) as nat);
        assert(p >= 1) by {
            lemma_pow16_positive((b - 1) as nat);
        }
    }
}

/// Sixteen-powers are positive.
proof fn lemma_pow16_positive(k: nat)
    ensures
        pow16(k) >= 1,
    decreases k,
{
    if k > 0 {
        lemma_pow16_positive((k - 1) as nat);
    }
}

/// The 32 hexadecimal digit characters of a value's canonical text.
spec fn nibble_chars(v: u128) -> Seq<char> {
    Seq::new(32, |k: int| hex_digit_char(nibble_of(v, k)))
}

/// A rendered hexadecimal digit reads back as its value.
proof fn lemma_hex_digit_char_value(d: int)
    requires
        0 <= d < 16,
    ensures
        is_hex_digit(hex_digit_char(d)),
        hex_digit_value(hex_digit_char(d)) == d,
{
}

/// The first `j` digit characters of a value's canonical text denote the
/// value's leading `j` hexadecimal digits.
proof fn lemma_hex_value_of_nibbles(v: u128, j: int)
    requires
        0 <= j <= 32,
    ensures
        hex_value(nibble_chars(v).take(j)) == v as int / pow16((32 - j) as nat),
    decreases j,
{
    if j == 0 {
        assert(nibble_chars(v).take(0) =~= Seq::<char>::empty());
        assert(pow16(32) == 0x100000000000000000000000000000000) by {
            reveal_with_fuel(pow16, 33);
        }
        vstd::arithmetic::div_mod::lemma_basic_div(v as int, pow16(32));
    } else {
        lemma_hex_value_of_nibbles(v, j - 1);
        let chars = nibble_chars(v);
        assert(chars.take(j).drop_last() =~= chars.take(j - 1));
        assert(chars.take(j).last() == chars[j - 1]);
        let d = nibble_of(v, j - 1);
        lemma_pow16_positive((31 - (j - 1)) as nat);
        assert(0 <= d < 16);
        lemma_hex_digit_char_value(d);
        lemma_nibble_fold(v, j - 1);
    }
}

/// Law (round trip): the canonical text of an identifier is canonical and
/// denotes the identifier again, so parsing undoes rendering for every
/// 128-bit value.
pub proof fn lemma_id_text_round_trip(v: u128)
    ensures
        is_canonical_id_text(canonical_id_text(v)),
        id_text_value(canonical_id_text(v)) == v as int,
{
    let t = canonical_id_text(v);
    assert forall|i: int| 0 <= i < 36 implies (if is_dash_position(i) {
        t[i] == '-'
    } else {
        is_hex_digit(#[trigger] t[i])
    }) by {
        if !is_dash_position(i) {
            let k = hex_index_before(i);
            lemma_pow16_positive((31 - k) as nat);
            lemma_hex_digit_char_value(nibble_of(v, k));
        }
    }
    assert(id_hex_chars(t) =~= nibble_chars(v));
    lemma_hex_value_of_nibbles(v, 32);
    assert(nibble_chars(v).take(32) =~= nibble_chars(v));
    assert(pow16(0) == 1);
    assert(v as int / 1 == v as int);
}

/// One account record: its identifier and its current balance.
#[derive(Copy, Clone, PartialEq, Eq, Structural, Debug)]
pub struct Account {
    pub id: AccountID,
    pub balance: u64,
}

impl Account {
    /// A new account with a fresh random identifier and the given balance.
    pub fn new(balance: u64) -> (r: Account)
        ensures
            r.balance == balance,
    {
        Account { id: AccountID::new(), balance }
    }
}

} // verus!
