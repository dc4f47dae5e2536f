//! Token identifiers.
//!
//! A token is named by the decimal numeral of the counter value it was issued
//! under: `"0"`, `"1"`, `"2"`, and so on. A numeral has no sign and no leading
//! zero, so every number has exactly one name and every name at most one
//! number.

use vstd::prelude::*;
use vstd::string::*;
use vstd::utf8::is_ascii_chars;

verus! {

/// The text that names a token.
pub type TokenId = String;

/// Whether `c` is one of the ten decimal digits.
pub open spec fn is_digit(c: char) -> bool {
    '0' <= c && c <= '9'
}

/// The digit character that stands for `d`, for `d` below ten.
pub open spec fn digit_char(d: nat) -> char
    recommends
        d < 10,
{
    if d == 0 {
        '0'
    } else if d == 1 {
        '1'
    } else if d == 2 {
        '2'
    } else if d == 3 {
        '3'
    } else if d == 4 {
        '4'
    } else if d == 5 {
        '5'
    } else if d == 6 {
        '6'
    } else if d == 7 {
        '7'
    } else if d == 8 {
        '8'
    } else {
        '9'
    }
}

/// The number that the digit character `c` stands for.
pub open spec fn digit_value(c: char) -> nat {
    if is_digit(c) {
        (c as u32 - '0' as u32) as nat
    } else {
        0
    }
}

/// The decimal numeral of `n`: its digits, most significant first.
pub open spec fn decimal(n: nat) -> Seq<char>
    decreases n,
{
    if n < 10 {
        seq![digit_char(n)]
    } else {
        decimal(n / 10).push(digit_char(n % 10))
    }
}

/// Whether `s` is a decimal numeral: at least one character, digits only, and
/// no leading zero unless the numeral is `"0"` itself.
pub open spec fn is_decimal(s: Seq<char>) -> bool {
    &&& s.len() >= 1
    &&& forall|i: int| 0 <= i < s.len() ==> is_digit(#[trigger] s[i])
    &&& (s.len() > 1 ==> s[0] != '0')
}

/// The number that a run of digits denotes, read most significant first.
pub open spec fn digits_value(s: Seq<char>) -> nat
    decreases s.len(),
{
    if s.len() == 0 {
        0
    } else {
        digits_value(s.drop_last()) * 10 + digit_value(s.last())
    }
}

/// The counter value that `s` names, if `s` is a decimal numeral.
pub open spec fn token_number(s: Seq<char>) -> Option<nat> {
    if is_decimal(s) {
        Some(digits_value(s))
    } else {
        None
    }
}

/// A digit character and its value determine each other.
pub proof fn lemma_digit_round_trip(d: nat)
    requires
        d < 10,
    ensures
        is_digit(digit_char(d)),
        digit_value(digit_char(d)) == d,
{
}

/// A digit character is the one that stands for its value.
pub proof fn lemma_digit_char_of_value(c: char)
    requires
        is_digit(c),
    ensures
        digit_value(c) < 10,
        digit_char(digit_value(c)) == c,
{
}

/// The numeral of `n` is a decimal numeral and denotes `n`.
pub proof fn lemma_decimal_denotes(n: nat)
    ensures
        is_decimal(decimal(n)),
        digits_value(decimal(n)) == n,
        token_number(decimal(n)) == Some(n),
        n >= 10 ==> decimal(n).len() > 1,
        n > 0 ==> decimal(n)[0] != '0',
    decreases n,
{
    if n < 10 {
        lemma_digit_round_trip(n);
        let s = decimal(n);
        assert(s.drop_last() =~= Seq::<char>::empty());
        assert(digits_value(s.drop_last()) == 0);
    } else {
        lemma_decimal_denotes(n / 10);
        lemma_digit_round_trip(n % 10);
        let p = decimal(n / 10);
        let s = decimal(n);
        assert(s.drop_last() =~= p);
        assert(s.last() == digit_char(n % 10));
        assert(s[0] == p[0]);
    }
}

/// A numeral that does not start with zero denotes a positive number.
proof fn lemma_leading_digit_positive(s: Seq<char>)
    requires
        is_decimal(s),
        s[0] != '0',
    ensures
        digits_value(s) >= 1,
    decreases s.len(),
{
    if s.len() == 1 {
        assert(s.drop_last() =~= Seq::<char>::empty());
        assert(digits_value(s.drop_last()) == 0);
    } else {
        let p = s.drop_last();
        assert(p[0] == s[0]);
        assert forall|i: int| 0 <= i < p.len() implies is_digit(#[trigger] p[i]) by {
            assert(p[i] == s[i]);
        }
        lemma_leading_digit_positive(p);
    }
}

/// A decimal numeral is the numeral of the number it denotes.
pub proof fn lemma_numeral_of_value(s: Seq<char>)
    requires
        is_decimal(s),
    ensures
        decimal(digits_value(s)) == s,
    decreases s.len(),
{
    let c = s.last();
    assert(is_digit(s[s.len() - 1]));
    lemma_digit_char_of_value(c);
    if s.len() == 1 {
        assert(s.drop_last() =~= Seq::<char>::empty());
        assert(digits_value(s.drop_last()) == 0);
        assert(decimal(digits_value(s)) =~= s);
    } else {
        let p = s.drop_last();
        assert(p[0] == s[0]);
        assert forall|i: int| 0 <= i < p.len() implies is_digit(#[trigger] p[i]) by {
            assert(p[i] == s[i]);
        }
        lemma_leading_digit_positive(p);
        lemma_numeral_of_value(p);
        let v = digits_value(p);
        let d = digit_value(c);
        assert(digits_value(s) == v * 10 + d);
        assert((v * 10 + d) / 10 == v && (v * 10 + d) % 10 == d) by (nonlinear_arith)
            requires
                d < 10,
        ;
        assert(decimal(digits_value(s)) =~= s);
    }
}

/// Two numbers with the same numeral are the same number.
pub proof fn lemma_decimal_injective(a: nat, b: nat)
    requires
        decimal(a) == decimal(b),
    ensures
        a == b,
{
    lemma_decimal_denotes(a);
    lemma_decimal_denotes(b);
}

/// A text names the number `n` exactly when it is the numeral of `n`.
pub proof fn lemma_token_number_iff_decimal(s: Seq<char>, n: nat)
    ensures
        token_number(s) == Some(n) <==> s == decimal(n),
{
    if token_number(s) == Some(n) {
        lemma_numeral_of_value(s);
    }
    if s == decimal(n) {
        lemma_decimal_denotes(n);
    }
}

/// Reading more digits never makes the number smaller.
proof fn lemma_prefix_value_le(s: Seq<char>, k: int)
    requires
        0 <= k <= s.len(),
    ensures
        digits_value(s.take(k)) <= digits_value(s),
    decreases s.len() - k,
{
    if k == s.len() {
        assert(s.take(k) =~= s);
    } else {
        lemma_prefix_value_le(s, k + 1);
        let t = s.take(k + 1);
        assert(t.drop_last() =~= s.take(k));
        assert(digits_value(t) == digits_value(s.take(k)) * 10 + digit_value(t.last()));
    }
}

/// The one-character text for a digit.
fn digit_text(d: u32) -> (r: &'static str)
    requires
        d < 10,
    ensures
        r@ == seq![digit_char(d as nat)],
{
    proof {
        reveal_strlit("0");
        reveal_strlit("1");
        reveal_strlit("2");
        reveal_strlit("3");
        reveal_strlit("4");
        reveal_strlit("5");
        reveal_strlit("6");
        reveal_strlit("7");
        reveal_strlit("8");
        reveal_strlit("9");
    }
    let r = if d == 0 {
        "0"
    } else if d == 1 {
        "1"
    } else if d == 2 {
        "2"
    } else if d == 3 {
        "3"
    } else if d == 4 {
        "4"
    } else if d == 5 {
        "5"
    } else if d == 6 {
        "6"
    } else if d == 7 {
        "7"
    } else if d == 8 {
        "8"
    } else {
        "9"
    };
    assert(r@ =~= seq![digit_char(d as nat)]);
    r
}

/// The identifier of the token issued under counter value `n`.
pub fn token_id_of(n: u32) -> (r: TokenId)
    ensures
        r@ == decimal(n as nat),
    decreases n,
{
    if n < 10 {
        String::from_str(digit_text(n))
    } else {
        let mut s = token_id_of(n / 10);
        s.append(digit_text(n % 10));
        assert(s@ =~= decimal(n as nat));
        s
    }
}

/// What [`parse_token_id`] returns on the text `s`: the counter value that
/// `s` names, if it names one that fits in thirty-two bits.
pub open spec fn parsed_token_id(s: Seq<char>) -> Option<u32> {
    match token_number(s) {
        Some(n) => if n <= u32::MAX {
            Some(n as u32)
        } else {
            None
        },
        None => None,
    }
}

/// Reads a token identifier back into the counter value it was issued under.
/// Text that is not a decimal numeral, or that denotes a number too large for
/// the counter, names no token.
pub fn parse_token_id(text: &str) -> (r: Option<u32>)
    ensures
        r == parsed_token_id(text@),
{
    if !text.is_ascii() {
        return None;
    }
    broadcast use is_ascii_spec_bytes;

    let bytes = text.as_bytes();
    let n = bytes.len();
    assert(n == text@.len());
    assert(forall|i: int| 0 <= i < n ==> bytes@[i] == #[trigger] text@[i] as u8);
    if n == 0 {
        return None;
    }
    if n > 1 && bytes[0] == 48u8 {
        return None;
    }
    let mut acc: u64 = 0;
    let mut i: usize = 0;
    while i < n
        invariant
            i <= n,
            n == text@.len(),
            n == bytes@.len(),
            is_ascii_chars(text@),
            forall|j: int| 0 <= j < n ==> bytes@[j] == #[trigger] text@[j] as u8,
            forall|j: int| 0 <= j < i ==> is_digit(#[trigger] text@[j]),
            acc == digits_value(text@.take(i as int)),
            acc <= u32::MAX,
        decreases n - i,
    {
        let b = bytes[i];
        let ghost c = text@[i as int];
        assert(b == c as u8);
        assert('\0' <= c && c <= '\u{7f}');
        if b < 48u8 || b > 57u8 {
            assert(!is_digit(c));
            return None;
        }
        assert(is_digit(c));
        let next: u64 = acc * 10 + (b - 48u8) as u64;
        proof {
            let t = text@.take(i + 1);
            assert(t.drop_last() =~= text@.take(i as int));
            assert(t.last() == c);
            assert(digits_value(t) == next);
        }
        if next > u32::MAX as u64 {
            proof {
                lemma_prefix_value_le(text@, i + 1);
            }
            return None;
        }
        acc = next;
        i = i + 1;
    }
    proof {
        assert(text@.take(n as int) =~= text@);
        assert(n > 1 ==> text@[0] != '0');
        assert(is_decimal(text@));
    }
    Some(acc as u32)
}

} // verus!
