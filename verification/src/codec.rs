//! Decimal-string printing and parsing of 64-bit integers, and the two
//! external record codecs for exact amounts: the relational-store wire shape
//! (three text fields in an array) and the structured-document shape (the
//! same three fields, carried in a nested object by the adapter). Both are
//! currency-checked at decode time and round-trip amounts exactly.

use vstd::prelude::*;
use vstd::string::*;
use crate::currency::Currency;
use crate::dense::DenseMoney;
use crate::rational::{
    iabs, gcd, constructible, spec_reduce_n, spec_reduce_d, lemma_reduce_of_reduced,
};
use vstd::arithmetic::div_mod::lemma_fundamental_div_mod;

verus! {

/// Everything that can go wrong when decoding an external record or bridging
/// into an external decimal type. A currency mismatch carries the expected
/// and the found symbol, in that order.
#[derive(Debug)]
pub enum MoneyError {
    /// The embedded currency symbol differs from the statically expected one:
    /// `(expected, found)`.
    CurrencyMismatch(String, String),
    /// An external record lacks a required field.
    MissingField,
    /// A numerator or denominator field is not a decimal 64-bit integer.
    MalformedNumber,
    /// An external record carries a zero denominator.
    ZeroDenominator,
    /// The decoded fraction does not fit the 64-bit representation once
    /// reduced to lowest terms.
    Unrepresentable,
    /// A decimal bridge was asked for a currency whose minor-unit scale is
    /// not a power of ten.
    UnsupportedScale,
}

/// `c` is a decimal digit character.
pub open spec fn is_digit(c: char) -> bool {
    48 <= c as u32 <= 57
}

/// The digit character for a value between zero and nine.
pub open spec fn digit_char(v: int) -> char {
    if v == 0 {
        '0'
    } else if v == 1 {
        '1'
    } else if v == 2 {
        '2'
    } else if v == 3 {
        '3'
    } else if v == 4 {
        '4'
    } else if v == 5 {
        '5'
    } else if v == 6 {
        '6'
    } else if v == 7 {
        '7'
    } else if v == 8 {
        '8'
    } else {
        '9'
    }
}

/// The numeric value of a digit character.
pub open spec fn digit_val(c: char) -> int {
    c as u32 - 48
}

/// The decimal digit string of a natural number, most significant first.
pub open spec fn spec_udigits(v: nat) -> Seq<char>
    decreases v,
{
    if v < 10 {
        seq![digit_char(v as int)]
    } else {
        spec_udigits(v / 10) + seq![digit_char((v % 10) as int)]
    }
}

/// The decimal string of an integer: an optional leading minus, then digits.
pub open spec fn spec_int_str(v: int) -> Seq<char> {
    if v < 0 {
        seq!['-'] + spec_udigits((-v) as nat)
    } else {
        spec_udigits(v as nat)
    }
}

/// Every character of `s` is a decimal digit.
pub open spec fn all_digits(s: Seq<char>) -> bool {
    forall|i: int| 0 <= i < s.len() ==> is_digit(#[trigger] s[i])
}

/// The value of a digit string, most significant first; non-digit characters
/// contribute nothing (the parser rejects them separately).
pub open spec fn digits_val(s: Seq<char>) -> nat
    decreases s.len(),
{
    if s.len() == 0 {
        0
    } else {
        digits_val(s.drop_last()) * 10 + (if is_digit(s.last()) {
            digit_val(s.last())
        } else {
            0
        }) as nat
    }
}

/// What a decimal string denotes as an `i64`: `Some` exactly for an optional
/// minus sign followed by one or more digits whose value fits the type.
pub open spec fn spec_parse_i64(s: Seq<char>) -> Option<i64> {
    if s.len() > 0 && s[0] == '-' {
        let t = s.subrange(1, s.len() as int);
        if t.len() == 0 || !all_digits(t) {
            Option::None
        } else if digits_val(t) > 0x8000000000000000 {
            Option::None
        } else {
            Option::Some((-(digits_val(t) as int)) as i64)
        }
    } else {
        if s.len() == 0 || !all_digits(s) {
            Option::None
        } else if digits_val(s) > 0x7fffffffffffffff {
            Option::None
        } else {
            Option::Some(digits_val(s) as i64)
        }
    }
}

/// The digit string of `v` consists of digits, denotes `v`, and never starts
/// with a minus sign.
pub proof fn lemma_udigits_val(v: nat)
    ensures
        all_digits(spec_udigits(v)),
        digits_val(spec_udigits(v)) == v,
        spec_udigits(v).len() >= 1,
        spec_udigits(v)[0] != '-',
    decreases v,
{
    if v < 10 {
        let s = spec_udigits(v);
        assert(s.len() == 1);
        assert(s.drop_last() =~= Seq::<char>::empty());
        reveal_with_fuel(digits_val, 2);
        assert(digits_val(s.drop_last()) == 0);
        assert(is_digit(s[0]));
        assert(digit_val(digit_char(v as int)) == v);
        assert(digits_val(s) == v);
    } else {
        lemma_udigits_val(v / 10);
        let p = spec_udigits(v / 10);
        let s = spec_udigits(v);
        let c = digit_char((v % 10) as int);
        assert(s == p + seq![c]);
        assert(s.drop_last() =~= p);
        assert(s.last() == c);
        assert(is_digit(c));
        assert(digit_val(c) == v % 10);
        lemma_fundamental_div_mod(v as int, 10);
        assert(digits_val(s) == (v / 10) * 10 + v % 10);
        assert(forall|i: int| 0 <= i < s.len() ==> is_digit(#[trigger] s[i])) by {
            assert(forall|i: int| 0 <= i < p.len() ==> s[i] == #[trigger] p[i]);
        }
        assert(s[0] == p[0]);
    }
}

/// Appending characters to a digit string never decreases its value.
pub proof fn lemma_digits_val_extends(s: Seq<char>, k: int)
    requires
        0 <= k <= s.len(),
    ensures
        digits_val(s) >= digits_val(s.take(k)),
    decreases s.len() - k,
{
    if k == s.len() {
        assert(s.take(k) =~= s);
    } else {
        lemma_digits_val_extends(s, k + 1);
        let u = s.take(k + 1);
        assert(u.drop_last() =~= s.take(k));
        assert(digits_val(u) >= digits_val(s.take(k)));
    }
}

/// Printing an integer and parsing the result returns the integer.
pub proof fn lemma_int_str_parse(v: int)
    requires
        i64::MIN <= v <= i64::MAX,
    ensures
        spec_parse_i64(spec_int_str(v)) == Option::Some(v as i64),
{
    if v < 0 {
        let m = (-v) as nat;
        lemma_udigits_val(m);
        let s = spec_int_str(v);
        let t = s.subrange(1, s.len() as int);
        assert(t =~= spec_udigits(m));
        assert(s[0] == '-');
        assert(digits_val(t) == m);
        assert(m <= 0x8000000000000000);
    } else {
        lemma_udigits_val(v as nat);
        let s = spec_int_str(v);
        assert(s == spec_udigits(v as nat));
        assert(s[0] != '-');
        assert(digits_val(s) == v);
    }
}

/// The one-character string for a digit value.
fn digit_str(d: u64) -> (r: &'static str)
    requires
        d < 10,
    ensures
        r@ =~= seq![digit_char(d as int)],
{
    if d == 0 {
        proof {
            reveal_strlit("0");
        }
        "0"
    } else if d == 1 {
        proof {
            reveal_strlit("1");
        }
        "1"
    } else if d == 2 {
        proof {
            reveal_strlit("2");
        }
        "2"
    } else if d == 3 {
        proof {
            reveal_strlit("3");
        }
        "3"
    } else if d == 4 {
        proof {
            reveal_strlit("4");
        }
        "4"
    } else if d == 5 {
        proof {
            reveal_strlit("5");
        }
        "5"
    } else if d == 6 {
        proof {
            reveal_strlit("6");
        }
        "6"
    } else if d == 7 {
        proof {
            reveal_strlit("7");
        }
        "7"
    } else if d == 8 {
        proof {
            reveal_strlit("8");
        }
        "8"
    } else {
        proof {
            reveal_strlit("9");
        }
        "9"
    }
}

/// Appends the decimal digits of `v` to `out`, most significant first.
fn push_digits(out: &mut String, v: u64)
    ensures
        final(out)@ == old(out)@ + spec_udigits(v as nat),
    decreases v,
{
    if v >= 10 {
        push_digits(out, v / 10);
        out.append(digit_str(v % 10));
        proof {
            assert(out@ =~= old(out)@ + spec_udigits(v as nat));
        }
    } else {
        out.append(digit_str(v));
        proof {
            assert(out@ =~= old(out)@ + spec_udigits(v as nat));
        }
    }
}

/// Renders an `i64` as its decimal string.
pub fn i64_to_string(v: i64) -> (r: String)
    ensures
        r@ == spec_int_str(v as int),
{
    let mut out = String::new();
    if v < 0 {
        proof {
            reveal_strlit("-");
        }
        out.append("-");
        let mag: u64 = (-(v as i128)) as u64;
        push_digits(&mut out, mag);
        proof {
            assert(out@ =~= spec_int_str(v as int));
        }
    } else {
        push_digits(&mut out, v as u64);
        proof {
            assert(out@ =~= spec_int_str(v as int));
        }
    }
    out
}


/// A string containing a non-digit past any leading minus sign parses to
/// nothing.
proof fn lemma_parse_rejects_nondigit(s: Seq<char>, i: int)
    requires
        0 <= i < s.len(),
        s.len() > 0 && s[0] == '-' ==> 1 <= i,
        !is_digit(s[i]),
    ensures
        spec_parse_i64(s) is None,
{
    if s.len() > 0 && s[0] == '-' {
        let t = s.subrange(1, s.len() as int);
        assert(t[i - 1] == s[i]);
        assert(!all_digits(t));
    } else {
        assert(!all_digits(s));
    }
}

/// A digit prefix whose value already exceeds the 64-bit range makes the
/// whole string parse to nothing.
proof fn lemma_parse_rejects_large(s: Seq<char>, start: int, k: int)
    requires
        0 < s.len(),
        if s[0] == '-' {
            start == 1
        } else {
            start == 0
        },
        start <= k <= s.len(),
        digits_val(s.subrange(start, k)) > u64::MAX,
    ensures
        spec_parse_i64(s) is None,
{
    if s[0] == '-' {
        let t = s.subrange(1, s.len() as int);
        assert(t.take(k - 1) =~= s.subrange(1, k));
        lemma_digits_val_extends(t, k - 1);
        assert(digits_val(t) >= digits_val(s.subrange(start, k)));
    } else {
        assert(s.take(k) =~= s.subrange(0, k));
        lemma_digits_val_extends(s, k);
        assert(digits_val(s) >= digits_val(s.subrange(start, k)));
    }
}

/// Parses a decimal string as an `i64`: an optional minus sign, then one or
/// more digits; rejects anything else, and values out of range.
pub fn parse_i64(s: &str) -> (r: Option<i64>)
    ensures
        r == spec_parse_i64(s@),
{
    let len = s.unicode_len();
    if len == 0 {
        return None;
    }
    let first = s.get_char(0);
    let neg = first == '-';
    let start: usize = if neg {
        1
    } else {
        0
    };
    let ghost t = if neg {
        s@.subrange(1, s@.len() as int)
    } else {
        s@
    };
    if len == start {
        assert(t.len() == 0);
        return None;
    }
    let mut i: usize = start;
    let mut v: u64 = 0;
    while i < len
        invariant
            start <= i <= len,
            start < len,
            len == s@.len(),
            start == 1 ==> s@[0] == '-',
            start == 0 ==> s@[0] != '-',
            neg == (start == 1),
            neg ==> start == 1,
            !neg ==> start == 0,
            t == (if neg {
                s@.subrange(1, s@.len() as int)
            } else {
                s@
            }),
            v as nat == digits_val(s@.subrange(start as int, i as int)),
            all_digits(s@.subrange(start as int, i as int)),
        decreases len - i,
    {
        let c = s.get_char(i);
        let cu = c as u32;
        if cu < 48 || cu > 57 {
            proof {
                lemma_parse_rejects_nondigit(s@, i as int);
            }
            return None;
        }
        let d = (cu - 48) as u64;
        proof {
            let seg2 = s@.subrange(start as int, i as int + 1);
            assert(seg2.drop_last() =~= s@.subrange(start as int, i as int));
            assert(seg2.last() == s@[i as int]);
            assert(digits_val(seg2) == (v as nat) * 10 + d as nat);
        }
        if v > (u64::MAX - d) / 10 {
            proof {
                lemma_fundamental_div_mod((u64::MAX - d) as int, 10);
                assert((v as nat) * 10 + d as nat > u64::MAX);
                lemma_parse_rejects_large(s@, start as int, i as int + 1);
            }
            return None;
        }
        v = v * 10 + d;
        i += 1;
    }
    proof {
        assert(t =~= s@.subrange(start as int, len as int));
        assert(v as nat == digits_val(t));
        assert(all_digits(t));
        assert(t.len() > 0);
    }
    if neg {
        if v > 0x8000000000000000u64 {
            None
        } else {
            Some((-(v as i128)) as i64)
        }
    } else {
        if v > 0x7fffffffffffffffu64 {
            None
        } else {
            Some(v as i64)
        }
    }
}

/// What decoding the three textual fields of an external record yields;
/// `Value` carries the reduced numerator and denominator.
pub enum DecodeOutcome {
    Value(int, int),
    WrongCurrency,
    BadNumber,
    ZeroDenominator,
    OutOfRange,
}

/// Decoding in the wire order: numbers are parsed first, then the currency
/// symbol is checked, then the denominator is checked against zero.
pub open spec fn spec_decode_wire(
    ns: Seq<char>,
    ds: Seq<char>,
    cs: Seq<char>,
    sym: Seq<char>,
) -> DecodeOutcome {
    match (spec_parse_i64(ns), spec_parse_i64(ds)) {
        (Option::Some(n), Option::Some(d)) => {
            if cs != sym {
                DecodeOutcome::WrongCurrency
            } else if d == 0 {
                DecodeOutcome::ZeroDenominator
            } else if !constructible(n as int, d as int) {
                DecodeOutcome::OutOfRange
            } else {
                DecodeOutcome::Value(
                    spec_reduce_n(n as int, d as int),
                    spec_reduce_d(n as int, d as int),
                )
            }
        },
        _ => DecodeOutcome::BadNumber,
    }
}

/// Decoding in the document order: the currency symbol is checked before the
/// number fields are parsed.
pub open spec fn spec_decode_document(
    ns: Seq<char>,
    ds: Seq<char>,
    cs: Seq<char>,
    sym: Seq<char>,
) -> DecodeOutcome {
    if cs != sym {
        DecodeOutcome::WrongCurrency
    } else {
        match (spec_parse_i64(ns), spec_parse_i64(ds)) {
            (Option::Some(n), Option::Some(d)) => {
                if d == 0 {
                    DecodeOutcome::ZeroDenominator
                } else if !constructible(n as int, d as int) {
                    DecodeOutcome::OutOfRange
                } else {
                    DecodeOutcome::Value(
                        spec_reduce_n(n as int, d as int),
                        spec_reduce_d(n as int, d as int),
                    )
                }
            },
            _ => DecodeOutcome::BadNumber,
        }
    }
}

/// The serialization round-trip law: printing a well-formed amount's
/// numerator, denominator and symbol and decoding the three fields again
/// yields exactly the original amount, under both field orders.
pub proof fn lemma_codec_round_trip(n: int, d: int, sym: Seq<char>)
    requires
        1 <= d <= i64::MAX,
        i64::MIN <= n <= i64::MAX,
        gcd(iabs(n), d as nat) == 1,
    ensures
        spec_decode_wire(spec_int_str(n), spec_int_str(d), sym, sym) == DecodeOutcome::Value(n, d),
        spec_decode_document(spec_int_str(n), spec_int_str(d), sym, sym) == DecodeOutcome::Value(
            n,
            d,
        ),
{
    lemma_int_str_parse(n);
    lemma_int_str_parse(d);
    lemma_reduce_of_reduced(n, d);
}

impl<C: Currency> DenseMoney<C> {
    /// Encodes the amount in the wire shape: a three-element array of text
    /// fields, `[numerator, denominator, currency symbol]`.
    pub fn to_wire(&self) -> (r: Vec<String>)
        ensures
            r@.len() == 3,
            r@[0]@ == spec_int_str(self.numer_int()),
            r@[1]@ == spec_int_str(self.denom_int()),
            r@[2]@ == C::spec_symbol(),
    {
        let mut out: Vec<String> = Vec::new();
        out.push(i64_to_string(self.numer()));
        out.push(i64_to_string(self.denom()));
        out.push(String::from_str(C::symbol()));
        out
    }

    /// Decodes a wire record. Rejects short arrays, unparsable numbers, a
    /// symbol other than this currency's (naming both symbols), a zero
    /// denominator, and fractions that cannot be represented.
    pub fn from_wire(parts: &Vec<String>) -> (r: Result<Self, MoneyError>)
        ensures
            parts@.len() < 3 ==> r == Err::<Self, MoneyError>(MoneyError::MissingField),
            parts@.len() >= 3 ==> match spec_decode_wire(
                parts@[0]@,
                parts@[1]@,
                parts@[2]@,
                C::spec_symbol(),
            ) {
                DecodeOutcome::Value(n2, d2) => r matches Ok(m) && m.wf() && m.numer_int() == n2
                    && m.denom_int() == d2,
                DecodeOutcome::WrongCurrency => r matches Err(e)
                    && e matches MoneyError::CurrencyMismatch(exp, fnd) && exp@
                    == C::spec_symbol() && fnd@ == parts@[2]@,
                DecodeOutcome::BadNumber => r == Err::<Self, MoneyError>(
                    MoneyError::MalformedNumber,
                ),
                DecodeOutcome::ZeroDenominator => r == Err::<Self, MoneyError>(
                    MoneyError::ZeroDenominator,
                ),
                DecodeOutcome::OutOfRange => r == Err::<Self, MoneyError>(
                    MoneyError::Unrepresentable,
                ),
            },
    {
        if parts.len() < 3 {
            return Err(MoneyError::MissingField);
        }
        let n = match parse_i64(parts[0].as_str()) {
            Some(n) => n,
            None => {
                return Err(MoneyError::MalformedNumber);
            },
        };
        let d = match parse_i64(parts[1].as_str()) {
            Some(d) => d,
            None => {
                return Err(MoneyError::MalformedNumber);
            },
        };
        let expected = String::from_str(C::symbol());
        if !(parts[2].eq(&expected)) {
            let found = parts[2].clone();
            return Err(MoneyError::CurrencyMismatch(expected, found));
        }
        if d == 0 {
            return Err(MoneyError::ZeroDenominator);
        }
        match Self::try_new(n, d) {
            Some(m) => Ok(m),
            None => Err(MoneyError::Unrepresentable),
        }
    }

    /// Encodes the amount in the document shape: the numerator and
    /// denominator as decimal strings (so ecosystems with narrow integers
    /// lose no precision), plus the currency symbol.
    pub fn to_document_fields(&self) -> (r: (String, String, String))
        ensures
            r.0@ == spec_int_str(self.numer_int()),
            r.1@ == spec_int_str(self.denom_int()),
            r.2@ == C::spec_symbol(),
    {
        (i64_to_string(self.numer()), i64_to_string(self.denom()), String::from_str(C::symbol()))
    }

    /// Decodes a document record from its three fields. The currency symbol
    /// is checked first; a mismatch names the expected and the found symbol.
    pub fn from_document_fields(numer_field: &str, denom_field: &str, currency_field: &str) -> (r:
        Result<Self, MoneyError>)
        ensures
            match spec_decode_document(
                numer_field@,
                denom_field@,
                currency_field@,
                C::spec_symbol(),
            ) {
                DecodeOutcome::Value(n2, d2) => r matches Ok(m) && m.wf() && m.numer_int() == n2
                    && m.denom_int() == d2,
                DecodeOutcome::WrongCurrency => r matches Err(e)
                    && e matches MoneyError::CurrencyMismatch(exp, fnd) && exp@
                    == C::spec_symbol() && fnd@ == currency_field@,
                DecodeOutcome::BadNumber => r == Err::<Self, MoneyError>(
                    MoneyError::MalformedNumber,
                ),
                DecodeOutcome::ZeroDenominator => r == Err::<Self, MoneyError>(
                    MoneyError::ZeroDenominator,
                ),
                DecodeOutcome::OutOfRange => r == Err::<Self, MoneyError>(
                    MoneyError::Unrepresentable,
                ),
            },
    {
        let expected = String::from_str(C::symbol());
        let found = String::from_str(currency_field);
        if !(found.eq(&expected)) {
            return Err(MoneyError::CurrencyMismatch(expected, found));
        }
        let n = match parse_i64(numer_field) {
            Some(n) => n,
            None => {
                return Err(MoneyError::MalformedNumber);
            },
        };
        let d = match parse_i64(denom_field) {
            Some(d) => d,
            None => {
                return Err(MoneyError::MalformedNumber);
            },
        };
        if d == 0 {
            return Err(MoneyError::ZeroDenominator);
        }
        match Self::try_new(n, d) {
            Some(m) => Ok(m),
            None => Err(MoneyError::Unrepresentable),
        }
    }
}

} // verus!
