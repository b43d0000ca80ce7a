//! Decimal text: the numerals that a gas quantity is written and read as.

use crate::error::GasError;
use crate::gas::Gas;
use vstd::prelude::*;
use vstd::std_specs::iter::IteratorSpec;

verus! {

/// Most decimal digits that a 64-bit quantity can have.
pub const MAX_DIGITS: usize = 20;

/// Whether `c` is one of the ten decimal digits.
pub open spec fn is_digit(c: char) -> bool {
    '0' <= c <= '9'
}

/// The value of the decimal digit `c`.
pub open spec fn digit_value(c: char) -> nat
    recommends
        is_digit(c),
{
    (c as int - '0' as int) as nat
}

/// The decimal digit whose value is `d`.
pub open spec fn digit_char(d: nat) -> char
    recommends
        d < 10,
{
    (d + '0' as nat) as char
}

/// Whether `s` holds decimal digits and nothing else.
pub open spec fn all_digits(s: Seq<char>) -> bool {
    forall|i: int| 0 <= i < s.len() ==> is_digit(#[trigger] s[i])
}

/// The number that the digits `s` write, most significant digit first.
pub open spec fn decimal_value(s: Seq<char>) -> nat
    decreases s.len(),
{
    if s.len() == 0 {
        0
    } else {
        10 * decimal_value(s.drop_last()) + digit_value(s.last())
    }
}

/// The canonical numeral of `n`: its decimal digits, most significant first,
/// with no leading zero but for zero itself.
pub open spec fn decimal_text(n: nat) -> Seq<char>
    decreases n,
{
    if n < 10 {
        seq![digit_char(n)]
    } else {
        decimal_text(n / 10).push(digit_char(n % 10))
    }
}

/// Ten to the power `k`.
pub open spec fn pow10(k: nat) -> nat
    decreases k,
{
    if k == 0 {
        1
    } else {
        10 * pow10((k - 1) as nat)
    }
}

/// A number below ten to the `k` has at most `k` digits.
pub proof fn lemma_decimal_text_len(n: nat, k: nat)
    requires
        k >= 1,
        n < pow10(k),
    ensures
        1 <= decimal_text(n).len() <= k,
    decreases n,
{
    if n >= 10 {
        assert(pow10(1) == 10) by {
            reveal_with_fuel(pow10, 2);
        }
        assert(k >= 2);
        lemma_decimal_text_len(n / 10, (k - 1) as nat);
    }
}

/// The numeral of a 64-bit quantity has between one and twenty digits.
pub proof fn lemma_decimal_text_fits(n: u64)
    ensures
        1 <= decimal_text(n as nat).len() <= MAX_DIGITS,
{
    assert(pow10(20) == 100_000_000_000_000_000_000) by {
        reveal_with_fuel(pow10, 21);
    }
    lemma_decimal_text_len(n as nat, 20);
}

/// The one-character text of the digit `d`.
fn digit_str(d: u8) -> (s: &'static str)
    requires
        d < 10,
    ensures
        s@ == seq![digit_char(d as nat)],
{
    proof {
        reveal_strlit("0");
        reveal_strlit("1");
        reveal_strlit("2");
        reveal_strlit("3");
        reveal_strlit("4");
        reveal_strlit("5");
        reveal_strlit("6");
        reveal_strlit("7");
        reveal_strlit("8");
        reveal_strlit("9");
    }
    let s = match d {
        0 => "0",
        1 => "1",
        2 => "2",
        3 => "3",
        4 => "4",
        5 => "5",
        6 => "6",
        7 => "7",
        8 => "8",
        _ => "9",
    };
    assert(s@ =~= seq![digit_char(d as nat)]);
    s
}

/// The character that groups digits in a numeral written for people.
pub const SEPARATOR: char = '_';

/// The test that every character but the separator passes.
pub open spec fn not_separator() -> spec_fn(char) -> bool {
    |c: char| c != SEPARATOR
}

/// `s` without its separators.
pub open spec fn strip_separators(s: Seq<char>) -> Seq<char> {
    s.filter(not_separator())
}

/// What reading `s` as a numeral gives: the number it writes where `s` is
/// one or more decimal digits and the number fits in 64 bits.
pub open spec fn parse_decimal(s: Seq<char>) -> Result<Gas, GasError> {
    if s.len() == 0 || !all_digits(s) {
        Err(GasError::InvalidDigit)
    } else if decimal_value(s) > u64::MAX {
        Err(GasError::Overflow)
    } else {
        Ok(Gas(decimal_value(s) as u64))
    }
}

/// What reading free-form input gives: `s` must begin with a digit, and is
/// then read as a numeral with its separators taken out.
pub open spec fn parse_freeform(s: Seq<char>) -> Result<Gas, GasError> {
    if s.len() == 0 || !is_digit(s[0]) {
        Err(GasError::InvalidDigit)
    } else {
        parse_decimal(strip_separators(s))
    }
}

/// The character that opens and closes a quantity's text in interchange
/// formats that write it as a string.
pub const QUOTE: char = '"';

/// The interchange form of `n`: its numeral between two quotes.
pub open spec fn quoted_text(n: nat) -> Seq<char> {
    seq![QUOTE] + decimal_text(n) + seq![QUOTE]
}

/// What reading the interchange form gives: `s` must open and close with a
/// quote, and what stands between the two is read as a numeral.
pub open spec fn parse_quoted(s: Seq<char>) -> Result<Gas, GasError> {
    if s.len() >= 2 && s[0] == QUOTE && s[s.len() - 1] == QUOTE {
        parse_decimal(s.subrange(1, s.len() - 1))
    } else {
        Err(GasError::InvalidDigit)
    }
}

/// A character that is neither a digit nor, in grouped input, a separator
/// leaves no numeral.
proof fn lemma_stray_character(s: Seq<char>, i: int, grouped: bool)
    requires
        0 <= i < s.len(),
        !is_digit(s[i]),
        grouped ==> s[i] != SEPARATOR,
    ensures
        !all_digits(
            if grouped {
                strip_separators(s)
            } else {
                s
            },
        ),
{
    if grouped {
        s.lemma_filter_contains(not_separator(), i);
        let kept = strip_separators(s);
        let j = choose|j: int| 0 <= j < kept.len() && kept[j] == s[i];
        assert(!is_digit(kept[j]));
    }
}

/// Whether `c` is a decimal digit.
#[allow(non_snake_case)]
pub fn isNum(c: char) -> (b: bool)
    ensures
        b == is_digit(c),
{
    '0' <= c && c <= '9'
}

/// The value of the digit `c`.
fn digit_of(c: char) -> (d: u64)
    requires
        is_digit(c),
    ensures
        d == digit_value(c),
{
    (c as u64) - ('0' as u64)
}

/// Reads `text` as a numeral, first taking out the separators if
/// `grouped` is set.
fn read_numeral(text: &str, grouped: bool) -> (r: Result<Gas, GasError>)
    ensures
        r == parse_decimal(
            if grouped {
                strip_separators(text@)
            } else {
                text@
            },
        ),
{
    let mut chars = text.chars();
    let ghost mut seen: Seq<char> = Seq::empty();
    let ghost mut kept: Seq<char> = Seq::empty();
    let mut value: u64 = 0;
    let mut any = false;
    let mut overflow = false;
    proof {
        broadcast use vstd::string::group_string_axioms;

        assert(seen + chars.remaining() =~= text@);
        reveal(Seq::filter);
    }
    loop
        invariant_except_break
            chars.obeys_prophetic_iter_laws(),
            chars.decrease() is Some,
            seen + chars.remaining() == text@,
            kept == (if grouped {
                strip_separators(seen)
            } else {
                seen
            }),
            all_digits(kept),
            any == (kept.len() > 0),
            !overflow ==> value == decimal_value(kept),
            overflow ==> decimal_value(kept) > u64::MAX,
        ensures
            kept == (if grouped {
                strip_separators(text@)
            } else {
                text@
            }),
            all_digits(kept),
            any == (kept.len() > 0),
            !overflow ==> value == decimal_value(kept),
            overflow ==> decimal_value(kept) > u64::MAX,
        decreases chars.decrease()->0,
    {
        let next = chars.next();
        proof {
            broadcast use vstd::string::group_string_axioms;

        }
        match next {
            None => {
                assert(seen =~= text@);
                break ;
            },
            Some(c) => {
                proof {
                    assert(seen.push(c) + chars.remaining() =~= text@);
                    seen.lemma_filter_push(c, not_separator());
                    seen = seen.push(c);
                }
                if grouped && c == SEPARATOR {
                    continue ;
                }
                if !isNum(c) {
                    proof {
                        lemma_stray_character(text@, seen.len() - 1, grouped);
                    }
                    return Err(GasError::InvalidDigit);
                }
                proof {
                    assert(kept.push(c).drop_last() =~= kept);
                    kept = kept.push(c);
                }
                any = true;
                if !overflow {
                    let digit = digit_of(c);
                    match value.checked_mul(10) {
                        None => {
                            overflow = true;
                        },
                        Some(shifted) => match shifted.checked_add(digit) {
                            None => {
                                overflow = true;
                            },
                            Some(sum) => {
                                value = sum;
                            },
                        },
                    }
                }
            },
        }
    }
    if !any {
        Err(GasError::InvalidDigit)
    } else if overflow {
        Err(GasError::Overflow)
    } else {
        Ok(Gas(value))
    }
}

impl Gas {
    /// The quantity as its canonical decimal numeral.
    pub fn to_text(&self) -> (text: String)
        ensures
            text@ == decimal_text(self.0 as nat),
            1 <= text@.len() <= MAX_DIGITS,
    {
        let ghost whole = decimal_text(self.0 as nat);
        let mut digits: [u8; 20] = [0u8; 20];
        let mut start: usize = MAX_DIGITS;
        let mut rest: u64 = self.0;
        proof {
            lemma_decimal_text_fits(self.0);
        }
        loop
            invariant_except_break
                start <= MAX_DIGITS,
                whole.len() <= MAX_DIGITS,
                forall|i: int| start <= i < MAX_DIGITS ==> digits[i] < 10,
                whole =~= decimal_text(rest as nat) + Seq::new(
                    (MAX_DIGITS - start) as nat,
                    |i: int| digit_char(digits[start + i] as nat),
                ),
            ensures
                start < MAX_DIGITS,
                forall|i: int| start <= i < MAX_DIGITS ==> digits[i] < 10,
                whole =~= Seq::new(
                    (MAX_DIGITS - start) as nat,
                    |i: int| digit_char(digits[start + i] as nat),
                ),
            decreases rest,
        {
            let ghost before = digits;
            let ghost tail = Seq::new(
                (MAX_DIGITS - start) as nat,
                |i: int| digit_char(before[start + i] as nat),
            );
            assert(decimal_text(rest as nat).len() >= 1) by {
                lemma_decimal_text_fits(rest);
            }
            assert(start >= 1);
            start = start - 1;
            let d: u8 = (rest % 10) as u8;
            digits[start] = d;
            let ghost grown = Seq::new(
                (MAX_DIGITS - start) as nat,
                |i: int| digit_char(digits[start + i] as nat),
            );
            assert(grown =~= seq![digit_char(d as nat)] + tail);
            if rest < 10 {
                break ;
            }
            rest = rest / 10;
        }
        let mut text = String::new();
        let ghost first = start;
        while start < MAX_DIGITS
            invariant
                first <= start <= MAX_DIGITS,
                forall|i: int| first <= i < MAX_DIGITS ==> digits[i] < 10,
                text@ =~= Seq::new(
                    (start - first) as nat,
                    |i: int| digit_char(digits[first + i] as nat),
                ),
            decreases MAX_DIGITS - start,
        {
            text.append(digit_str(digits[start]));
            start = start + 1;
        }
        text
    }

    /// Reads a quantity from its decimal numeral. The text must be decimal
    /// digits and nothing else: no sign, no separator, no space.
    pub fn parse_text(text: &str) -> (r: Result<Gas, GasError>)
        ensures
            r == parse_decimal(text@),
    {
        read_numeral(text, false)
    }

    /// The quantity in its interchange form: the decimal numeral between
    /// two quotes.
    pub fn to_wire_text(&self) -> (text: String)
        ensures
            text@ == quoted_text(self.0 as nat),
    {
        proof {
            reveal_strlit("\"");
        }
        let mut text = String::new();
        text.append("\"");
        text.append(self.to_text().as_str());
        text.append("\"");
        text
    }

    /// Reads a quantity from its interchange form: a decimal numeral
    /// between two quotes, with nothing before, between or after.
    pub fn parse_wire_text(text: &str) -> (r: Result<Gas, GasError>)
        ensures
            r == parse_quoted(text@),
    {
        let len = text.unicode_len();
        if len < 2 || text.get_char(0) != QUOTE || text.get_char(len - 1) != QUOTE {
            Err(GasError::InvalidDigit)
        } else {
            read_numeral(text.substring_char(1, len - 1), false)
        }
    }
}

impl core::str::FromStr for Gas {
    type Err = GasError;

    /// Reads a quantity from free-form input, which may group its digits
    /// with separators, after a first character that must be a digit.
    fn from_str(value: &str) -> (r: Result<Gas, GasError>)
        ensures
            r == parse_freeform(value@),
    {
        let mut chars = value.chars();
        let first = chars.next();
        proof {
            broadcast use vstd::string::group_string_axioms;

        }
        match first {
            None => Err(GasError::InvalidDigit),
            Some(c) => {
                if isNum(c) {
                    read_numeral(value, true)
                } else {
                    Err(GasError::InvalidDigit)
                }
            },
        }
    }
}

/// The numeral of `n` is canonical: one or more digits and nothing else,
/// with no leading zero unless `n` is zero, and it writes `n`.
pub proof fn lemma_decimal_text_canonical(n: nat)
    ensures
        decimal_text(n).len() >= 1,
        all_digits(decimal_text(n)),
        decimal_text(n)[0] == '0' <==> n == 0,
        n == 0 ==> decimal_text(n) == seq!['0'],
        decimal_value(decimal_text(n)) == n,
    decreases n,
{
    let text = decimal_text(n);
    if n < 10 {
        assert(text.drop_last() =~= Seq::<char>::empty());
        assert(decimal_value(text.drop_last()) == 0);
        assert(text =~= seq![digit_char(n)]);
    } else {
        lemma_decimal_text_canonical(n / 10);
        assert(text.drop_last() =~= decimal_text(n / 10));
    }
}

/// A numeral with no leading zero, but for zero itself, is the canonical
/// numeral of the number it writes: each number has one such numeral.
pub proof fn lemma_canonical_unique(s: Seq<char>)
    requires
        s.len() >= 1,
        all_digits(s),
        s.len() > 1 ==> s[0] != '0',
    ensures
        decimal_text(decimal_value(s)) == s,
    decreases s.len(),
{
    let front = s.drop_last();
    let last = s.last();
    assert(is_digit(last));
    assert(digit_char(digit_value(last)) == last);
    if s.len() == 1 {
        assert(front =~= Seq::<char>::empty());
        assert(decimal_value(front) == 0);
        assert(seq![last] =~= s);
    } else {
        assert(front[0] == s[0]);
        lemma_canonical_unique(front);
        lemma_decimal_text_canonical(decimal_value(front));
        assert(decimal_value(front) != 0);
        assert(front.push(last) =~= s);
    }
}

/// Taking the separators out of digits changes nothing.
pub proof fn lemma_strip_digits(s: Seq<char>)
    requires
        all_digits(s),
    ensures
        strip_separators(s) == s,
    decreases s.len(),
{
    if s.len() == 0 {
        reveal(Seq::filter);
    } else {
        let front = s.drop_last();
        lemma_strip_digits(front);
        assert(is_digit(s[s.len() - 1]));
        front.lemma_filter_push(s.last(), not_separator());
        assert(front.push(s.last()) =~= s);
    }
}

/// Writing a quantity and reading the text back gives the quantity again:
/// as a bare numeral, as free-form input and in the interchange form.
pub proof fn lemma_text_round_trip(m: u64)
    ensures
        parse_decimal(decimal_text(m as nat)) == Ok::<Gas, GasError>(Gas(m)),
        parse_freeform(decimal_text(m as nat)) == Ok::<Gas, GasError>(Gas(m)),
        parse_quoted(quoted_text(m as nat)) == Ok::<Gas, GasError>(Gas(m)),
{
    let numeral = decimal_text(m as nat);
    lemma_decimal_text_canonical(m as nat);
    lemma_strip_digits(numeral);
    assert(is_digit(numeral[0]));
    let quoted = quoted_text(m as nat);
    assert(quoted.subrange(1, quoted.len() - 1) =~= numeral);
}

} // verus!
