//! Decimal numbers as text, and the pieces that messages for people are put
//! together from.

use vstd::prelude::*;
use vstd::string::*;

verus! {

/// The character of the decimal digit `d`.
pub open spec fn digit_char(d: nat) -> char
    recommends
        d < 10,
{
    (48 + d) as char
}

/// True of the characters `0` to `9`.
pub open spec fn is_digit(c: char) -> bool {
    '0' <= c <= '9'
}

/// `n` in decimal, without leading zeros.
pub open spec fn decimal(n: nat) -> Seq<char>
    decreases n,
{
    if n < 10 {
        seq![digit_char(n)]
    } else {
        decimal(n / 10).push(digit_char(n % 10))
    }
}

/// The number that a run of decimal digits stands for.
pub open spec fn digits_value(s: Seq<char>) -> nat
    decreases s.len(),
{
    if s.len() == 0 {
        0
    } else {
        10 * digits_value(s.drop_last()) + (s.last() as nat - 48) as nat
    }
}

/// `s` without the plus sign in front of it, if there is one.
pub open spec fn without_plus(s: Seq<char>) -> Seq<char> {
    if s.len() > 0 && s[0] == '+' {
        s.drop_first()
    } else {
        s
    }
}

/// True of a nonempty run of decimal digits.
pub open spec fn all_digits(s: Seq<char>) -> bool {
    &&& s.len() > 0
    &&& forall|i: int| 0 <= i < s.len() ==> #[trigger] is_digit(s[i])
}

/// What `s` reads as: an optional plus sign followed by decimal digits and
/// nothing else, if the number fits 64 bits.
pub open spec fn parsed_u64(s: Seq<char>) -> Option<u64> {
    let digits = without_plus(s);
    if all_digits(digits) && digits_value(digits) <= u64::MAX {
        Some(digits_value(digits) as u64)
    } else {
        None
    }
}

/// `s` in the debug format of strings: in quotes, with escapes.
pub uninterp spec fn debugged_text(s: Seq<char>) -> Seq<char>;

/// Formats `s` with the `Debug` of `str`. Trusted: the text depends on nothing
/// but the characters of `s`.
#[verifier::external_body]
pub(crate) fn debug_text(s: &str) -> (text: String)
    ensures
        text@ == debugged_text(s@),
{
    format!("{s:?}")
}

/// The text of one digit.
fn digit_text(d: u64) -> (text: &'static str)
    requires
        d < 10,
    ensures
        text@ == seq![digit_char(d as nat)],
{
    proof {
        reveal_strlit("0");
        reveal_strlit("1");
        reveal_strlit("2");
        reveal_strlit("3");
        reveal_strlit("4");
        reveal_strlit("5");
        reveal_strlit("6");
        reveal_strlit("7");
        reveal_strlit("8");
        reveal_strlit("9");
    }
    match d {
        0 => "0",
        1 => "1",
        2 => "2",
        3 => "3",
        4 => "4",
        5 => "5",
        6 => "6",
        7 => "7",
        8 => "8",
        _ => "9",
    }
}

/// Writes `n` in decimal.
pub fn decimal_text(n: u64) -> (text: String)
    ensures
        text@ == decimal(n as nat),
    decreases n,
{
    if n < 10 {
        digit_text(n).to_owned()
    } else {
        let mut text = decimal_text(n / 10);
        text.append(digit_text(n % 10));
        text
    }
}

/// A run of digits stands for at least what any front part of it does.
proof fn lemma_prefix_value(s: Seq<char>, k: int)
    requires
        0 <= k <= s.len(),
    ensures
        digits_value(s.take(k)) <= digits_value(s),
    decreases s.len() - k,
{
    if k < s.len() {
        lemma_prefix_value(s, k + 1);
        assert(s.take(k + 1).drop_last() =~= s.take(k));
    } else {
        assert(s.take(k) =~= s);
    }
}

/// Reads a decimal number of 64 bits, with or without a plus sign in front.
pub fn parse_u64(s: &str) -> (n: Option<u64>)
    ensures
        n == parsed_u64(s@),
{
    let ghost digits = without_plus(s@);
    let mut value: u64 = 0;
    let mut signed: bool = false;
    let mut first: bool = true;
    let mut empty: bool = true;
    for c in it: s.chars()
        invariant
            it.seq() == s@,
            digits == without_plus(s@),
            first == (it.index() == 0),
            signed == (it.index() > 0 && s@[0] == '+'),
            empty == (it.index() <= (if signed { 1int } else { 0 })),
            ({
                let k = if signed { it.index() - 1 } else { it.index() };
                &&& 0 <= k
                &&& !first ==> k <= digits.len()
                &&& value == digits_value(digits.take(k))
                &&& forall|i: int| 0 <= i < k ==> #[trigger] is_digit(digits[i])
            }),
    {
        let ghost k = if signed { it.index() - 1 } else { it.index() };
        if first && c == '+' {
            first = false;
            signed = true;
            assert(digits.take(0) =~= Seq::<char>::empty());
        } else {
            first = false;
            empty = false;
            assert(digits[k] == c);
            if c < '0' || c > '9' {
                assert(!is_digit(digits[k]));
                return None;
            }
            let d: u64 = c as u64 - 48;
            proof {
                assert(digits.take(k + 1).drop_last() =~= digits.take(k));
                lemma_prefix_value(digits, k + 1);
            }
            value = match value.checked_mul(10) {
                None => return None,
                Some(tens) => match tens.checked_add(d) {
                    None => return None,
                    Some(sum) => sum,
                },
            };
        }
    }
    assert(!empty ==> digits.take(digits.len() as int) =~= digits);
    if empty {
        None
    } else {
        Some(value)
    }
}

/// The decimal text of a number is made of digits, and they stand for it.
proof fn lemma_decimal_value(n: nat)
    ensures
        all_digits(decimal(n)),
        digits_value(decimal(n)) == n,
    decreases n,
{
    let s = decimal(n);
    if n < 10 {
        assert(s.drop_last() =~= Seq::<char>::empty());
        assert(digits_value(s.drop_last()) == 0);
        assert(is_digit(s[0]));
    } else {
        lemma_decimal_value(n / 10);
        assert(s.drop_last() =~= decimal(n / 10));
        assert forall|i: int| 0 <= i < s.len() implies #[trigger] is_digit(s[i]) by {
            if i < s.len() - 1 {
                assert(is_digit(decimal(n / 10)[i]));
            }
        }
    }
}

/// A number that was written in decimal reads back as itself.
pub proof fn law_decimal_reads_back(n: u64)
    ensures
        parsed_u64(decimal(n as nat)) == Some(n),
{
    lemma_decimal_value(n as nat);
    assert(is_digit(decimal(n as nat)[0]));
}

/// Decimal numbers are written as people write them: a number below ten is its
/// digit, and any other is its tens, followed by the digit of its ones.
pub proof fn law_decimal_is_tens_and_ones(n: nat)
    ensures
        n < 10 ==> decimal(n).len() == 1 && decimal(n)[0] as int == '0' as int + n,
        n >= 10 ==> decimal(n).drop_last() == decimal(n / 10) && decimal(n).last() as int == '0'
            as int + n % 10,
        decimal(n).len() > 1 ==> decimal(n)[0] != '0',
    decreases n,
{
    if n >= 10 {
        assert(decimal(n).drop_last() =~= decimal(n / 10));
        law_decimal_is_tens_and_ones(n / 10);
        assert(decimal(n)[0] == decimal(n / 10)[0]);
    }
}

/// Different numbers are written differently.
pub proof fn law_decimal_tells_numbers_apart(a: nat, b: nat)
    requires
        decimal(a) == decimal(b),
    ensures
        a == b,
{
    lemma_decimal_value(a);
    lemma_decimal_value(b);
}

/// A text is read from the left: what was read so far counts ten times as much
/// with another digit behind it. A text that is empty, a sign alone, or that
/// holds anything but digits behind its first character is no number, and
/// neither is one that stands for more than 64 bits hold.
pub proof fn law_text_is_read_digit_by_digit(s: Seq<char>, c: char)
    ensures
        parsed_u64(Seq::<char>::empty()) is None,
        parsed_u64(seq![c]) == (if '0' <= c <= '9' {
            Some((c as int - '0' as int) as u64)
        } else {
            None
        }),
        parsed_u64(seq!['+', c]) == parsed_u64(seq![c]),
        s.len() > 0 && s != seq!['+'] ==> parsed_u64(s.push(c)) == (match parsed_u64(s) {
            Some(v) => if '0' <= c <= '9' && 10 * v + (c as int - '0' as int) <= u64::MAX {
                Some((10 * v + (c as int - '0' as int)) as u64)
            } else {
                None
            },
            None => None,
        }),
{
    let one = seq![c];
    let signed = seq!['+', c];
    assert(one.drop_last() =~= Seq::<char>::empty());
    assert(digits_value(one.drop_last()) == 0);
    assert(digits_value(one) == (one.last() as nat - 48) as nat);
    assert(signed.drop_first() =~= one);
    assert(seq!['+'].drop_first() =~= Seq::<char>::empty());
    assert(is_digit(one[0]) <==> all_digits(one));
    if c == '+' {
        assert(one.drop_first() =~= Seq::<char>::empty());
    }
    if s.len() > 0 && s != seq!['+'] {
        let digits = without_plus(s);
        let more = without_plus(s.push(c));
        if s[0] == '+' {
            assert(s.push(c).drop_first() =~= s.drop_first().push(c));
            if s.len() == 1 {
                assert(s =~= seq!['+']);
            }
        }
        assert(more =~= digits.push(c));
        assert(more.drop_last() =~= digits);
        assert(is_digit(more[digits.len() as int]) == ('0' <= c <= '9'));
        if all_digits(digits) {
            assert forall|i: int|
                0 <= i < more.len() && '0' <= c <= '9' implies #[trigger] is_digit(more[i]) by {
                if i < digits.len() {
                    assert(is_digit(digits[i]));
                }
            }
        } else {
            let i = choose|i: int| 0 <= i < digits.len() && !(#[trigger] is_digit(digits[i]));
            assert(!is_digit(more[i]));
        }
    }
}

} // verus!
