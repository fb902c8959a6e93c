//! Unsigned decimal numerals: reading them and writing them.

use vstd::arithmetic::power::pow;
use vstd::prelude::*;

use crate::text::chars_of;

verus! {

/// `c` is one of the ten ASCII digits.
pub open spec fn is_digit(c: char) -> bool {
    '0' <= c && c <= '9'
}

/// The number that a digit stands for.
pub open spec fn digit_value(c: char) -> nat {
    (c as int - '0' as int) as nat
}

/// The digit that stands for `d`.
pub open spec fn digit_char(d: nat) -> char
    recommends
        d < 10,
{
    ('0' as int + d) as char
}

/// The number that a sequence of digits stands for.
pub open spec fn value(s: Seq<char>) -> nat
    decreases s.len(),
{
    if s.len() == 0 {
        0
    } else {
        value(s.drop_last()) * 10 + digit_value(s.last())
    }
}

/// The numeral of `n`: no sign, and no zero in front.
pub open spec fn numeral(n: nat) -> Seq<char>
    decreases n,
{
    if n < 10 {
        seq![digit_char(n)]
    } else {
        numeral(n / 10).push(digit_char(n % 10))
    }
}

/// How many digits `s` begins with.
pub open spec fn digit_run(s: Seq<char>) -> nat
    decreases s.len(),
{
    if s.len() == 0 || !is_digit(s[0]) {
        0
    } else {
        1 + digit_run(s.skip(1))
    }
}

/// Why a text is no number of the wanted type.
#[derive(Debug, Clone, Copy, PartialEq, Eq, Structural)]
pub enum ParseUintError {
    /// The text is empty.
    Empty,
    /// The text holds something else than digits, or a sign alone.
    InvalidDigit,
    /// The number is larger than the type allows.
    PosOverflow,
}

impl ParseUintError {
    /// The error in words.
    pub open spec fn text(self) -> Seq<char> {
        match self {
            ParseUintError::Empty => "cannot parse integer from empty string"@,
            ParseUintError::InvalidDigit => "invalid digit found in string"@,
            ParseUintError::PosOverflow => "number too large to fit in target type"@,
        }
    }

    /// The error in words.
    pub fn message(self) -> (text: &'static str)
        ensures
            text@ == self.text(),
    {
        match self {
            ParseUintError::Empty => "cannot parse integer from empty string",
            ParseUintError::InvalidDigit => "invalid digit found in string",
            ParseUintError::PosOverflow => "number too large to fit in target type",
        }
    }
}

/// What `s` says when it is read as a number of at most `max`.
///
/// A number is one or more digits after at most one plus sign. The text is read from the left:
/// digits that are already too large are an overflow, whatever comes after them.
pub open spec fn uint_of(s: Seq<char>, max: nat) -> Result<nat, ParseUintError> {
    let digits = if s.len() > 0 && s[0] == '+' {
        s.skip(1)
    } else {
        s
    };
    let run = digits.take(digit_run(digits) as int);
    if s.len() == 0 {
        Err(ParseUintError::Empty)
    } else if value(run) > max {
        Err(ParseUintError::PosOverflow)
    } else if run.len() == 0 || run.len() < digits.len() {
        Err(ParseUintError::InvalidDigit)
    } else {
        Ok(value(digits))
    }
}

/// A run of digits is as long as the digits go.
pub proof fn lemma_digit_run(s: Seq<char>, n: nat)
    requires
        n <= s.len(),
        forall|i: int| 0 <= i < n ==> is_digit(#[trigger] s[i]),
    ensures
        n <= digit_run(s) <= s.len(),
        n < s.len() && !is_digit(s[n as int]) ==> digit_run(s) == n,
    decreases s.len(),
{
    if n > 0 {
        let rest = s.skip(1);
        assert forall|i: int| 0 <= i < n - 1 implies is_digit(#[trigger] rest[i]) by {
            assert(rest[i] == s[i + 1]);
        }
        lemma_digit_run(rest, (n - 1) as nat);
    } else if s.len() > 0 && is_digit(s[0]) {
        lemma_digit_run(s.skip(1), 0);
    }
}

/// More digits stand for no smaller number.
proof fn lemma_value_grows(s: Seq<char>, m: nat, n: nat)
    requires
        m <= n <= s.len(),
    ensures
        value(s.take(m as int)) <= value(s.take(n as int)),
    decreases n,
{
    if m < n {
        lemma_value_grows(s, m, (n - 1) as nat);
        assert(s.take(n as int).drop_last() == s.take(n - 1));
    }
}

/// Reads `s` as a number of at most `max`.
pub fn parse_uint(s: &str, max: u64) -> (res: Result<u64, ParseUintError>)
    ensures
        match res {
            Ok(n) => uint_of(s@, max as nat) == Ok::<nat, ParseUintError>(n as nat),
            Err(e) => uint_of(s@, max as nat) == Err::<nat, ParseUintError>(e),
        },
{
    let chars = chars_of(s);
    let len: usize = chars.len();
    if len == 0 {
        return Err(ParseUintError::Empty);
    }
    let start: usize = if chars[0] == '+' {
        1
    } else {
        0
    };
    let ghost digits = chars@.skip(start as int);
    assert(chars@.skip(0) == chars@);
    let mut acc: u64 = 0;
    let mut i: usize = start;
    while i < len
        invariant
            len == chars.len(),
            digits == chars@.skip(start as int),
            start <= i <= len,
            forall|k: int| 0 <= k < i - start ==> is_digit(#[trigger] digits[k]),
            acc == value(digits.take(i - start)),
            acc <= max,
            chars@ == s@,
            len > 0,
            start == (if chars@[0] == '+' { 1int } else { 0int }),
            chars@.skip(0) == chars@,
        decreases len - i,
    {
        let c = chars[i];
        let ghost n = (i - start) as nat;
        assert(c == digits[n as int]);
        proof {
            lemma_digit_run(digits, n);
        }
        if !('0' <= c && c <= '9') {
            return Err(ParseUintError::InvalidDigit);
        }
        let next: u128 = acc as u128 * 10 + (c as u32 - '0' as u32) as u128;
        assert(digits.take((n + 1) as int).drop_last() == digits.take(n as int));
        assert(next == value(digits.take((n + 1) as int)));
        if next > max as u128 {
            proof {
                lemma_digit_run(digits, n + 1);
                lemma_value_grows(digits, n + 1, digit_run(digits));
            }
            return Err(ParseUintError::PosOverflow);
        }
        acc = next as u64;
        i = i + 1;
    }
    proof {
        lemma_digit_run(digits, digits.len());
        assert(digits.take(digits.len() as int) == digits);
    }
    if start == len {
        return Err(ParseUintError::InvalidDigit);
    }
    Ok(acc)
}

/// The digit that stands for `d`, as a text.
fn digit_text(d: u8) -> (text: &'static str)
    requires
        d < 10,
    ensures
        text@ == seq![digit_char(d as nat)],
{
    proof {
        reveal_strlit("0");
        reveal_strlit("1");
        reveal_strlit("2");
        reveal_strlit("3");
        reveal_strlit("4");
        reveal_strlit("5");
        reveal_strlit("6");
        reveal_strlit("7");
        reveal_strlit("8");
        reveal_strlit("9");
    }
    match d {
        0 => "0",
        1 => "1",
        2 => "2",
        3 => "3",
        4 => "4",
        5 => "5",
        6 => "6",
        7 => "7",
        8 => "8",
        _ => "9",
    }
}

/// Appends the numeral of `n` to `out`.
pub fn push_numeral(out: &mut String, n: u128)
    ensures
        final(out)@ == old(out)@ + numeral(n as nat),
    decreases n,
{
    if n >= 10 {
        push_numeral(out, n / 10);
    }
    out.append(digit_text((n % 10) as u8));
}

/// The numeral of a number is made of digits, and has a zero in front only for zero.
pub proof fn lemma_numeral_digits(n: nat)
    ensures
        numeral(n).len() >= 1,
        forall|i: int| 0 <= i < numeral(n).len() ==> is_digit(#[trigger] numeral(n)[i]),
        numeral(n)[0] == '0' ==> n == 0,
    decreases n,
{
    if n >= 10 {
        lemma_numeral_digits(n / 10);
        assert forall|i: int| 0 <= i < numeral(n).len() implies is_digit(
            #[trigger] numeral(n)[i],
        ) by {
            if i < numeral(n).len() - 1 {
                assert(numeral(n)[i] == numeral(n / 10)[i]);
            }
        }
        assert(numeral(n)[0] == numeral(n / 10)[0]);
    }
}

/// The numeral of a number stands for that number.
pub proof fn lemma_numeral_value(n: nat)
    ensures
        value(numeral(n)) == n,
    decreases n,
{
    reveal_with_fuel(value, 2);
    if n >= 10 {
        lemma_numeral_value(n / 10);
        assert(numeral(n).drop_last() == numeral(n / 10));
    } else {
        assert(numeral(n).drop_last() == Seq::<char>::empty());
    }
}

/// Digits without a superfluous zero in front are the numeral of what they stand for.
pub proof fn lemma_numeral_unique(s: Seq<char>)
    requires
        s.len() >= 1,
        forall|i: int| 0 <= i < s.len() ==> is_digit(#[trigger] s[i]),
        s.len() > 1 ==> s[0] != '0',
    ensures
        numeral(value(s)) == s,
        s[0] != '0' ==> value(s) > 0,
    decreases s.len(),
{
    let front = s.drop_last();
    assert(is_digit(s.last())) by {
        assert(is_digit(s[s.len() - 1]));
    }
    if s.len() == 1 {
        assert(value(front) == 0);
        assert(s == seq![s[0]]);
    } else {
        assert forall|i: int| 0 <= i < front.len() implies is_digit(#[trigger] front[i]) by {
            assert(front[i] == s[i]);
        }
        lemma_numeral_unique(front);
        assert(front.push(s.last()) == s);
    }
}

/// A number that is written down is read back, under every limit that it keeps to.
pub proof fn law_numeral_read_back(n: nat, max: nat)
    requires
        n <= max,
    ensures
        uint_of(numeral(n), max) == Ok::<nat, ParseUintError>(n),
{
    let s = numeral(n);
    lemma_numeral_digits(n);
    lemma_numeral_value(n);
    lemma_digit_run(s, s.len());
    assert(s.take(s.len() as int) == s);
}

/// A number is read exactly from one or more digits, after at most one plus sign, that stand
/// for it and keep to the limit.
pub proof fn law_uint_accepted(s: Seq<char>, max: nat, n: nat)
    ensures
        uint_of(s, max) == Ok::<nat, ParseUintError>(n) <==> exists|digits: Seq<char>|
            {
                &&& s == digits || s == seq!['+'] + digits
                &&& digits.len() >= 1
                &&& forall|i: int| 0 <= i < digits.len() ==> is_digit(#[trigger] digits[i])
                &&& #[trigger] value(digits) == n
                &&& n <= max
            },
{
    let signed = s.len() > 0 && s[0] == '+';
    let rest = if signed {
        s.skip(1)
    } else {
        s
    };
    if uint_of(s, max) == Ok::<nat, ParseUintError>(n) {
        lemma_run_is_digits(rest);
        assert(rest.take(digit_run(rest) as int) == rest);
        assert(signed ==> s == seq!['+'] + rest);
        assert(value(rest) == n);
    }
    assert forall|digits: Seq<char>|
        {
            &&& s == digits || s == seq!['+'] + digits
            &&& digits.len() >= 1
            &&& forall|i: int| 0 <= i < digits.len() ==> is_digit(#[trigger] digits[i])
            &&& #[trigger] value(digits) == n
            &&& n <= max
        } implies uint_of(s, max) == Ok::<nat, ParseUintError>(n) by {
        assert(is_digit(digits[0]));
        if s == digits {
            assert(rest == digits);
        } else {
            assert((seq!['+'] + digits)[0] == '+');
            assert(rest == digits);
        }
        lemma_digit_run(digits, digits.len());
        assert(digits.take(digits.len() as int) == digits);
    }
}

/// A run of digits holds digits only.
pub proof fn lemma_run_is_digits(s: Seq<char>)
    ensures
        digit_run(s) <= s.len(),
        forall|i: int| 0 <= i < digit_run(s) ==> is_digit(#[trigger] s[i]),
    decreases s.len(),
{
    if s.len() > 0 && is_digit(s[0]) {
        let rest = s.skip(1);
        lemma_run_is_digits(rest);
        assert forall|i: int| 0 <= i < digit_run(s) implies is_digit(#[trigger] s[i]) by {
            if i > 0 {
                assert(rest[i - 1] == s[i]);
            }
        }
    }
}

/// The digits are the ten characters from 48 on, in the order of what they stand for.
pub proof fn law_digits(c: char, d: nat)
    requires
        d < 10,
    ensures
        is_digit(c) <==> 48 <= c as int <= 57,
        is_digit(c) ==> digit_value(c) == c as int - 48,
        digit_char(d) as int == 48 + d,
{
}

/// Numerals are positional: a digit stands for its own value, and digits in front of `n` others
/// count ten to the `n`th as much as they do alone.
pub proof fn law_value_positional(a: Seq<char>, b: Seq<char>, c: char)
    requires
        '0' <= c <= '9',
    ensures
        value(Seq::empty()) == 0,
        value(seq![c]) == c as int - 48,
        value(a + b) == value(a) * pow(10, b.len()) + value(b),
    decreases b.len(),
{
    assert(seq![c].drop_last() == Seq::<char>::empty());
    reveal(pow);
    if b.len() == 0 {
        assert(a + b == a);
        assert(pow(10, 0) == 1);
    } else {
        let front = b.drop_last();
        law_value_positional(a, front, c);
        assert((a + b).drop_last() == a + front);
        let (x, y, z) = (value(a) as int, pow(10, front.len()), value(front) as int);
        assert(pow(10, b.len()) == 10 * y);
        assert((x * y + z) * 10 == x * (10 * y) + z * 10) by (nonlinear_arith);
    }
}

/// The numeral of a number is the one sequence of digits, without a superfluous zero in front,
/// that stands for it.
pub proof fn law_numeral_canonical(n: nat, s: Seq<char>)
    ensures
        s == numeral(n) <==> {
            &&& s.len() >= 1
            &&& forall|i: int| 0 <= i < s.len() ==> '0' <= #[trigger] s[i] <= '9'
            &&& s.len() > 1 ==> s[0] != '0'
            &&& value(s) == n
        },
{
    lemma_numeral_digits(n);
    lemma_numeral_value(n);
    assert forall|i: int| 0 <= i < numeral(n).len() implies '0' <= #[trigger] numeral(n)[i]
        <= '9' by {
        assert(is_digit(numeral(n)[i]));
    }
    if s.len() >= 1 && (forall|i: int| 0 <= i < s.len() ==> '0' <= #[trigger] s[i] <= '9') && (
    s.len() > 1 ==> s[0] != '0') {
        lemma_numeral_unique(s);
    }
}

/// Which texts are numbers: what comes after at most one plus sign, here `digits`, is one or more
/// digits and nothing but digits, and what they stand for keeps to the limit.
pub proof fn law_uint_read(s: Seq<char>, digits: Seq<char>, max: nat, n: nat)
    requires
        s == seq!['+'] + digits || (s == digits && (s.len() > 0 ==> s[0] != '+')),
    ensures
        uint_of(s, max) == Ok::<nat, ParseUintError>(n) <==> {
            &&& digits.len() >= 1
            &&& forall|i: int| 0 <= i < digits.len() ==> '0' <= #[trigger] digits[i] <= '9'
            &&& value(digits) == n
            &&& n <= max
        },
{
    assert((seq!['+'] + digits).skip(1) == digits);
    lemma_run_is_digits(digits);
    if forall|i: int| 0 <= i < digits.len() ==> '0' <= #[trigger] digits[i] <= '9' {
        lemma_digit_run(digits, digits.len());
    }
    assert(digits.take(digits.len() as int) == digits);
    if uint_of(s, max) == Ok::<nat, ParseUintError>(n) {
        assert forall|i: int| 0 <= i < digits.len() implies '0' <= #[trigger] digits[i] <= '9' by {
            assert(is_digit(digits[i]));
        }
    }
}

/// Why a text is no number, where `digits` is what comes after at most one plus sign. Nothing at
/// all is empty. Digits that stand for more than the limit are an overflow, whatever comes after
/// them. A character that is no digit, behind digits that keep to the limit, is an invalid
/// digit, and so is a plus sign with nothing behind it.
pub proof fn law_uint_refused(s: Seq<char>, digits: Seq<char>, max: nat)
    requires
        s == seq!['+'] + digits || (s == digits && (s.len() > 0 ==> s[0] != '+')),
    ensures
        uint_of(s, max) == Err::<nat, ParseUintError>(ParseUintError::Empty) <==> s.len() == 0,
        uint_of(s, max) == Err::<nat, ParseUintError>(ParseUintError::PosOverflow) <==> exists|
            n: int,
        |
            {
                &&& 0 < n <= digits.len()
                &&& forall|i: int| 0 <= i < n ==> '0' <= #[trigger] digits[i] <= '9'
                &&& value(#[trigger] digits.take(n)) > max
            },
        uint_of(s, max) == Err::<nat, ParseUintError>(ParseUintError::InvalidDigit) <==> {
            ||| s.len() == 1 && digits.len() == 0
            ||| exists|n: int|
                {
                    &&& 0 <= n < digits.len()
                    &&& !('0' <= digits[n] <= '9')
                    &&& forall|i: int| 0 <= i < n ==> '0' <= #[trigger] digits[i] <= '9'
                    &&& value(#[trigger] digits.take(n)) <= max
                }
        },
{
    assert((seq!['+'] + digits).skip(1) == digits);
    let run = digit_run(digits) as int;
    lemma_run_is_digits(digits);
    lemma_run_ends(digits);
    assert forall|i: int| 0 <= i < run implies '0' <= #[trigger] digits[i] <= '9' by {
        assert(is_digit(digits[i]));
    }
    assert(digits.take(0) == Seq::<char>::empty());
    assert forall|n: int|
        0 < n <= digits.len() && (forall|i: int|
            0 <= i < n ==> '0' <= #[trigger] digits[i] <= '9') && value(#[trigger] digits.take(n))
            > max implies value(digits.take(run)) > max by {
        lemma_digit_run(digits, n as nat);
        lemma_value_grows(digits, n as nat, run as nat);
    }
    assert forall|n: int|
        0 <= n < digits.len() && !('0' <= digits[n] <= '9') && (forall|i: int|
            0 <= i < n ==> '0' <= #[trigger] digits[i] <= '9') && value(#[trigger] digits.take(n))
            <= max implies run == n by {
        lemma_digit_run(digits, n as nat);
    }
}

/// A run of digits ends where there is no further digit.
proof fn lemma_run_ends(s: Seq<char>)
    ensures
        digit_run(s) < s.len() ==> !is_digit(s[digit_run(s) as int]),
    decreases s.len(),
{
    if s.len() > 0 && is_digit(s[0]) {
        lemma_run_ends(s.skip(1));
    }
}

} // verus!
