//! Decimal numbers as text.

use vstd::prelude::*;
use vstd::string::StringExecFns;

verus! {

/// Whether a character is a decimal digit.
pub open spec fn is_digit(c: char) -> bool {
    48 <= c as int <= 57
}

/// The number that a digit stands for.
pub open spec fn digit_value(c: char) -> nat {
    (c as int - 48) as nat
}

/// The digit that stands for a number below ten.
pub open spec fn digit_char(d: nat) -> char {
    (48 + d) as char
}

/// The number that a text of digits stands for.
pub open spec fn number_of(s: Seq<char>) -> nat
    decreases s.len(),
{
    if s.len() == 0 {
        0
    } else {
        number_of(s.drop_last()) * 10 + digit_value(s.last())
    }
}

/// Whether a text is one digit or more, and nothing else.
pub open spec fn all_digits(s: Seq<char>) -> bool {
    s.len() > 0 && forall|i: int| 0 <= i < s.len() ==> is_digit(#[trigger] s[i])
}

/// The shortest decimal form of a number.
pub open spec fn digits_of(n: nat) -> Seq<char>
    decreases n,
{
    if n < 10 {
        seq![digit_char(n)]
    } else {
        digits_of(n / 10).push(digit_char(n % 10))
    }
}

/// The number that a text stands for: digits, after a plus sign or none.
pub open spec fn parsed(s: Seq<char>) -> Option<nat> {
    let t = if s.len() > 0 && s[0] == '+' {
        s.skip(1)
    } else {
        s
    };
    if all_digits(t) {
        Some(number_of(t))
    } else {
        None
    }
}

/// Whether a text is digits with no zero to spare.
pub open spec fn is_canonical(s: Seq<char>) -> bool {
    all_digits(s) && (s.len() == 1 || s[0] != '0')
}

/// A number no larger than `max`.
pub open spec fn at_most(n: Option<nat>, max: nat) -> Option<nat> {
    match n {
        Some(n) => if n <= max {
            Some(n)
        } else {
            None
        },
        None => None,
    }
}

/// The number that a canonical text stands for.
pub open spec fn canonical(s: Seq<char>) -> Option<nat> {
    if is_canonical(s) {
        Some(number_of(s))
    } else {
        None
    }
}

proof fn lemma_number_grows(s: Seq<char>, i: int)
    requires
        0 <= i <= s.len(),
    ensures
        number_of(s.take(i)) <= number_of(s),
    decreases s.len() - i,
{
    if i < s.len() {
        lemma_number_grows(s, i + 1);
        assert(s.take(i + 1).drop_last() =~= s.take(i));
    } else {
        assert(s.take(i) =~= s);
    }
}

fn digit_of(c: char) -> (r: Option<u128>)
    ensures
        match r {
            Some(d) => is_digit(c) && d == digit_value(c) && d < 10,
            None => !is_digit(c),
        },
{
    match c {
        '0' => Some(0),
        '1' => Some(1),
        '2' => Some(2),
        '3' => Some(3),
        '4' => Some(4),
        '5' => Some(5),
        '6' => Some(6),
        '7' => Some(7),
        '8' => Some(8),
        '9' => Some(9),
        _ => None,
    }
}

fn digits_from(s: &str, from: usize) -> (r: Option<u128>)
    requires
        from <= s@.len(),
    ensures
        ({
            let t = s@.skip(from as int);
            match r {
                Some(n) => all_digits(t) && n == number_of(t),
                None => !all_digits(t) || number_of(t) > u128::MAX,
            }
        }),
{
    let ghost t: Seq<char> = s@.skip(from as int);
    let n: usize = s.unicode_len();
    if from == n {
        return None;
    }
    let mut value: u128 = 0;
    let mut i: usize = from;
    assert(t.take(0) =~= Seq::empty());
    while i < n
        invariant
            from <= i <= n,
            n == s@.len(),
            t == s@.skip(from as int),
            value == number_of(t.take(i - from)),
            forall|j: int| 0 <= j < i - from ==> is_digit(#[trigger] t[j]),
        decreases n - i,
    {
        let c: char = s.get_char(i);
        let ghost k: int = i - from;
        assert(t[k] == c);
        let d: u128 = match digit_of(c) {
            Some(d) => d,
            None => return None,
        };
        proof {
            assert(t.take(k + 1).drop_last() =~= t.take(k));
            assert(t.take(k + 1).last() == c);
            lemma_number_grows(t, k + 1);
        }
        value = match value.checked_mul(10) {
            Some(v) => match v.checked_add(d) {
                Some(v) => v,
                None => return None,
            },
            None => return None,
        };
        i = i + 1;
    }
    assert(t.take(n - from) =~= t);
    Some(value)
}

/// The number that a text stands for, if it fits.
pub fn parse_u128(s: &str) -> (r: Option<u128>)
    ensures
        match r {
            Some(n) => at_most(parsed(s@), u128::MAX as nat) == Some(n as nat),
            None => at_most(parsed(s@), u128::MAX as nat) is None,
        },
{
    if s.unicode_len() > 0 && s.get_char(0) == '+' {
        digits_from(s, 1)
    } else {
        assert(s@.skip(0) =~= s@);
        digits_from(s, 0)
    }
}

/// The number that a canonical text stands for, if it fits.
pub fn canon_u128(s: &str) -> (r: Option<u128>)
    ensures
        match r {
            Some(n) => at_most(canonical(s@), u128::MAX as nat) == Some(n as nat),
            None => at_most(canonical(s@), u128::MAX as nat) is None,
        },
{
    assert(s@.skip(0) =~= s@);
    if s.unicode_len() > 1 && s.get_char(0) == '0' {
        return None;
    }
    digits_from(s, 0)
}

/// The number that a canonical text stands for, if it fits.
pub fn canon_u64(s: &str) -> (r: Option<u64>)
    ensures
        match r {
            Some(n) => at_most(canonical(s@), u64::MAX as nat) == Some(n as nat),
            None => at_most(canonical(s@), u64::MAX as nat) is None,
        },
{
    match canon_u128(s) {
        Some(n) => if n <= u64::MAX as u128 {
            Some(n as u64)
        } else {
            None
        },
        None => None,
    }
}

fn digit_text(d: u8) -> (s: &'static str)
    requires
        d < 10,
    ensures
        s@ == seq![digit_char(d as nat)],
{
    proof {
        reveal_strlit("0");
        reveal_strlit("1");
        reveal_strlit("2");
        reveal_strlit("3");
        reveal_strlit("4");
        reveal_strlit("5");
        reveal_strlit("6");
        reveal_strlit("7");
        reveal_strlit("8");
        reveal_strlit("9");
    }
    let s: &'static str = match d {
        0 => "0",
        1 => "1",
        2 => "2",
        3 => "3",
        4 => "4",
        5 => "5",
        6 => "6",
        7 => "7",
        8 => "8",
        _ => "9",
    };
    assert(s@ =~= seq![digit_char(d as nat)]);
    s
}

/// The shortest decimal form of a number.
pub fn decimal(n: u128) -> (s: String)
    ensures
        s@ == digits_of(n as nat),
    decreases n,
{
    if n < 10 {
        return digit_text(n as u8).to_owned();
    }
    let mut s: String = decimal(n / 10);
    s.append(digit_text((n % 10) as u8));
    assert(s@ =~= digits_of(n as nat));
    s
}

/// A number is read back from its decimal form, which is canonical.
pub proof fn law_decimal_read_back(n: nat)
    ensures
        canonical(digits_of(n)) == Some(n),
        parsed(digits_of(n)) == Some(n),
        n > 0 ==> digits_of(n)[0] != '0',
    decreases n,
{
    let s = digits_of(n);
    if n < 10 {
        assert(s.drop_last() =~= Seq::empty());
        assert(number_of(s.drop_last()) == 0);
        assert(digit_char(n) as int == 48 + n);
    } else {
        let front = digits_of(n / 10);
        law_decimal_read_back(n / 10);
        assert(s.drop_last() =~= front);
        assert(digit_char(n % 10) as int == 48 + n % 10);
        assert forall|i: int| 0 <= i < s.len() implies is_digit(#[trigger] s[i]) by {
            if i < front.len() {
                assert(s[i] == front[i]);
            }
        }
    }
}

/// Decimal digits have their places: a number below ten is its one digit, and another digit
/// behind a number makes it ten times as large and that much larger.
pub proof fn law_digits_have_their_places(n: nat, d: nat, s: Seq<char>, c: char)
    requires
        d < 10,
        all_digits(s),
        '0' <= c <= '9',
    ensures
        digits_of(d) == seq![(48 + d) as char],
        n > 0 ==> digits_of(10 * n + d) == digits_of(n).push((48 + d) as char),
        parsed(s.push(c)) == Some((10 * number_of(s) + (c as int - 48)) as nat),
        parsed(s) == Some(number_of(s)),
        parsed(Seq::empty()) is None,
        parsed(seq!['+'] + s) == Some(number_of(s)),
{
    assert((10 * n + d) / 10 == n && (10 * n + d) % 10 == d);
    let t = s.push(c);
    assert(t.drop_last() =~= s);
    assert(is_digit(s[0]));
    assert(t[0] == s[0]);
    assert forall|i: int| 0 <= i < t.len() implies is_digit(#[trigger] t[i]) by {
        if i < s.len() {
            assert(t[i] == s[i]);
        }
    }
    assert((seq!['+'] + s).skip(1) =~= s);
}

/// A canonical text is the one decimal form of its number; a text with a zero to spare, a sign
/// or anything else that is no digit is none.
pub proof fn law_a_number_has_one_canonical_text(s: Seq<char>, n: nat)
    ensures
        canonical(s) == Some(n) <==> s == digits_of(n),
{
    law_decimal_read_back(n);
    if canonical(s) == Some(n) {
        lemma_canonical_digits(s);
    }
}

proof fn lemma_canonical_digits(s: Seq<char>)
    requires
        is_canonical(s),
    ensures
        digits_of(number_of(s)) == s,
        s.len() > 1 ==> number_of(s) >= 10,
        s[0] != '0' ==> number_of(s) > 0,
    decreases s.len(),
{
    let front = s.drop_last();
    let d = digit_value(s.last());
    assert(is_digit(s[s.len() - 1]));
    assert(digit_char(d) == s.last());
    if s.len() == 1 {
        assert(front =~= Seq::empty());
        assert(number_of(front) == 0);
        assert(is_digit(s[0]));
        assert(seq![digit_char(d)] =~= s);
    } else {
        assert forall|i: int| 0 <= i < front.len() implies is_digit(#[trigger] front[i]) by {
            assert(front[i] == s[i]);
        }
        assert(front[0] == s[0]);
        lemma_canonical_digits(front);
        let m = number_of(front);
        assert((m * 10 + d) / 10 == m && (m * 10 + d) % 10 == d);
        assert(front.push(s.last()) =~= s);
    }
}

} // verus!
