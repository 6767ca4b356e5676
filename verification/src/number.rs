//! Numbers as text: decimal writing, and reading in a given radix with the
//! rules of the standard library's unsigned integers.

use vstd::prelude::*;
use vstd::string::*;

use crate::text::chars;

verus! {

/// The character of a digit below ten.
pub open spec fn digit(n: int) -> char {
    (48 + n) as char
}

/// `n` in decimal, without leading zeros.
pub open spec fn decimal(n: nat) -> Seq<char>
    decreases n,
{
    if n < 10 {
        seq![digit(n as int)]
    } else {
        decimal(n / 10).push(digit((n % 10) as int))
    }
}

/// `n` in decimal.
pub fn decimal_text(n: u64) -> (s: String)
    ensures
        s@ == decimal(n as nat),
    decreases n,
{
    let last: char = (48u8 + (n % 10) as u8) as char;
    let mut s = if n < 10 {
        String::new()
    } else {
        decimal_text(n / 10)
    };
    s.push(last);
    assert(n < 10 ==> s@ =~= seq![digit(n as int)]);
    s
}

/// The value of `c` as a digit in `radix`.
pub open spec fn digit_value(c: char, radix: nat) -> Option<nat> {
    let v = if '0' <= c <= '9' {
        (c as int - '0' as int) as nat
    } else if 'a' <= c <= 'z' {
        (c as int - 'a' as int + 10) as nat
    } else if 'A' <= c <= 'Z' {
        (c as int - 'A' as int + 10) as nat
    } else {
        radix
    };
    if v < radix {
        Some(v)
    } else {
        None
    }
}

fn digit_of(c: char, radix: u32) -> (r: Option<u32>)
    ensures
        match r {
            Some(v) => digit_value(c, radix as nat) == Some(v as nat),
            None => digit_value(c, radix as nat) is None,
        },
{
    let v: u32 = if '0' <= c && c <= '9' {
        c as u32 - 48
    } else if 'a' <= c && c <= 'z' {
        c as u32 - 97 + 10
    } else if 'A' <= c && c <= 'Z' {
        c as u32 - 65 + 10
    } else {
        radix
    };
    if v < radix {
        Some(v)
    } else {
        None
    }
}

/// Whether all of `s` are digits in `radix`.
pub open spec fn all_digits(s: Seq<char>, radix: nat) -> bool {
    forall|i: int| 0 <= i < s.len() ==> digit_value(#[trigger] s[i], radix) is Some
}

/// The number that the digits `s` write in `radix`.
pub open spec fn digits_value(s: Seq<char>, radix: nat) -> nat
    decreases s.len(),
{
    if s.len() == 0 {
        0
    } else {
        digits_value(s.drop_last(), radix) * radix + digit_value(s.last(), radix).unwrap_or(0)
    }
}

/// How many digits `s` starts with.
pub open spec fn digit_run(s: Seq<char>, radix: nat) -> int
    decreases s.len(),
{
    if s.len() == 0 || digit_value(s[0], radix) is None {
        0
    } else {
        1 + digit_run(s.skip(1), radix)
    }
}

proof fn lemma_digit_run(s: Seq<char>, radix: nat)
    ensures
        0 <= digit_run(s, radix) <= s.len(),
        forall|i: int|
            0 <= i < digit_run(s, radix) ==> digit_value(#[trigger] s[i], radix) is Some,
        digit_run(s, radix) < s.len() ==> digit_value(s[digit_run(s, radix)], radix) is None,
    decreases s.len(),
{
    if s.len() > 0 && digit_value(s[0], radix) is Some {
        lemma_digit_run(s.skip(1), radix);
        assert forall|i: int| 0 <= i < digit_run(s, radix) implies digit_value(
            #[trigger] s[i],
            radix,
        ) is Some by {
            if i > 0 {
                assert(s.skip(1)[i - 1] == s[i]);
            }
        }
    }
}

/// What is wrong with text that was read as a number.
#[derive(Debug, Clone, Copy, PartialEq, Eq, Structural)]
pub enum NumberFault {
    Empty,
    InvalidDigit,
    TooLarge,
}

/// The number that `s` writes in `radix`, at most `max`. One plus sign may
/// stand before the digits. Reading goes from left to right, so digits that
/// exceed `max` are too large even where something else follows them.
pub open spec fn number(s: Seq<char>, radix: nat, max: nat) -> Result<nat, NumberFault> {
    let body = unsigned(s);
    let run = body.take(digit_run(body, radix));
    if s.len() == 0 {
        Err(NumberFault::Empty)
    } else if digits_value(run, radix) > max {
        Err(NumberFault::TooLarge)
    } else if run.len() < body.len() {
        Err(NumberFault::InvalidDigit)
    } else {
        Ok(digits_value(body, radix))
    }
}

/// `s` without a plus sign before further characters.
pub open spec fn unsigned(s: Seq<char>) -> Seq<char> {
    if s.len() > 1 && s[0] == '+' {
        s.skip(1)
    } else {
        s
    }
}

proof fn lemma_prefix_value(s: Seq<char>, radix: nat, k: int)
    requires
        0 <= k <= s.len(),
        radix >= 1,
    ensures
        digits_value(s.take(k), radix) <= digits_value(s, radix),
    decreases s.len(),
{
    if k < s.len() {
        lemma_prefix_value(s.drop_last(), radix, k);
        assert(s.drop_last().take(k) =~= s.take(k));
        let v = digits_value(s.drop_last(), radix);
        assert(v <= v * radix) by (nonlinear_arith)
            requires
                radix >= 1,
        ;
    } else {
        assert(s.take(k) =~= s);
    }
}

/// Reads the number that `s` writes in `radix`, at most `max`.
pub fn read_number(s: &str, radix: u32, max: u32) -> (r: Result<u32, NumberFault>)
    requires
        2 <= radix <= 16,
    ensures
        match r {
            Ok(v) => number(s@, radix as nat, max as nat) == Ok::<nat, NumberFault>(v as nat),
            Err(f) => number(s@, radix as nat, max as nat) == Err::<nat, NumberFault>(f),
        },
{
    let v = chars(s);
    if v.len() == 0 {
        return Err(NumberFault::Empty);
    }
    let start: usize = if v.len() > 1 && v[0] == '+' {
        1
    } else {
        0
    };
    let ghost body = unsigned(s@);
    assert(body =~= v@.skip(start as int));
    let mut acc: u32 = 0;
    let mut i: usize = start;
    assert(body.take(0) =~= Seq::<char>::empty());
    while i < v.len()
        invariant
            v@ == s@,
            s@.len() > 0,
            start <= i <= v@.len(),
            2 <= radix <= 16,
            body == unsigned(s@),
            body == v@.skip(start as int),
            acc <= max,
            acc == digits_value(body.take(i - start), radix as nat),
            all_digits(body.take(i - start), radix as nat),
        decreases v@.len() - i,
    {
        let c: char = v[i];
        proof {
            lemma_digit_run(body, radix as nat);
            assert(body[i - start] == c);
            assert forall|k: int| 0 <= k < i - start implies digit_value(
                #[trigger] body[k],
                radix as nat,
            ) is Some by {
                assert(body.take(i - start)[k] == body[k]);
            }
            assert(body.take(i + 1 - start).drop_last() =~= body.take(i - start));
            assert(body.take(i + 1 - start).last() == c);
        }
        match digit_of(c, radix) {
            None => {
                assert(digit_run(body, radix as nat) == i - start);
                return Err(NumberFault::InvalidDigit);
            },
            Some(d) => {
                let wide: u64 = acc as u64;
                assert(wide * radix <= 0xffff_ffff * 16) by (nonlinear_arith)
                    requires
                        wide <= 0xffff_ffff,
                        radix <= 16,
                ;
                let next: u64 = wide * (radix as u64) + d as u64;
                assert(next == digits_value(body.take(i + 1 - start), radix as nat));
                if next > max as u64 {
                    proof {
                        let run = body.take(digit_run(body, radix as nat));
                        lemma_prefix_value(run, radix as nat, i + 1 - start);
                        assert(run.take(i + 1 - start) =~= body.take(i + 1 - start));
                    }
                    return Err(NumberFault::TooLarge);
                }
                acc = next as u32;
                assert forall|k: int| 0 <= k < i + 1 - start implies digit_value(
                    #[trigger] body.take(i + 1 - start)[k],
                    radix as nat,
                ) is Some by {
                    if k < i - start {
                        assert(body.take(i - start)[k] == body[k]);
                    }
                }
            },
        }
        i = i + 1;
    }
    proof {
        assert(body.take(i - start) =~= body);
        lemma_digit_run(body, radix as nat);
        assert(digit_run(body, radix as nat) == body.len());
        assert(body.take(digit_run(body, radix as nat)) =~= body);
    }
    Ok(acc)
}

/// A number that was read is within the bound.
pub proof fn lemma_number_bound(s: Seq<char>, radix: nat, max: nat)
    ensures
        number(s, radix, max) matches Ok(n) ==> n <= max,
{
    let body = unsigned(s);
    lemma_digit_run(body, radix);
    if digit_run(body, radix) == body.len() {
        assert(body.take(digit_run(body, radix)) =~= body);
    }
}

/// The standard library's wording of a fault in an unsigned number.
pub open spec fn fault_text(f: NumberFault) -> Seq<char> {
    match f {
        NumberFault::Empty => "cannot parse integer from empty string"@,
        NumberFault::InvalidDigit => "invalid digit found in string"@,
        NumberFault::TooLarge => "number too large to fit in target type"@,
    }
}

impl NumberFault {
    /// The wording of the fault.
    pub fn message(&self) -> (s: String)
        ensures
            s@ == fault_text(*self),
    {
        match self {
            NumberFault::Empty => "cannot parse integer from empty string".to_owned(),
            NumberFault::InvalidDigit => "invalid digit found in string".to_owned(),
            NumberFault::TooLarge => "number too large to fit in target type".to_owned(),
        }
    }
}

/// Facts about decimal writing: it is made of digits, starts with a zero only
/// for zero itself, and its digits write the number.
pub proof fn lemma_decimal(n: nat)
    ensures
        decimal(n).len() >= 1,
        all_digits(decimal(n), 10),
        digits_value(decimal(n), 10) == n,
        decimal(n)[0] == '0' ==> n == 0,
        forall|i: int| 0 <= i < decimal(n).len() ==> '0' <= #[trigger] decimal(n)[i] <= '9',
    decreases n,
{
    if n >= 10 {
        lemma_decimal(n / 10);
        let head = decimal(n / 10);
        let d = digit((n % 10) as int);
        assert(decimal(n).drop_last() =~= head);
        assert(digit_value(d, 10) == Some((n % 10) as nat));
        assert(decimal(n)[0] == head[0]);
        assert(decimal(n).last() == d);
        assert forall|i: int| 0 <= i < decimal(n).len() implies digit_value(
            #[trigger] decimal(n)[i],
            10,
        ) is Some && '0' <= decimal(n)[i] <= '9' by {
            if i < head.len() {
                assert(decimal(n)[i] == head[i]);
            }
        }
    } else {
        let s = decimal(n);
        assert(s.drop_last() =~= Seq::<char>::empty());
        assert(digit_value(s[0], 10) == Some(n));
        assert(digits_value(s.drop_last(), 10) == 0);
        assert(s.last() == s[0]);
    }
}

/// Reading back what was written in decimal gives the number, where it is
/// within the bound.
pub proof fn law_decimal_reads_back(n: nat, max: nat)
    requires
        n <= max,
    ensures
        number(decimal(n), 10, max) == Ok::<nat, NumberFault>(n),
{
    lemma_decimal(n);
    let s = decimal(n);
    assert(unsigned(s) == s);
    lemma_digit_run(s, 10);
    assert(digit_run(s, 10) == s.len());
    assert(s.take(digit_run(s, 10)) =~= s);
}

/// Digits without a leading zero are the decimal writing of their value.
pub proof fn lemma_decimal_of_digits(s: Seq<char>)
    requires
        s.len() >= 1,
        forall|i: int| 0 <= i < s.len() ==> '0' <= #[trigger] s[i] <= '9',
        s.len() == 1 || s[0] != '0',
    ensures
        decimal(digits_value(s, 10)) == s,
        s[0] != '0' ==> digits_value(s, 10) > 0,
    decreases s.len(),
{
    let last = s.last();
    let d = digit_value(last, 10).unwrap_or(0);
    assert(digit(d as int) == last);
    if s.len() == 1 {
        assert(digits_value(s.drop_last(), 10) == 0);
        assert(s =~= seq![last]);
    } else {
        let head = s.drop_last();
        assert forall|i: int| 0 <= i < head.len() implies '0' <= #[trigger] head[i] <= '9' by {
            assert(head[i] == s[i]);
        }
        assert(head[0] == s[0]);
        lemma_decimal_of_digits(head);
        let v = digits_value(head, 10);
        assert(digits_value(s, 10) == v * 10 + d);
        assert((v * 10 + d) / 10 == v);
        assert((v * 10 + d) % 10 == d);
        assert(s =~= head.push(last));
    }
}

/// A digit below sixteen, in lower case.
pub open spec fn hex_digit(n: int) -> char {
    if n < 10 {
        (48 + n) as char
    } else {
        (87 + n) as char
    }
}

/// A byte as two hexadecimal digits in lower case.
pub open spec fn hex_byte(b: u8) -> Seq<char> {
    seq![hex_digit(b as int / 16), hex_digit(b as int % 16)]
}

fn hex_char(n: u8) -> (c: char)
    requires
        n < 16,
    ensures
        c == hex_digit(n as int),
{
    if n < 10 {
        (48u8 + n) as char
    } else {
        (87u8 + n) as char
    }
}

/// A byte as two hexadecimal digits in lower case.
pub fn hex_text(b: u8) -> (s: String)
    ensures
        s@ == hex_byte(b),
{
    let mut s = String::new();
    s.push(hex_char(b / 16));
    s.push(hex_char(b % 16));
    assert(s@ =~= hex_byte(b));
    s
}

/// Two hexadecimal digits are read as the byte that they were written for.
pub proof fn law_hex_reads_back(b: u8)
    ensures
        number(hex_byte(b), 16, 255) == Ok::<nat, NumberFault>(b as nat),
        !hex_byte(b).contains(':'),
{
    let s = hex_byte(b);
    let hi = b as int / 16;
    let lo = b as int % 16;
    assert(digit_value(s[0], 16) == Some(hi as nat));
    assert(digit_value(s[1], 16) == Some(lo as nat));
    reveal_with_fuel(digit_run, 3);
    reveal_with_fuel(digits_value, 3);
    assert(s.skip(1)[0] == s[1]);
    assert(s.skip(1).skip(1).len() == 0);
    assert(digit_run(s, 16) == 2);
    assert(s.take(2) =~= s);
    assert(s.drop_last() =~= seq![s[0]]);
    assert(s.drop_last().drop_last().len() == 0);
    assert(digits_value(s, 16) == hi * 16 + lo);
}

} // verus!
