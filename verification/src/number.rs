//! Numbers written as digits, and read back.

use vstd::prelude::*;

verus! {

/// The value of `c` as a digit in the given radix.
pub open spec fn digit_value(c: char, radix: nat) -> Option<nat> {
    let value = if '0' <= c <= '9' {
        c as nat - '0' as nat
    } else if 'a' <= c <= 'z' {
        c as nat - 'a' as nat + 10
    } else if 'A' <= c <= 'Z' {
        c as nat - 'A' as nat + 10
    } else {
        radix as int
    };
    if value < radix {
        Some(value as nat)
    } else {
        None
    }
}

/// The value of a run of digits, most significant first.
pub open spec fn digits_value(s: Seq<char>, radix: nat) -> Option<nat>
    decreases s.len(),
{
    if s.len() == 0 {
        Some(0)
    } else {
        match (digits_value(s.drop_last(), radix), digit_value(s.last(), radix)) {
            (Some(high), Some(low)) => Some(high * radix + low),
            _ => None,
        }
    }
}

/// The digits of a number: `s` without the one `+` that may stand before them.
pub open spec fn unsigned_part(s: Seq<char>) -> Seq<char> {
    if s.len() > 1 && s[0] == '+' {
        s.skip(1)
    } else {
        s
    }
}

/// The number no greater than `max` that `s` writes: one digit or more, after a `+` or not.
pub open spec fn parse_number(s: Seq<char>, radix: nat, max: nat) -> Option<nat> {
    if s.len() == 0 {
        None
    } else {
        match digits_value(unsigned_part(s), radix) {
            Some(value) => if value <= max {
                Some(value)
            } else {
                None
            },
            None => None,
        }
    }
}

/// The digit, in lower case, for a value below 36.
pub open spec fn digit_char(value: nat) -> char {
    if value < 10 {
        ('0' as nat + value) as char
    } else {
        ('a' as nat + value - 10) as char
    }
}

/// The digits of `n`, most significant first, without leading zeros.
pub open spec fn digits_of(n: nat, radix: nat) -> Seq<char>
    decreases n,
{
    if radix < 2 {
        seq![]
    } else if n < radix {
        seq![digit_char(n)]
    } else {
        proof {
            assert(n / radix < n) by (nonlinear_arith)
                requires
                    n >= radix >= 2,
            ;
        }
        digits_of(n / radix, radix).push(digit_char(n % radix))
    }
}

/// `n` in decimal.
pub open spec fn decimal(n: nat) -> Seq<char> {
    digits_of(n, 10)
}

/// `n` in hexadecimal, in lower case.
pub open spec fn hexadecimal(n: nat) -> Seq<char> {
    digits_of(n, 16)
}

/// The value of `c` as a digit in the given radix.
fn digit(c: char, radix: u64) -> (value: Option<u64>)
    requires
        2 <= radix <= 36,
    ensures
        match value {
            Some(v) => digit_value(c, radix as nat) == Some(v as nat),
            None => digit_value(c, radix as nat) is None,
        },
{
    let value: u64 = if '0' <= c && c <= '9' {
        c as u64 - '0' as u64
    } else if 'a' <= c && c <= 'z' {
        c as u64 - 'a' as u64 + 10
    } else if 'A' <= c && c <= 'Z' {
        c as u64 - 'A' as u64 + 10
    } else {
        radix
    };
    if value < radix {
        Some(value)
    } else {
        None
    }
}

/// A run of digits is worth at least what its beginning is worth.
proof fn lemma_digits_value_grows(s: Seq<char>, k: int, radix: nat)
    requires
        0 <= k <= s.len(),
        radix >= 1,
    ensures
        digits_value(s, radix) is Some ==> digits_value(s.take(k), radix) is Some
            && digits_value(s.take(k), radix)->0 <= digits_value(s, radix)->0,
    decreases s.len(),
{
    if k == s.len() {
        assert(s.take(k) == s);
    } else {
        lemma_digits_value_grows(s.drop_last(), k, radix);
        assert(s.drop_last().take(k) == s.take(k));
        if digits_value(s, radix) is Some {
            let high = digits_value(s.drop_last(), radix)->0;
            assert(high <= high * radix) by (nonlinear_arith)
                requires
                    radix >= 1,
            ;
        }
    }
}

/// The number no greater than `max` that `chars` write in the given radix.
pub fn read_number(chars: &[char], radix: u64, max: u64) -> (number: Option<u64>)
    requires
        2 <= radix <= 36,
    ensures
        match number {
            Some(n) => parse_number(chars@, radix as nat, max as nat) == Some(n as nat),
            None => parse_number(chars@, radix as nat, max as nat) is None,
        },
{
    if chars.len() == 0 {
        return None;
    }
    let from: usize = if chars.len() > 1 && chars[0] == '+' {
        1
    } else {
        0
    };
    let ghost digits = unsigned_part(chars@);
    assert(chars@.skip(0) == chars@);
    assert(digits == chars@.skip(from as int));
    let mut value: u64 = 0;
    let mut i: usize = from;
    while i < chars.len()
        invariant
            2 <= radix <= 36,
            from <= i <= chars@.len(),
            digits == chars@.skip(from as int),
            digits == unsigned_part(chars@),
            chars@.len() > 0,
            value <= max,
            digits_value(digits.take(i - from), radix as nat) == Some(value as nat),
        decreases chars@.len() - i,
    {
        let ghost now = digits.take(i - from + 1);
        proof {
            assert(now.drop_last() == digits.take(i - from));
            assert(now.last() == chars@[i as int]);
            lemma_digits_value_grows(digits, i - from + 1, radix as nat);
        }
        let Some(low) = digit(chars[i], radix) else {
            return None;
        };
        let Some(shifted) = value.checked_mul(radix) else {
            return None;
        };
        let Some(next) = shifted.checked_add(low) else {
            return None;
        };
        if next > max {
            return None;
        }
        value = next;
        i += 1;
    }
    assert(digits.take(digits.len() as int) == digits);
    Some(value)
}

/// The digit, in lower case, for `value`.
fn digit_for(value: u64) -> (c: char)
    requires
        value < 36,
    ensures
        c == digit_char(value as nat),
{
    if value < 10 {
        ('0' as u8 + value as u8) as char
    } else {
        ('a' as u8 + (value - 10) as u8) as char
    }
}

/// Adds the digits of `n` to `text`.
pub fn push_digits(text: &mut String, n: u64, radix: u64)
    requires
        2 <= radix <= 36,
    ensures
        final(text)@ == old(text)@ + digits_of(n as nat, radix as nat),
    decreases n,
{
    if n < radix {
        text.push(digit_for(n));
    } else {
        proof {
            assert(n / radix < n) by (nonlinear_arith)
                requires
                    n >= radix >= 2,
            ;
        }
        push_digits(text, n / radix, radix);
        text.push(digit_for(n % radix));
    }
}

/// Adds `n` in decimal to `text`.
pub fn push_decimal(text: &mut String, n: u64)
    ensures
        final(text)@ == old(text)@ + decimal(n as nat),
{
    push_digits(text, n, 10)
}

/// Every digit below the radix reads as the value it was written for.
proof fn lemma_digit_round_trip(value: nat, radix: nat)
    requires
        value < radix <= 36,
    ensures
        digit_value(digit_char(value), radix) == Some(value),
        digit_char(value) != '+',
{
}

/// What is written as digits reads back as the same number.
proof fn lemma_digits_round_trip(n: nat, radix: nat)
    requires
        2 <= radix <= 36,
    ensures
        digits_value(digits_of(n, radix), radix) == Some(n),
        digits_of(n, radix).len() > 0,
        digits_of(n, radix)[0] != '+',
    decreases n,
{
    if n < radix {
        lemma_digit_round_trip(n, radix);
        let s = digits_of(n, radix);
        assert(s.drop_last() == Seq::<char>::empty());
        assert(digits_value(s.drop_last(), radix) == Some(0nat));
        assert(0 * radix == 0) by (nonlinear_arith);
    } else {
        assert(n / radix < n && (n / radix) * radix + n % radix == n) by (nonlinear_arith)
            requires
                n >= radix >= 2,
        ;
        lemma_digits_round_trip(n / radix, radix);
        lemma_digit_round_trip(n % radix, radix);
        let high = digits_of(n / radix, radix);
        let s = digits_of(n, radix);
        assert(s.drop_last() == high);
    }
}

/// Every digit of a number is a digit or a letter in lower case, so no white space and no sign.
pub proof fn lemma_digits_are_alphanumeric(n: nat, radix: nat)
    requires
        2 <= radix <= 36,
    ensures
        digits_of(n, radix).len() > 0,
        forall|i: int|
            0 <= i < digits_of(n, radix).len() ==> {
                ||| '0' <= #[trigger] digits_of(n, radix)[i] <= '9'
                ||| 'a' <= digits_of(n, radix)[i] <= 'z'
            },
    decreases n,
{
    if n >= radix {
        assert(n / radix < n) by (nonlinear_arith)
            requires
                n >= radix >= 2,
        ;
        lemma_digits_are_alphanumeric(n / radix, radix);
        assert(n % radix < radix) by (nonlinear_arith)
            requires
                radix >= 2,
        ;
        let high = digits_of(n / radix, radix);
        let s = digits_of(n, radix);
        assert forall|i: int| 0 <= i < s.len() implies {
            ||| '0' <= #[trigger] s[i] <= '9'
            ||| 'a' <= s[i] <= 'z'
        } by {
            if i < high.len() {
                assert(s[i] == high[i]);
            }
        }
    }
}

/// A number within bounds, written as digits, is read back as the same number.
pub proof fn law_number_round_trip(n: nat, radix: nat, max: nat)
    requires
        2 <= radix <= 36,
        n <= max,
    ensures
        parse_number(digits_of(n, radix), radix, max) == Some(n),
{
    lemma_digits_round_trip(n, radix);
}

/// The digits are the sixteen of hexadecimal numbers and, behind them, the other letters; one that
/// is a letter may be in upper case.
pub proof fn law_digits(value: nat, radix: nat)
    requires
        value < radix <= 36,
    ensures
        value < 10 ==> digit_char(value) as nat == 48 + value,
        value >= 10 ==> digit_char(value) as nat == 97 + (value - 10),
        digit_value(digit_char(value), radix) == Some(value),
        value >= 10 ==> digit_value((65 + (value - 10)) as char, radix) == Some(value),
        digit_value('+', radix) is None && digit_value('-', radix) is None,
        digit_value(' ', radix) is None && digit_value('.', radix) is None,
{
}

/// The value of digits, and of the digits behind them, is that of the first, shifted, and of the
/// second; where either holds something else than digits there is none.
pub proof fn law_digits_append(a: Seq<char>, c: char, radix: nat)
    ensures
        digits_value(a.push(c), radix) == match (digits_value(a, radix), digit_value(c, radix)) {
            (Some(high), Some(low)) => Some(high * radix + low),
            _ => None::<nat>,
        },
        digits_value(Seq::<char>::empty(), radix) == Some(0nat),
{
    assert(a.push(c).drop_last() == a);
}

/// A number is read where it is made of digits and is not too great, and only there; a `+` before
/// it changes nothing.
pub proof fn law_number_is_read(digits: Seq<char>, radix: nat, max: nat)
    requires
        digits.len() > 0,
        digits[0] != '+',
    ensures
        parse_number(digits, radix, max) == match digits_value(digits, radix) {
            Some(value) if value <= max => Some(value),
            _ => None::<nat>,
        },
        parse_number(seq!['+'] + digits, radix, max) == parse_number(digits, radix, max),
        parse_number(Seq::<char>::empty(), radix, max) is None,
{
    assert((seq!['+'] + digits).skip(1) == digits);
}

/// Zeros before the digits of a number do not change it.
pub proof fn law_leading_zero(digits: Seq<char>, radix: nat)
    requires
        radix >= 1,
    ensures
        digits_value(seq!['0'] + digits, radix) == digits_value(digits, radix),
    decreases digits.len(),
{
    let longer = seq!['0'] + digits;
    if digits.len() == 0 {
        assert(longer.drop_last() == Seq::<char>::empty());
        assert(digits_value(longer.drop_last(), radix) == Some(0nat));
        assert(0 * radix == 0) by (nonlinear_arith);
    } else {
        assert(longer.drop_last() == seq!['0'] + digits.drop_last());
        law_leading_zero(digits.drop_last(), radix);
    }
}

/// A number is written in digits of its radix, the first of which is zero for zero alone; so
/// different numbers are written differently.
pub proof fn law_number_is_written(n: nat, radix: nat)
    requires
        2 <= radix <= 36,
    ensures
        n < radix ==> digits_of(n, radix) == seq![digit_char(n)],
        n >= radix ==> digits_of(n, radix) == digits_of(n / radix, radix).push(
            digit_char(n % radix),
        ),
        digits_of(n, radix)[0] == '0' <==> n == 0,
        forall|m: nat| #[trigger] digits_of(m, radix) == digits_of(n, radix) ==> m == n,
    decreases n,
{
    if n >= radix {
        assert(n / radix < n && n / radix > 0) by (nonlinear_arith)
            requires
                n >= radix >= 2,
        ;
        law_number_is_written(n / radix, radix);
        lemma_digits_are_alphanumeric(n / radix, radix);
        assert(digits_of(n, radix)[0] == digits_of(n / radix, radix)[0]);
    }
    assert forall|m: nat| #[trigger] digits_of(m, radix) == digits_of(n, radix) implies m == n by {
        lemma_digits_round_trip(m, radix);
        lemma_digits_round_trip(n, radix);
    }
}

/// `n` in decimal is written with the digits from `0` to `9`, in hexadecimal with these and the
/// letters from `a` to `f`.
pub proof fn law_decimal_and_hexadecimal(n: nat)
    ensures
        n < 10 ==> decimal(n) == seq![(48 + n) as char],
        n >= 10 ==> decimal(n) == decimal(n / 10).push((48 + n % 10) as char),
        n < 10 ==> hexadecimal(n) == seq![(48 + n) as char],
        10 <= n < 16 ==> hexadecimal(n) == seq![(87 + n) as char],
        n >= 16 ==> hexadecimal(n) == hexadecimal(n / 16) + hexadecimal(n % 16),
{
    if n >= 16 {
        assert(hexadecimal(n / 16).push(digit_char(n % 16)) == hexadecimal(n / 16) + seq![
            digit_char(n % 16),
        ]);
    }
}

/// The address of a port of a host.
pub open spec fn socket_address(host: Seq<char>, port: u16) -> Seq<char> {
    host + ":"@ + decimal(port as nat)
}

/// The address of a port of a host is the host, a colon and the port, which can be read back from
/// it; so different ports have different addresses.
pub proof fn law_address_names_port(host: Seq<char>, port: u16, other: u16)
    ensures
        ({
            let address = socket_address(host, port);
            &&& address.len() > host.len() + 1
            &&& address.take(host.len() as int) == host
            &&& address[host.len() as int] == ':'
            &&& parse_number(address.skip(host.len() as int + 1), 10, u16::MAX as nat) == Some(
                port as nat,
            )
        }),
        socket_address(host, other) == socket_address(host, port) ==> other == port,
{
    reveal_strlit(":");
    lemma_digits_are_alphanumeric(port as nat, 10);
    let at = host.len() as int + 1;
    assert(socket_address(host, port).take(host.len() as int) == host);
    assert(socket_address(host, port).skip(at) == decimal(port as nat));
    assert(socket_address(host, other).skip(at) == decimal(other as nat));
    law_number_round_trip(port as nat, 10, u16::MAX as nat);
    law_number_round_trip(other as nat, 10, u16::MAX as nat);
}

} // verus!
