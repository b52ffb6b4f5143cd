use vstd::prelude::*;
use vstd::string::StrSliceExecFns;
use crate::error::IntErrorKind;

verus! {

pub open spec fn is_digit(c: char) -> bool {
    '0' <= c <= '9'
}

pub open spec fn digit_value(c: char) -> int {
    c as int - '0' as int
}

pub open spec fn all_digits(s: Seq<char>) -> bool {
    forall|i: int| 0 <= i < s.len() ==> is_digit(#[trigger] s[i])
}

/// The number written by a sequence of decimal digits.
pub open spec fn digits_value(s: Seq<char>) -> nat
    decreases s.len(),
{
    if s.len() == 0 {
        0
    } else {
        (digits_value(s.drop_last()) * 10 + digit_value(s.last())) as nat
    }
}

/// Reading a `u8` from text: an optional `+`, then one or more decimal digits of a value
/// that fits.
pub open spec fn parse_u8_spec(s: Seq<char>) -> Result<u8, IntErrorKind> {
    if s.len() == 0 {
        Err(IntErrorKind::Empty)
    } else {
        let d = if s[0] == '+' {
            s.drop_first()
        } else {
            s
        };
        if d.len() == 0 || !all_digits(d) {
            Err(IntErrorKind::InvalidDigit)
        } else if digits_value(d) > 255 {
            Err(IntErrorKind::PosOverflow)
        } else {
            Ok(digits_value(d) as u8)
        }
    }
}

pub open spec fn digit_char(n: nat) -> char {
    ((n + 48) as u8) as char
}

/// The decimal digits of a number, without leading zeros.
pub open spec fn decimal(n: nat) -> Seq<char>
    decreases n,
{
    if n < 10 {
        seq![digit_char(n)]
    } else {
        decimal(n / 10).push(digit_char(n % 10))
    }
}

/// Relies on `String::push`: the character is appended at the end.
#[verifier::external_body]
pub(crate) fn push_char(s: &mut String, c: char)
    ensures
        final(s)@ == old(s)@.push(c),
{
    s.push(c)
}

/// The characters of a string, one by one.
pub fn chars_of(s: &str) -> (r: Vec<char>)
    ensures
        r@ == s@,
{
    let n = s.unicode_len();
    let mut r: Vec<char> = Vec::new();
    let mut i: usize = 0;
    while i < n
        invariant
            n == s@.len(),
            0 <= i <= n,
            r@ == s@.subrange(0, i as int),
        decreases n - i,
    {
        let c = s.get_char(i);
        r.push(c);
        i = i + 1;
        assert(r@ =~= s@.subrange(0, i as int));
    }
    assert(r@ =~= s@);
    r
}

/// Read a `u8` from the characters `cs[lo..hi]`.
pub fn parse_u8(cs: &Vec<char>, lo: usize, hi: usize) -> (r: Result<u8, IntErrorKind>)
    requires
        lo <= hi <= cs@.len(),
    ensures
        r == parse_u8_spec(cs@.subrange(lo as int, hi as int)),
{
    let ghost s = cs@.subrange(lo as int, hi as int);
    if lo == hi {
        return Err(IntErrorKind::Empty);
    }
    let start: usize = if cs[lo] == '+' {
        lo + 1
    } else {
        lo
    };
    let ghost d = cs@.subrange(start as int, hi as int);
    assert(d =~= if s[0] == '+' {
        s.drop_first()
    } else {
        s
    });
    if start == hi {
        return Err(IntErrorKind::InvalidDigit);
    }
    let mut acc: u16 = 0;
    let mut i: usize = start;
    while i < hi
        invariant
            lo <= start <= i <= hi <= cs@.len(),
            d == cs@.subrange(start as int, hi as int),
            s == cs@.subrange(lo as int, hi as int),
            s.len() > 0,
            d == if s[0] == '+' {
                s.drop_first()
            } else {
                s
            },
            all_digits(cs@.subrange(start as int, i as int)),
            acc == if digits_value(cs@.subrange(start as int, i as int)) > 255 {
                256
            } else {
                digits_value(cs@.subrange(start as int, i as int))
            },
        decreases hi - i,
    {
        let c = cs[i];
        if c < '0' || c > '9' {
            assert(d[i - start] == c);
            assert(!is_digit(d[i - start]));
            assert(!all_digits(d));
            assert(s.len() > 0);
            return Err(IntErrorKind::InvalidDigit);
        }
        let ghost prev = cs@.subrange(start as int, i as int);
        let ghost next = cs@.subrange(start as int, i + 1);
        assert(next.drop_last() =~= prev);
        assert(next.last() == c);
        let x: u16 = (c as u32 - '0' as u32) as u16;
        if acc > 255 {
            assert(digits_value(next) > 255) by (nonlinear_arith)
                requires
                    digits_value(next) == digits_value(prev) * 10 + x,
                    digits_value(prev) > 255,
            ;
            acc = 256;
        } else {
            let v = acc * 10 + x;
            acc = if v > 255 {
                256
            } else {
                v
            };
        }
        i = i + 1;
    }
    assert(cs@.subrange(start as int, i as int) =~= d);
    if acc > 255 {
        Err(IntErrorKind::PosOverflow)
    } else {
        Ok(acc as u8)
    }
}

/// Append the decimal digits of `n` to `s`.
pub fn push_decimal(s: &mut String, n: u16)
    requires
        n < 1000,
    ensures
        final(s)@ == old(s)@ + decimal(n as nat),
{
    let ghost n0 = n as nat;
    if n >= 100 {
        push_char(s, ((n / 100) as u8 + 48) as char);
        push_char(s, (((n / 10) % 10) as u8 + 48) as char);
        push_char(s, ((n % 10) as u8 + 48) as char);
        assert(decimal(n0) =~= seq![digit_char(n0 / 100), digit_char((n0 / 10) % 10), digit_char(n0 % 10)]) by {
            assert(n0 / 10 / 10 == n0 / 100);
            reveal_with_fuel(decimal, 3);
        }
    } else if n >= 10 {
        push_char(s, ((n / 10) as u8 + 48) as char);
        push_char(s, ((n % 10) as u8 + 48) as char);
        assert(decimal(n0) =~= seq![digit_char(n0 / 10), digit_char(n0 % 10)]) by {
            reveal_with_fuel(decimal, 2);
        }
    } else {
        push_char(s, (n as u8 + 48) as char);
    }
    assert(final(s)@ =~= old(s)@ + decimal(n0));
}

/// Canonical digits (no sign, no leading zero) are what `decimal` writes for their value.
pub proof fn lemma_decimal_of_digits(d: Seq<char>)
    requires
        d.len() >= 1,
        all_digits(d),
        d[0] != '0',
    ensures
        digits_value(d) >= 1,
        d.len() >= 2 ==> digits_value(d) >= 10,
        decimal(digits_value(d)) == d,
    decreases d.len(),
{
    let x = digit_value(d.last());
    assert(is_digit(d[d.len() - 1]));
    assert(digit_char(x as nat) == d.last());
    if d.len() == 1 {
        assert(d.drop_last() =~= Seq::<char>::empty());
        assert(digits_value(d.drop_last()) == 0);
        assert(is_digit(d[0]));
        assert(decimal(digits_value(d)) =~= d);
    } else {
        let p = d.drop_last();
        assert(all_digits(p)) by {
            assert forall|i: int| 0 <= i < p.len() implies is_digit(#[trigger] p[i]) by {
                assert(p[i] == d[i]);
            }
        }
        lemma_decimal_of_digits(p);
        let v = digits_value(d);
        assert(v == digits_value(p) * 10 + x);
        assert(v / 10 == digits_value(p) && v % 10 == x) by (nonlinear_arith)
            requires
                v == digits_value(p) * 10 + x,
                0 <= x < 10,
        ;
        assert(d =~= p.push(d.last()));
    }
}

/// What `decimal` writes is canonical digits that read back as the number.
pub proof fn lemma_digits_of_decimal(n: nat)
    ensures
        decimal(n).len() >= 1,
        all_digits(decimal(n)),
        digits_value(decimal(n)) == n,
        decimal(n)[0] != '+',
        n >= 1 ==> decimal(n)[0] != '0',
    decreases n,
{
    if n < 10 {
        let d = decimal(n);
        assert(d =~= seq![digit_char(n)]);
        assert(d.drop_last() =~= Seq::<char>::empty());
        assert(digits_value(d.drop_last()) == 0);
    } else {
        let q = n / 10;
        let d = decimal(n);
        lemma_digits_of_decimal(q);
        assert(d.drop_last() =~= decimal(q));
        assert(d[0] == decimal(q)[0]);
        assert(n == q * 10 + n % 10);
        assert forall|i: int| 0 <= i < d.len() implies is_digit(#[trigger] d[i]) by {
            if i < d.len() - 1 {
                assert(d[i] == decimal(q)[i]);
            }
        }
    }
}

} // verus!
