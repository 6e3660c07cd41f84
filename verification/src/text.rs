use vstd::prelude::*;

verus! {

/// The character for digit `d` (`0`-`9`, then `A`-`F`).
pub open spec fn digit_char(d: nat) -> char {
    if d < 10 {
        (48 + d) as char
    } else {
        (55 + d) as char
    }
}

/// `n` written in base `b` with no leading zeros (`0` for zero).
pub open spec fn spec_radix(n: nat, b: nat) -> Seq<char>
    decreases n,
{
    if b < 2 || n < b {
        seq![digit_char(n)]
    } else {
        proof {
            assert(n / b < n) by (nonlinear_arith)
                requires
                    b >= 2,
                    n >= b,
            ;
        }
        spec_radix(n / b, b).push(digit_char(n % b))
    }
}

/// Decimal text of an unsigned number.
pub open spec fn spec_decimal_u64(n: u64) -> Seq<char> {
    spec_radix(n as nat, 10)
}

/// Decimal text of a signed number, with a leading `-` when negative.
pub open spec fn spec_decimal_i64(n: i64) -> Seq<char> {
    if n < 0 {
        seq!['-'] + spec_radix((-n) as nat, 10)
    } else {
        spec_radix(n as nat, 10)
    }
}

/// Upper-case hexadecimal text of `n`, left-padded with zeros to `width`.
pub open spec fn spec_hex_padded(n: nat, width: nat) -> Seq<char> {
    let h = spec_radix(n, 16);
    if h.len() >= width {
        h
    } else {
        Seq::new((width - h.len()) as nat, |i: int| '0') + h
    }
}

/// The one-character text of digit `d`.
pub fn digit_str(d: u64) -> (s: &'static str)
    requires
        d < 16,
    ensures
        s@ == seq![digit_char(d as nat)],
{
    if d == 0 {
        proof {
            reveal_strlit("0");
        }
        "0"
    } else if d == 1 {
        proof {
            reveal_strlit("1");
        }
        "1"
    } else if d == 2 {
        proof {
            reveal_strlit("2");
        }
        "2"
    } else if d == 3 {
        proof {
            reveal_strlit("3");
        }
        "3"
    } else if d == 4 {
        proof {
            reveal_strlit("4");
        }
        "4"
    } else if d == 5 {
        proof {
            reveal_strlit("5");
        }
        "5"
    } else if d == 6 {
        proof {
            reveal_strlit("6");
        }
        "6"
    } else if d == 7 {
        proof {
            reveal_strlit("7");
        }
        "7"
    } else if d == 8 {
        proof {
            reveal_strlit("8");
        }
        "8"
    } else if d == 9 {
        proof {
            reveal_strlit("9");
        }
        "9"
    } else if d == 10 {
        proof {
            reveal_strlit("A");
        }
        "A"
    } else if d == 11 {
        proof {
            reveal_strlit("B");
        }
        "B"
    } else if d == 12 {
        proof {
            reveal_strlit("C");
        }
        "C"
    } else if d == 13 {
        proof {
            reveal_strlit("D");
        }
        "D"
    } else if d == 14 {
        proof {
            reveal_strlit("E");
        }
        "E"
    } else {
        proof {
            reveal_strlit("F");
        }
        "F"
    }
}

/// Append `n` in base `b` (`b` is 10 or 16).
pub fn push_radix(s: &mut String, n: u64, b: u64)
    requires
        b == 10 || b == 16,
    ensures
        final(s)@ == old(s)@ + spec_radix(n as nat, b as nat),
    decreases n,
{
    if n >= b {
        push_radix(s, n / b, b);
        s.append(digit_str(n % b));
    } else {
        s.append(digit_str(n));
    }
}

/// Append the decimal text of an unsigned number.
pub fn push_decimal_u64(s: &mut String, n: u64)
    ensures
        final(s)@ == old(s)@ + spec_decimal_u64(n),
{
    push_radix(s, n, 10);
}

/// Append the decimal text of a signed number.
pub fn push_decimal_i64(s: &mut String, n: i64)
    ensures
        final(s)@ == old(s)@ + spec_decimal_i64(n),
{
    if n < 0 {
        let ghost s0 = s@;
        proof {
            reveal_strlit("-");
        }
        s.append("-");
        let m: u64 = if n == i64::MIN {
            9223372036854775808u64
        } else {
            (-n) as u64
        };
        push_radix(s, m, 10);
        assert(s@ =~= s0 + (seq!['-'] + spec_radix((-n) as nat, 10)));
    } else {
        push_radix(s, n as u64, 10);
    }
}

/// Append `n` in upper-case hexadecimal, left-padded with zeros to `width`.
pub fn push_hex_padded(s: &mut String, n: u64, width: usize)
    ensures
        final(s)@ == old(s)@ + spec_hex_padded(n as nat, width as nat),
{
    let ghost s0 = s@;
    let mut digits = String::new();
    push_radix(&mut digits, n, 16);
    let len = digits.as_str().unicode_len();
    let mut pad = width.saturating_sub(len);
    let ghost h = spec_radix(n as nat, 16);
    while pad > 0
        invariant
            digits@ == h,
            len == h.len(),
            pad <= width,
            width >= len ==> pad <= width - len,
            width >= len ==> s@ =~= s0 + Seq::new((width - len - pad) as nat, |i: int| '0'),
            width < len ==> pad == 0 && s@ == s0,
        decreases pad,
    {
        proof {
            reveal_strlit("0");
        }
        let ghost before = s@;
        s.append("0");
        pad = pad - 1;
        assert(Seq::new((width - len - pad) as nat, |i: int| '0') =~= Seq::new(
            (width - len - pad - 1) as nat,
            |i: int| '0',
        ).push('0'));
    }
    s.append(digits.as_str());
}

/// `0x` followed by the byte in upper-case hexadecimal, two digits.
pub open spec fn spec_hex_byte(b: u8) -> Seq<char> {
    "0x"@ + spec_hex_padded(b as nat, 2)
}

/// Append `0x` and the byte in upper-case hexadecimal, two digits.
pub fn push_hex_byte(s: &mut String, b: u8)
    ensures
        final(s)@ == old(s)@ + spec_hex_byte(b),
{
    let ghost s0 = s@;
    s.append("0x");
    push_hex_padded(s, b as u64, 2);
    assert(s@ =~= s0 + ("0x"@ + spec_hex_padded(b as nat, 2)));
}

/// Text from a string literal.
pub fn text(lit: &str) -> (s: String)
    ensures
        s@ == lit@,
{
    String::from_str(lit)
}

} // verus!
