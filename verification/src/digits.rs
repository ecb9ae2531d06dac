// The text of numbers: decimal digits, signed decimals and fixed-width
// lowercase hexadecimal, as `Display` and `LowerHex` write them.
use vstd::prelude::*;
use crate::disasm::{hex4, hex_digit};
use crate::pass::cps_rewrite::rewrite_01_inlining::{decimal, digit_char};
use vstd::string::StringExecFns;

verus! {

/// Append the hexadecimal digit `d` (a decimal digit when below ten).
fn push_digit(out: &mut String, d: u32)
    requires
        d < 16,
    ensures
        final(out)@ == old(out)@.push(hex_digit(d as int)),
{
    let ghost o = out@;
    if d == 0 {
        out.append("0");
        proof {
            reveal_strlit("0");
        }
    } else if d == 1 {
        out.append("1");
        proof {
            reveal_strlit("1");
        }
    } else if d == 2 {
        out.append("2");
        proof {
            reveal_strlit("2");
        }
    } else if d == 3 {
        out.append("3");
        proof {
            reveal_strlit("3");
        }
    } else if d == 4 {
        out.append("4");
        proof {
            reveal_strlit("4");
        }
    } else if d == 5 {
        out.append("5");
        proof {
            reveal_strlit("5");
        }
    } else if d == 6 {
        out.append("6");
        proof {
            reveal_strlit("6");
        }
    } else if d == 7 {
        out.append("7");
        proof {
            reveal_strlit("7");
        }
    } else if d == 8 {
        out.append("8");
        proof {
            reveal_strlit("8");
        }
    } else if d == 9 {
        out.append("9");
        proof {
            reveal_strlit("9");
        }
    } else if d == 10 {
        out.append("a");
        proof {
            reveal_strlit("a");
        }
    } else if d == 11 {
        out.append("b");
        proof {
            reveal_strlit("b");
        }
    } else if d == 12 {
        out.append("c");
        proof {
            reveal_strlit("c");
        }
    } else if d == 13 {
        out.append("d");
        proof {
            reveal_strlit("d");
        }
    } else if d == 14 {
        out.append("e");
        proof {
            reveal_strlit("e");
        }
    } else if d == 15 {
        out.append("f");
        proof {
            reveal_strlit("f");
        }
    }
    assert(out@ =~= o.push(hex_digit(d as int)));
}

/// The decimal digits of `n`, most significant first, with no sign or
/// padding.
pub fn decimal_text(n: u128) -> (r: String)
    ensures
        r@ == decimal(n as nat),
    decreases n,
{
    if n < 10 {
        let mut s = String::new();
        push_digit(&mut s, n as u32);
        assert(hex_digit(n as int) == digit_char(n as nat));
        assert(s@ =~= decimal(n as nat));
        s
    } else {
        let mut s = decimal_text(n / 10);
        let d = (n % 10) as u32;
        push_digit(&mut s, d);
        assert(hex_digit(d as int) == digit_char((n as nat) % 10));
        s
    }
}

/// A minus sign when `v` is negative, then the decimal digits of its
/// magnitude.
pub fn signed_text(v: i128) -> (r: String)
    ensures
        r@ == (if v < 0 {
            "-"@ + decimal((-v) as nat)
        } else {
            decimal(v as nat)
        }),
{
    if v < 0 {
        let m: u128 = ((-(v + 1)) as u128) + 1;
        let mut s = String::from_str("-");
        let d = decimal_text(m);
        s.append(d.as_str());
        s
    } else {
        decimal_text(v as u128)
    }
}

/// Four lowercase hexadecimal digits, zero-padded.
pub fn hex4_text(v: u16) -> (r: String)
    ensures
        r@ == hex4(v),
{
    let mut s = String::new();
    push_digit(&mut s, (v / 4096) as u32);
    push_digit(&mut s, ((v / 256) % 16) as u32);
    push_digit(&mut s, ((v / 16) % 16) as u32);
    push_digit(&mut s, (v % 16) as u32);
    assert(s@ =~= hex4(v));
    s
}

/// Two lowercase hexadecimal digits, zero-padded.
pub fn hex2_text(b: u8) -> (r: String)
    ensures
        r@ == seq![hex_digit(b as int / 16), hex_digit(b as int % 16)],
{
    let mut s = String::new();
    push_digit(&mut s, (b / 16) as u32);
    push_digit(&mut s, (b % 16) as u32);
    assert(s@ =~= seq![hex_digit(b as int / 16), hex_digit(b as int % 16)]);
    s
}

} // verus!
