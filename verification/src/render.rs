//! Text-rendering primitives: lower-case hexadecimal with zero padding,
//! decimal with an optional sign, and space padding, each with an exact
//! specification of the characters produced.

use vstd::prelude::*;
use vstd::string::StringExecFns;

verus! {

/// The character for one digit value below 16.
pub open spec fn hex_digit(d: nat) -> char {
    if d == 0 {
        '0'
    } else if d == 1 {
        '1'
    } else if d == 2 {
        '2'
    } else if d == 3 {
        '3'
    } else if d == 4 {
        '4'
    } else if d == 5 {
        '5'
    } else if d == 6 {
        '6'
    } else if d == 7 {
        '7'
    } else if d == 8 {
        '8'
    } else if d == 9 {
        '9'
    } else if d == 10 {
        'a'
    } else if d == 11 {
        'b'
    } else if d == 12 {
        'c'
    } else if d == 13 {
        'd'
    } else if d == 14 {
        'e'
    } else {
        'f'
    }
}

/// Lower-case hexadecimal rendering of `n`, zero-padded on the left to at
/// least `width` digits: the shape of Rust's `{:0Nx}` formatting.
pub open spec fn hex_rep(n: nat, width: nat) -> Seq<char>
    decreases n, width,
{
    if n < 16 && width <= 1 {
        seq![hex_digit(n)]
    } else {
        hex_rep(n / 16, if width == 0 {
            0
        } else {
            (width - 1) as nat
        }).push(hex_digit(n % 16))
    }
}

/// Decimal rendering of `n`, most significant digit first, no padding.
pub open spec fn dec_rep(n: nat) -> Seq<char>
    decreases n,
{
    if n < 10 {
        seq![hex_digit(n)]
    } else {
        dec_rep(n / 10).push(hex_digit(n % 10))
    }
}

/// Decimal rendering of a signed 16-bit value, with a `-` sign when the
/// value is negative: the shape of Rust's `{}` formatting of an `i16`.
pub open spec fn dec_rep_i16(v: i16) -> Seq<char> {
    if v < 0 {
        seq!['-'] + dec_rep((-(v as int)) as nat)
    } else {
        dec_rep(v as nat)
    }
}

/// `n` space characters.
pub open spec fn spaces(n: nat) -> Seq<char>
    decreases n,
{
    if n == 0 {
        Seq::empty()
    } else {
        spaces((n - 1) as nat).push(' ')
    }
}

/// 16 to the power `w`: the count of `w`-digit hexadecimal values.
pub open spec fn pow16(w: nat) -> nat
    decreases w,
{
    if w == 0 {
        1
    } else {
        16 * pow16((w - 1) as nat)
    }
}

/// A value below `16^width` renders in exactly `width` hex digits when
/// padded to `width`.
pub proof fn lemma_hex_rep_len(n: nat, width: nat)
    requires
        1 <= width,
        n < pow16(width),
    ensures
        hex_rep(n, width).len() == width,
    decreases width,
{
    if width == 1 {
        assert(hex_rep(n, 1) == seq![hex_digit(n)]);
    } else {
        assert(n / 16 < pow16((width - 1) as nat)) by (nonlinear_arith)
            requires
                n < 16 * pow16((width - 1) as nat),
        ;
        lemma_hex_rep_len(n / 16, (width - 1) as nat);
    }
}

/// One hex digit as a one-character string slice.
pub fn hex_digit_str(d: u8) -> (r: &'static str)
    requires
        d < 16,
    ensures
        r@ == seq![hex_digit(d as nat)],
{
    proof {
        reveal_strlit("0");
        reveal_strlit("1");
        reveal_strlit("2");
        reveal_strlit("3");
        reveal_strlit("4");
        reveal_strlit("5");
        reveal_strlit("6");
        reveal_strlit("7");
        reveal_strlit("8");
        reveal_strlit("9");
        reveal_strlit("a");
        reveal_strlit("b");
        reveal_strlit("c");
        reveal_strlit("d");
        reveal_strlit("e");
        reveal_strlit("f");
    }
    let r: &'static str = if d == 0 {
        "0"
    } else if d == 1 {
        "1"
    } else if d == 2 {
        "2"
    } else if d == 3 {
        "3"
    } else if d == 4 {
        "4"
    } else if d == 5 {
        "5"
    } else if d == 6 {
        "6"
    } else if d == 7 {
        "7"
    } else if d == 8 {
        "8"
    } else if d == 9 {
        "9"
    } else if d == 10 {
        "a"
    } else if d == 11 {
        "b"
    } else if d == 12 {
        "c"
    } else if d == 13 {
        "d"
    } else if d == 14 {
        "e"
    } else {
        "f"
    };
    proof {
        assert(r@ =~= seq![hex_digit(d as nat)]);
    }
    r
}

/// Lower-case hexadecimal rendering of `n`, zero-padded to at least `width`
/// digits.
pub fn hex_str(n: u64, width: usize) -> (r: String)
    ensures
        r@ == hex_rep(n as nat, width as nat),
    decreases n, width,
{
    if n < 16 && width <= 1 {
        String::from_str(hex_digit_str(n as u8))
    } else {
        let narrower: usize = if width == 0 {
            0
        } else {
            width - 1
        };
        let mut s = hex_str(n / 16, narrower);
        s.append(hex_digit_str((n % 16) as u8));
        proof {
            assert(s@ =~= hex_rep(n as nat, width as nat));
        }
        s
    }
}

/// Decimal rendering of `n`, no padding.
pub fn dec_str(n: u64) -> (r: String)
    ensures
        r@ == dec_rep(n as nat),
    decreases n,
{
    if n < 10 {
        String::from_str(hex_digit_str(n as u8))
    } else {
        let mut s = dec_str(n / 10);
        s.append(hex_digit_str((n % 10) as u8));
        proof {
            assert(s@ =~= dec_rep(n as nat));
        }
        s
    }
}

/// Decimal rendering of a signed 16-bit value, `-`-prefixed when negative.
pub fn dec_str_i16(v: i16) -> (r: String)
    ensures
        r@ == dec_rep_i16(v),
{
    if v < 0 {
        let wide: i32 = v as i32;
        let mag: u64 = (0 - wide) as u64;
        let mut s = String::from_str("-");
        let digits = dec_str(mag);
        s.append(digits.as_str());
        proof {
            reveal_strlit("-");
            assert(s@ =~= dec_rep_i16(v));
        }
        s
    } else {
        dec_str(v as u64)
    }
}

} // verus!
