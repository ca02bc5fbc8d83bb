//! Colours are vectors: three fixed-point channels in `[0, 1]` of full
//! intensity — and the gamma-corrected, clamped, quantized pixel line
//! the PPM stream carries for each of them.

use vstd::prelude::*;
use vstd::string::StringExecFns;

use crate::interval::Interval;
use crate::num::{SCALE, tdiv, sqrt_floor, isqrt, div_trunc, lemma_sqrt_floor};
use crate::vec3::{Vec3, lemma_mul_bound};

verus! {

pub type Colour = Vec3;

/// Every channel within `[0, SCALE]`: a displayable linear colour.
pub open spec fn valid_colour(c: Colour) -> bool {
    0 <= c.x <= SCALE && 0 <= c.y <= SCALE && 0 <= c.z <= SCALE
}

/// Gamma correction: the square root of the linear channel, clamped at
/// zero, at `SCALE` resolution.
pub open spec fn sgamma(c: int) -> int {
    if c > 0 {
        sqrt_floor(c * SCALE)
    } else {
        0
    }
}

/// The emitted byte for a linear channel: gamma, an inclusive clamp
/// into `[0, 0.999]`, then truncation of `255.999` times the value.
pub open spec fn sbyte(c: int) -> int {
    let g = sgamma(c);
    let cl = if g < 0 {
        0
    } else if g > 999 {
        999
    } else {
        g
    };
    tdiv(255_999 * cl, 1_000_000)
}

/// The decimal digits of `n`, most significant first.
pub open spec fn dec_digits(n: nat) -> Seq<char>
    decreases n,
{
    if n < 10 {
        seq![digit_char(n)]
    } else {
        dec_digits(n / 10).push(digit_char(n % 10))
    }
}

pub open spec fn digit_char(d: nat) -> char {
    if d == 0 {
        '0'
    } else if d == 1 {
        '1'
    } else if d == 2 {
        '2'
    } else if d == 3 {
        '3'
    } else if d == 4 {
        '4'
    } else if d == 5 {
        '5'
    } else if d == 6 {
        '6'
    } else if d == 7 {
        '7'
    } else if d == 8 {
        '8'
    } else {
        '9'
    }
}

/// One PPM pixel line: `"<r> <g> <b>\n"`.
pub open spec fn pixel_line(r: nat, g: nat, b: nat) -> Seq<char> {
    dec_digits(r) + seq![' '] + dec_digits(g) + seq![' '] + dec_digits(b) + seq!['\n']
}

/// Append one decimal digit.
fn push_digit(s: &mut String, d: u64)
    requires
        d < 10,
    ensures
        final(s)@ == old(s)@ + seq![digit_char(d as nat)],
{
    match d {
        0 => {
            s.append("0");
            proof {
                reveal_strlit("0");
                assert(final(s)@ =~= old(s)@ + seq![digit_char(d as nat)]);
            }
        },
        1 => {
            s.append("1");
            proof {
                reveal_strlit("1");
                assert(final(s)@ =~= old(s)@ + seq![digit_char(d as nat)]);
            }
        },
        2 => {
            s.append("2");
            proof {
                reveal_strlit("2");
                assert(final(s)@ =~= old(s)@ + seq![digit_char(d as nat)]);
            }
        },
        3 => {
            s.append("3");
            proof {
                reveal_strlit("3");
                assert(final(s)@ =~= old(s)@ + seq![digit_char(d as nat)]);
            }
        },
        4 => {
            s.append("4");
            proof {
                reveal_strlit("4");
                assert(final(s)@ =~= old(s)@ + seq![digit_char(d as nat)]);
            }
        },
        5 => {
            s.append("5");
            proof {
                reveal_strlit("5");
                assert(final(s)@ =~= old(s)@ + seq![digit_char(d as nat)]);
            }
        },
        6 => {
            s.append("6");
            proof {
                reveal_strlit("6");
                assert(final(s)@ =~= old(s)@ + seq![digit_char(d as nat)]);
            }
        },
        7 => {
            s.append("7");
            proof {
                reveal_strlit("7");
                assert(final(s)@ =~= old(s)@ + seq![digit_char(d as nat)]);
            }
        },
        8 => {
            s.append("8");
            proof {
                reveal_strlit("8");
                assert(final(s)@ =~= old(s)@ + seq![digit_char(d as nat)]);
            }
        },
        _ => {
            s.append("9");
            proof {
                reveal_strlit("9");
                assert(final(s)@ =~= old(s)@ + seq![digit_char(d as nat)]);
            }
        },
    }
}

/// Append `n` in decimal, most significant digit first.
pub fn push_decimal(s: &mut String, n: u64)
    ensures
        final(s)@ == old(s)@ + dec_digits(n as nat),
    decreases n,
{
    if n >= 10 {
        push_decimal(s, n / 10);
    }
    push_digit(s, n % 10);
    proof {
        if n >= 10 {
            assert(final(s)@ =~= old(s)@ + dec_digits(n as nat));
        } else {
            assert(final(s)@ =~= old(s)@ + dec_digits(n as nat));
        }
    }
}

/// Append one space.
pub fn push_space(s: &mut String)
    ensures
        final(s)@ == old(s)@ + seq![' '],
{
    s.append(" ");
    proof {
        reveal_strlit(" ");
        assert(final(s)@ =~= old(s)@ + seq![' ']);
    }
}

/// Append one newline.
pub fn push_newline(s: &mut String)
    ensures
        final(s)@ == old(s)@ + seq!['\n'],
{
    s.append("\n");
    proof {
        reveal_strlit("\n");
        assert(final(s)@ =~= old(s)@ + seq!['\n']);
    }
}

/// Quantize one linear channel to its byte.
fn byte_of(c: i64) -> (b: i64)
    requires
        -1_000_000_000 <= c <= 1_000_000_000,
    ensures
        b == sbyte(c as int),
        0 <= b <= 255,
{
    let g: i64 = if c > 0 {
        proof {
            lemma_mul_bound(c as int, SCALE as int, 1_000_000_000, SCALE as int);
        }
        let q = isqrt((c as u128) * (SCALE as u128));
        proof {
            assert(q <= 1_000_000) by (nonlinear_arith)
                requires
                    q * q <= (c as int) * (SCALE as int) && (c as int) * (SCALE as int)
                        <= 1_000_000_000_000 && q >= 0,
            ;
        }
        q as i64
    } else {
        0
    };
    let intensity = Interval::new(0, 999);
    let cl = intensity.clamp(g);
    proof {
        lemma_mul_bound(255_999, cl as int, 255_999, 999);
        vstd::arithmetic::div_mod::lemma_div_is_ordered(
            255_999 * (cl as int),
            255_999_999,
            1_000_000,
        );
        vstd::arithmetic::div_mod::lemma_div_pos_is_pos(255_999 * (cl as int), 1_000_000);
    }
    div_trunc((255_999 as i128) * (cl as i128), 1_000_000) as i64
}

impl Vec3 {
    /// The pixel line for this colour: each channel gamma-corrected,
    /// clamped into `[0, 0.999]`, scaled by `255.999` and truncated,
    /// then written as `"<r> <g> <b>\n"`.
    pub fn write(&self) -> (s: String)
        requires
            -1_000_000_000 <= self.x <= 1_000_000_000,
            -1_000_000_000 <= self.y <= 1_000_000_000,
            -1_000_000_000 <= self.z <= 1_000_000_000,
        ensures
            s@ == pixel_line(
                sbyte(self.x as int) as nat,
                sbyte(self.y as int) as nat,
                sbyte(self.z as int) as nat,
            ),
    {
        let rbyte = byte_of(self.x);
        let gbyte = byte_of(self.y);
        let bbyte = byte_of(self.z);
        let mut s = String::new();
        push_decimal(&mut s, rbyte as u64);
        push_space(&mut s);
        push_decimal(&mut s, gbyte as u64);
        push_space(&mut s);
        push_decimal(&mut s, bbyte as u64);
        push_newline(&mut s);
        proof {
            assert(s@ =~= pixel_line(
                sbyte(self.x as int) as nat,
                sbyte(self.y as int) as nat,
                sbyte(self.z as int) as nat,
            ));
        }
        s
    }
}

/// The emitted byte always fits in eight bits.
pub proof fn lemma_sbyte_range(c: int)
    ensures
        0 <= sbyte(c) <= 255,
{
    let g = sgamma(c);
    let cl = if g < 0 {
        0int
    } else if g > 999 {
        999int
    } else {
        g
    };
    assert(0 <= cl <= 999);
    assert(0 <= 255_999 * cl <= 255_743_001) by (nonlinear_arith)
        requires
            0 <= cl <= 999,
    ;
    vstd::arithmetic::div_mod::lemma_div_is_ordered(255_999 * cl, 255_999_999, 1_000_000);
    vstd::arithmetic::div_mod::lemma_div_pos_is_pos(255_999 * cl, 1_000_000);
}

/// Law: the gamma + clamp round-trip at the reference points — full
/// intensity lands on byte 255 and black on byte 0.
pub proof fn lemma_gamma_clamp_bytes()
    ensures
        sbyte(SCALE as int) == 255,
        sbyte(0) == 0,
{
    assert(1000 * 1000 <= 1_000_000 < 1001 * 1001) by (nonlinear_arith);
    lemma_sqrt_floor(1_000_000, 1000);
    assert(sgamma(SCALE as int) == 1000);
    assert(tdiv(255_999int * 999, 1_000_000) == 255) by (nonlinear_arith);
    assert(tdiv(255_999int * 0, 1_000_000) == 0) by (nonlinear_arith);
}

} // verus!
