//! Presentation formatting: decimal rendering, byte-unit scaling and
//! placeholder text for absent values.
//!
//! Scaled quantities are held in tenths, so every formatted number carries
//! one digit after the decimal point, and byte counts stay exact integers.

use vstd::prelude::*;
use vstd::string::{StringExecFns, StrSliceExecFns};
use vstd::arithmetic::div_mod::{
    lemma_div_denominator, lemma_div_is_ordered, lemma_fundamental_div_mod,
    lemma_fundamental_div_mod_converse, lemma_div_pos_is_pos, lemma_div_basics,
};
use vstd::arithmetic::mul::lemma_mul_inequality;

verus! {

/// The decimal digit character for `d`.
pub open spec fn dec_digit(d: int) -> char {
    if d == 0 {
        '0'
    } else if d == 1 {
        '1'
    } else if d == 2 {
        '2'
    } else if d == 3 {
        '3'
    } else if d == 4 {
        '4'
    } else if d == 5 {
        '5'
    } else if d == 6 {
        '6'
    } else if d == 7 {
        '7'
    } else if d == 8 {
        '8'
    } else {
        '9'
    }
}

/// The decimal digit string of a non-negative number, most significant
/// digit first, without leading zeros (a single zero for 0).
pub open spec fn dec_str(n: int) -> Seq<char>
    decreases n,
{
    if n < 10 {
        seq![dec_digit(n)]
    } else {
        dec_str(n / 10).push(dec_digit(n % 10))
    }
}

fn digit_str(d: u64) -> (r: &'static str)
    requires
        d < 10,
    ensures
        r@ == seq![dec_digit(d as int)],
{
    if d == 0 {
        proof {
            reveal_strlit("0");
            assert("0"@ =~= seq![dec_digit(0)]);
        }
        "0"
    } else if d == 1 {
        proof {
            reveal_strlit("1");
            assert("1"@ =~= seq![dec_digit(1)]);
        }
        "1"
    } else if d == 2 {
        proof {
            reveal_strlit("2");
            assert("2"@ =~= seq![dec_digit(2)]);
        }
        "2"
    } else if d == 3 {
        proof {
            reveal_strlit("3");
            assert("3"@ =~= seq![dec_digit(3)]);
        }
        "3"
    } else if d == 4 {
        proof {
            reveal_strlit("4");
            assert("4"@ =~= seq![dec_digit(4)]);
        }
        "4"
    } else if d == 5 {
        proof {
            reveal_strlit("5");
            assert("5"@ =~= seq![dec_digit(5)]);
        }
        "5"
    } else if d == 6 {
        proof {
            reveal_strlit("6");
            assert("6"@ =~= seq![dec_digit(6)]);
        }
        "6"
    } else if d == 7 {
        proof {
            reveal_strlit("7");
            assert("7"@ =~= seq![dec_digit(7)]);
        }
        "7"
    } else if d == 8 {
        proof {
            reveal_strlit("8");
            assert("8"@ =~= seq![dec_digit(8)]);
        }
        "8"
    } else {
        proof {
            reveal_strlit("9");
            assert("9"@ =~= seq![dec_digit(9)]);
        }
        "9"
    }
}

/// Render a number in decimal.
pub fn u64_to_string(n: u64) -> (r: String)
    ensures
        r@ == dec_str(n as int),
    decreases n,
{
    if n < 10 {
        String::from_str(digit_str(n))
    } else {
        let mut s = u64_to_string(n / 10);
        s.append(digit_str(n % 10));
        proof {
            assert(dec_str((n / 10) as int) + seq![dec_digit((n % 10) as int)] =~= dec_str(
                (n / 10) as int,
            ).push(dec_digit((n % 10) as int)));
        }
        s
    }
}

/// How many times a byte count is divided by 1024 before it reads below
/// 1024 in the chosen unit.
pub open spec fn unit_index(n: int) -> int
    decreases n,
{
    if n < 1024 {
        0
    } else {
        1 + unit_index(n / 1024)
    }
}

/// 1024 to the power `i`.
pub open spec fn pow1024(i: int) -> int
    decreases i,
{
    if i <= 0 {
        1
    } else {
        1024 * pow1024(i - 1)
    }
}

/// The unit label attached after `i` divisions by 1024; none past GB.
pub open spec fn unit_suffix(i: int) -> Seq<char> {
    if i == 0 {
        seq!['B']
    } else if i == 1 {
        seq!['K', 'B']
    } else if i == 2 {
        seq!['M', 'B']
    } else if i == 3 {
        seq!['G', 'B']
    } else {
        Seq::empty()
    }
}

/// The scaled value in tenths of the chosen unit, rounded to the nearest
/// tenth (halves up).
pub open spec fn scaled_tenths(n: int) -> int {
    let d = pow1024(unit_index(n));
    (10 * n + d / 2) / d
}

/// What `change_units` renders: the scaled value with one decimal digit,
/// followed by the unit label.
pub open spec fn change_units_spec(n: int) -> Seq<char> {
    let t = scaled_tenths(n);
    dec_str(t / 10) + seq!['.', dec_digit(t % 10)] + unit_suffix(unit_index(n))
}

/// Scale a byte count into B, KB, MB or GB, with one decimal digit; past
/// GB the number keeps its last unit's scale and carries no label.
pub fn change_units(n: u64) -> (r: String)
    ensures
        r@ == change_units_spec(n as int),
{
    let mut num: u64 = n;
    let mut d: u64 = 1;
    let mut i: u64 = 0;
    proof {
        assert(pow1024(0) == 1);
        lemma_div_basics(n as int);
    }
    while num >= 1024
        invariant
            i <= 6,
            d as int == pow1024(i as int),
            num as int == n as int / d as int,
            unit_index(n as int) == i + unit_index(num as int),
            1 <= d,
        decreases num,
    {
        proof {
            // n >= 1024 * d, so the scaled divisor still fits in u64.
            lemma_fundamental_div_mod(n as int, d as int);
            lemma_mul_inequality(1024, num as int, d as int);
            assert((d as int) * (num as int) == (num as int) * (d as int)) by (nonlinear_arith);
            assert(1024 * (d as int) <= n as int);
            if i >= 6 {
                assert(pow1024(0) == 1);
                assert(pow1024(1) == 1024);
                assert(pow1024(2) == 0x10_0000);
                assert(pow1024(3) == 0x4000_0000);
                assert(pow1024(4) == 0x100_0000_0000);
                assert(pow1024(5) == 0x4_0000_0000_0000);
                assert(pow1024(6) == 0x1000_0000_0000_0000);
                assert(false);
            }
            // stepping the divisor composes the divisions
            lemma_div_denominator(n as int, d as int, 1024);
            lemma_div_pos_is_pos(num as int, 1024);
        }
        num = num / 1024;
        d = d * 1024;
        i = i + 1;
    }
    let ghost gd = d as int;
    let ghost gi = i as int;
    proof {
        assert(unit_index(num as int) == 0);
        assert(unit_index(n as int) == gi);
        // num < 1024 gives n < 1024 * d
        lemma_fundamental_div_mod(n as int, gd);
        lemma_mul_inequality(num as int, 1023, gd);
    }
    let t128: u128 = (10 * (n as u128) + (d as u128) / 2) / (d as u128);
    proof {
        let tnum = 10 * (n as int) + gd / 2;
        assert(tnum <= 10240 * gd + (gd - 1));
        lemma_fundamental_div_mod_converse(10240 * gd + (gd - 1), gd, 10240, gd - 1);
        lemma_div_is_ordered(tnum, 10240 * gd + (gd - 1), gd);
        assert(t128 as int == scaled_tenths(n as int));
        assert(t128 <= 10240);
    }
    let t: u64 = t128 as u64;
    let mut s = tenths_to_string(t);
    if i == 0 {
        proof {
            reveal_strlit("B");
        }
        s.append("B");
        proof {
            assert(s@ =~= change_units_spec(n as int));
        }
    } else if i == 1 {
        proof {
            reveal_strlit("KB");
        }
        s.append("KB");
        proof {
            assert(s@ =~= change_units_spec(n as int));
        }
    } else if i == 2 {
        proof {
            reveal_strlit("MB");
        }
        s.append("MB");
        proof {
            assert(s@ =~= change_units_spec(n as int));
        }
    } else if i == 3 {
        proof {
            reveal_strlit("GB");
        }
        s.append("GB");
        proof {
            assert(s@ =~= change_units_spec(n as int));
        }
    } else {
        proof {
            assert(s@ =~= change_units_spec(n as int));
        }
    }
    s
}

/// What `tenths_to_string` renders for a value held in tenths.
pub open spec fn tenths_str(n: int) -> Seq<char> {
    dec_str(n / 10) + seq!['.', dec_digit(n % 10)]
}

/// Render a value held in tenths with one digit after the decimal point.
pub fn tenths_to_string(n: u64) -> (r: String)
    ensures
        r@ == tenths_str(n as int),
{
    let mut s = u64_to_string(n / 10);
    proof {
        reveal_strlit(".");
    }
    s.append(".");
    s.append(digit_str(n % 10));
    proof {
        assert(s@ =~= tenths_str(n as int));
    }
    s
}

/// Render an optional number: its decimal form, or `--` when absent.
pub fn format_option(val: Option<u64>) -> (r: String)
    ensures
        r@ == (match val {
            Some(v) => dec_str(v as int),
            None => seq!['-', '-'],
        }),
{
    match val {
        Some(v) => u64_to_string(v),
        None => {
            proof {
                reveal_strlit("--");
                assert("--"@ =~= seq!['-', '-']);
            }
            String::from_str("--")
        },
    }
}

/// Render optional text: the text itself, or `--` when absent.
pub fn format_option_text(val: Option<String>) -> (r: String)
    ensures
        r@ == (match val {
            Some(s) => s@,
            None => seq!['-', '-'],
        }),
{
    match val {
        Some(s) => s,
        None => {
            proof {
                reveal_strlit("--");
                assert("--"@ =~= seq!['-', '-']);
            }
            String::from_str("--")
        },
    }
}

/// Render an optional byte count in scaled units, or `--` when absent.
pub fn format_option_units(val: Option<u64>) -> (r: String)
    ensures
        r@ == (match val {
            Some(v) => change_units_spec(v as int),
            None => seq!['-', '-'],
        }),
{
    match val {
        Some(v) => change_units(v),
        None => {
            proof {
                reveal_strlit("--");
                assert("--"@ =~= seq!['-', '-']);
            }
            String::from_str("--")
        },
    }
}

} // verus!
