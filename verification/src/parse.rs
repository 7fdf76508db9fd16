//! Parsing a vector from text: three comma-separated fixed-point
//! decimals, as they appear on a command line.

use crate::fixed::{tdiv, SCALE};
use crate::vec::Vec3;
use vstd::prelude::*;

verus! {

/// The value of a decimal digit, or nothing for any other character.
pub open spec fn spec_digit(c: char) -> Option<int> {
    let v = c as u32;
    if 48 <= v <= 57 {
        Some((v - 48) as int)
    } else {
        None
    }
}

/// A run of digits consumed from position `i` with accumulator `acc`:
/// the value and the position after the run, or nothing if the value
/// would pass `cap`.
pub open spec fn spec_digit_run(s: Seq<char>, i: int, acc: int, cap: int) -> Option<(int, int)>
    decreases s.len() - i,
{
    if i < 0 || i >= s.len() {
        Some((acc, i))
    } else {
        match spec_digit(s[i]) {
            Some(d) => if acc * 10 + d > cap {
                None
            } else {
                spec_digit_run(s, i + 1, acc * 10 + d, cap)
            },
            None => Some((acc, i)),
        }
    }
}

/// A run of fractional digits from position `i`: the accumulated value,
/// the power of ten it sits under, and the position after the run;
/// nothing if the run is too long to evaluate exactly.
pub open spec fn spec_frac_run(s: Seq<char>, i: int, acc: int, p10: int) -> Option<(int, int, int)>
    decreases s.len() - i,
{
    if i < 0 || i >= s.len() {
        Some((acc, p10, i))
    } else {
        match spec_digit(s[i]) {
            Some(d) => if p10 > 100_000_000_000_000_000 {
                None
            } else {
                spec_frac_run(s, i + 1, acc * 10 + d, p10 * 10)
            },
            None => Some((acc, p10, i)),
        }
    }
}

/// The fixed-point value a decimal string denotes: an optional sign, an
/// integer part, and an optional `.` with a fractional part (truncated
/// to the fixed-point precision); at least one digit in all, an integer
/// part within the coordinate range, and nothing else in the string.
pub open spec fn spec_parse_fixed(s: Seq<char>) -> Option<i64> {
    if s.len() == 0 {
        None
    } else {
        let neg = s[0] == '-';
        let start: int = if s[0] == '-' || s[0] == '+' {
            1
        } else {
            0
        };
        match spec_digit_run(s, start, 0, 32767) {
            None => None,
            Some(ir) => {
                let ival = ir.0;
                let j = ir.1;
                if j == s.len() {
                    if j == start {
                        None
                    } else if neg {
                        Some((-(ival * SCALE)) as i64)
                    } else {
                        Some((ival * SCALE) as i64)
                    }
                } else if s[j] == '.' {
                    match spec_frac_run(s, j + 1, 0, 1) {
                        None => None,
                        Some(fr) => {
                            let mag = ival * SCALE + tdiv(fr.0 * SCALE, fr.1);
                            if fr.2 != s.len() {
                                None
                            } else if j == start && fr.2 == j + 1 {
                                None
                            } else if neg {
                                Some((-mag) as i64)
                            } else {
                                Some(mag as i64)
                            }
                        },
                    }
                } else {
                    None
                }
            },
        }
    }
}

/// The positions of the commas in `s`, from position `i` on.
pub open spec fn spec_commas(s: Seq<char>, i: int) -> Seq<int>
    decreases s.len() - i,
{
    if i < 0 || i >= s.len() {
        Seq::empty()
    } else if s[i] == ',' {
        seq![i] + spec_commas(s, i + 1)
    } else {
        spec_commas(s, i + 1)
    }
}

/// The vector a comma-separated triple denotes: exactly two commas, and
/// a fixed-point decimal between and around them.
pub open spec fn spec_parse_vec3(s: Seq<char>) -> Option<Vec3> {
    let cs = spec_commas(s, 0);
    if cs.len() != 2 {
        None
    } else {
        let p0 = spec_parse_fixed(s.subrange(0, cs[0]));
        let p1 = spec_parse_fixed(s.subrange(cs[0] + 1, cs[1]));
        let p2 = spec_parse_fixed(s.subrange(cs[1] + 1, s.len() as int));
        if p0 is Some && p1 is Some && p2 is Some {
            Some(Vec3(p0->0, p1->0, p2->0))
        } else {
            None
        }
    }
}

/// One fixed-point decimal.
fn parse_fixed(s: &str) -> (r: Option<i64>)
    ensures
        r == spec_parse_fixed(s@),
        r matches Some(v) ==> -0x8000_0000 <= v <= 0x8000_0000,
{
    let n: usize = s.unicode_len();
    if n == 0 {
        return None;
    }
    let c0: char = s.get_char(0);
    let neg: bool = c0 == '-';
    let start: usize = if c0 == '-' || c0 == '+' {
        1
    } else {
        0
    };
    let mut i: usize = start;
    let mut acc: i64 = 0;
    loop
        invariant
            start <= i <= n,
            1 <= n == s@.len(),
            start as int == (if s@[0] == '-' || s@[0] == '+' {
                1int
            } else {
                0int
            }),
            0 <= acc <= 32767,
            spec_digit_run(s@, start as int, 0, 32767) == spec_digit_run(
                s@,
                i as int,
                acc as int,
                32767,
            ),
        ensures
            start <= i <= n,
            0 <= acc <= 32767,
            spec_digit_run(s@, start as int, 0, 32767) == Some((acc as int, i as int)),
        decreases n - i,
    {
        if i >= n {
            break ;
        }
        let c: char = s.get_char(i);
        let v: u32 = c as u32;
        if 48 <= v && v <= 57 {
            let t: i64 = acc * 10 + ((v - 48) as i64);
            if t > 32767 {
                return None;
            }
            acc = t;
            i = i + 1;
        } else {
            break ;
        }
    }
    if i == n {
        if i == start {
            return None;
        }
        let mag: i64 = acc * SCALE;
        if neg {
            return Some(-mag);
        }
        return Some(mag);
    }
    let dot: char = s.get_char(i);
    if dot != '.' {
        return None;
    }
    let ghost j = i as int;
    let mut k: usize = i + 1;
    let mut facc: i64 = 0;
    let mut p10: i64 = 1;
    loop
        invariant
            j + 1 <= k <= n,
            1 <= n == s@.len(),
            start as int == (if s@[0] == '-' || s@[0] == '+' {
                1int
            } else {
                0int
            }),
            start <= i < n,
            j == i as int,
            s@[j] == '.',
            spec_digit_run(s@, start as int, 0, 32767) == Some((acc as int, i as int)),
            1 <= p10 <= 1_000_000_000_000_000_000,
            0 <= facc < p10,
            spec_frac_run(s@, j + 1, 0, 1) == spec_frac_run(s@, k as int, facc as int, p10 as int),
        ensures
            j + 1 <= k <= n,
            1 <= p10 <= 1_000_000_000_000_000_000,
            0 <= facc < p10,
            spec_frac_run(s@, j + 1, 0, 1) == Some((facc as int, p10 as int, k as int)),
        decreases n - k,
    {
        if k >= n {
            break ;
        }
        let c: char = s.get_char(k);
        let v: u32 = c as u32;
        if 48 <= v && v <= 57 {
            if p10 > 100_000_000_000_000_000 {
                return None;
            }
            facc = facc * 10 + ((v - 48) as i64);
            p10 = p10 * 10;
            k = k + 1;
        } else {
            break ;
        }
    }
    if k != n {
        return None;
    }
    if i == start && k == i + 1 {
        return None;
    }
    proof {
        crate::fixed::lemma_tdiv_bound((facc as int) * (SCALE as int), p10 as int, SCALE as int);
        assert((facc as int) * (SCALE as int) <= (SCALE as int) * (p10 as int)
            && 0 <= (facc as int) * (SCALE as int)) by (nonlinear_arith)
            requires
                0 <= facc < p10,
                SCALE == 65536i64,
        ;
        assert(0 <= tdiv((facc as int) * (SCALE as int), p10 as int)) by {
            crate::fixed::lemma_tdiv_lower((facc as int) * (SCALE as int), p10 as int, 0);
        }
    }
    let fracv: i64 = (((facc as i128) * (SCALE as i128)) / (p10 as i128)) as i64;
    let mag: i64 = acc * SCALE + fracv;
    if neg {
        Some(-mag)
    } else {
        Some(mag)
    }
}

/// Parses vectors from the textual form `x,y,z`.
#[derive(Clone, Copy, Debug)]
pub struct Vec3Parser;

impl Vec3Parser {
    /// The vector the text denotes, if it is a comma-separated triple of
    /// fixed-point decimals.
    pub fn parse(&self, value: &str) -> (r: Option<Vec3>)
        ensures
            r == spec_parse_vec3(value@),
            r matches Some(v) ==> v.within(0x8000_0000),
    {
        let n: usize = value.unicode_len();
        let mut count: usize = 0;
        let mut c1: usize = 0;
        let mut c2: usize = 0;
        let ghost mut found: Seq<int> = Seq::empty();
        let mut i: usize = 0;
        loop
            invariant
                0 <= i <= n,
                n == value@.len(),
                count == found.len(),
                count >= 1 ==> found[0] == c1 && c1 < i,
                count >= 2 ==> found[1] == c2 && c1 < c2 < i,
                count <= i,
                spec_commas(value@, 0) == found + spec_commas(value@, i as int),
            ensures
                i == n,
                count == found.len(),
                count >= 1 ==> found[0] == c1 && c1 < n,
                count >= 2 ==> found[1] == c2 && c1 < c2 < n,
                spec_commas(value@, 0) == found + spec_commas(value@, i as int),
            decreases n - i,
        {
            if i >= n {
                break ;
            }
            let c: char = value.get_char(i);
            if c == ',' {
                if count == 0 {
                    c1 = i;
                } else if count == 1 {
                    c2 = i;
                }
                count = count + 1;
                proof {
                    assert(found + (seq![i as int] + spec_commas(value@, i as int + 1)) =~= (found
                        + seq![i as int]) + spec_commas(value@, i as int + 1));
                    found = found + seq![i as int];
                }
            }
            i = i + 1;
        }
        proof {
            assert(found + Seq::<int>::empty() =~= found);
        }
        if count != 2 {
            return None;
        }
        let p0: Option<i64> = parse_fixed(value.substring_char(0, c1));
        let p1: Option<i64> = parse_fixed(value.substring_char(c1 + 1, c2));
        let p2: Option<i64> = parse_fixed(value.substring_char(c2 + 1, n));
        match (p0, p1, p2) {
            (Some(x), Some(y), Some(z)) => Some(Vec3(x, y, z)),
            _ => None,
        }
    }
}

} // verus!
