//! Fixed-point decimal numbers.
//!
//! A dimension is stored as a signed count of thousandths of a unit
//! (milli-units), so every value with at most three decimal places is
//! represented exactly.

use vstd::prelude::*;

verus! {

/// Largest magnitude a dimension may take, in milli-units
/// (ten thousand units), chosen so that every derived quantity
/// fits comfortably in the machine integers used to compute it.
pub const DIM_LIMIT: i64 = 10_000_000;

/// A dimension value that the shapes accept.
pub open spec fn in_dim(v: i64) -> bool {
    -DIM_LIMIT <= v <= DIM_LIMIT
}

/// Why a numeric field of a text record was refused.
#[derive(Clone, Copy, Debug, PartialEq, Eq, Structural)]
pub enum ParseError {
    /// The field is not a plain decimal numeral.
    Malformed,
    /// The numeral is a larger magnitude than a dimension may take.
    OutOfRange,
}

/// `c` is a decimal digit.
pub open spec fn is_digit(c: char) -> bool {
    48 <= c as u32 <= 57
}

/// The value of a decimal digit.
pub open spec fn digit_val(c: char) -> int {
    c as u32 - 48
}

/// The value of a string of decimal digits, most significant first.
pub open spec fn digits_val(s: Seq<char>) -> int
    decreases s.len(),
{
    if s.len() == 0 {
        0
    } else {
        digits_val(s.drop_last()) * 10 + digit_val(s.last())
    }
}

/// How often `c` occurs in `s`.
pub open spec fn count_char(s: Seq<char>, c: char) -> int
    decreases s.len(),
{
    if s.len() == 0 {
        0int
    } else {
        count_char(s.drop_last(), c) + if s.last() == c {
            1int
        } else {
            0int
        }
    }
}

/// The numeral with a leading sign removed.
pub open spec fn body_of(s: Seq<char>) -> Seq<char> {
    if s.len() > 0 && (s[0] == '-' || s[0] == '+') {
        s.drop_first()
    } else {
        s
    }
}

/// The numeral denotes a value below zero.
pub open spec fn is_negative(s: Seq<char>) -> bool {
    s.len() > 0 && s[0] == '-'
}

/// `s` is a plain decimal numeral: an optional sign, then digits with
/// at most one decimal point among them, at least one digit in all.
pub open spec fn valid_number(s: Seq<char>) -> bool {
    let b = body_of(s);
    &&& count_char(b, '.') <= 1
    &&& (forall|i: int| 0 <= i < b.len() ==> is_digit(b[i]) || b[i] == '.')
    &&& (exists|i: int| 0 <= i < b.len() && is_digit(b[i]))
}

/// Index of the first decimal point, or the length when there is none.
pub open spec fn dot_pos(s: Seq<char>) -> int
    decreases s.len(),
{
    if s.len() == 0 {
        0
    } else if s[0] == '.' {
        0
    } else {
        1 + dot_pos(s.drop_first())
    }
}

/// The first decimal point stands where the first scan finds it.
pub proof fn lemma_dot_pos_at(s: Seq<char>, m: int)
    requires
        0 <= m <= s.len(),
        forall|k: int| 0 <= k < m ==> s[k] != '.',
        m < s.len() ==> s[m] == '.',
    ensures
        dot_pos(s) == m,
    decreases s.len(),
{
    if s.len() == 0 {
    } else if s[0] == '.' {
        assert(m == 0);
    } else {
        assert(m >= 1);
        lemma_dot_pos_at(s.drop_first(), m - 1);
    }
}

/// The digits before the decimal point.
pub open spec fn int_part(b: Seq<char>) -> Seq<char> {
    b.subrange(0, dot_pos(b))
}

/// The digits after the decimal point.
pub open spec fn frac_part(b: Seq<char>) -> Seq<char> {
    if dot_pos(b) < b.len() {
        b.subrange(dot_pos(b) + 1, b.len() as int)
    } else {
        Seq::empty()
    }
}

/// The milli-units contributed by the fraction digits: the first three
/// of them, any further places cut off.
pub open spec fn frac_milli(f: Seq<char>) -> int {
    if f.len() == 0 {
        0
    } else if f.len() == 1 {
        digit_val(f[0]) * 100
    } else if f.len() == 2 {
        digit_val(f[0]) * 100 + digit_val(f[1]) * 10
    } else {
        digit_val(f[0]) * 100 + digit_val(f[1]) * 10 + digit_val(f[2])
    }
}

/// The magnitude of an unsigned numeral, in milli-units.
pub open spec fn magnitude_milli(b: Seq<char>) -> int {
    digits_val(int_part(b)) * 1000 + frac_milli(frac_part(b))
}

/// The value of a signed numeral, in milli-units.
pub open spec fn number_milli(s: Seq<char>) -> int {
    if is_negative(s) {
        -magnitude_milli(body_of(s))
    } else {
        magnitude_milli(body_of(s))
    }
}

/// What parsing a numeric field yields: its value in milli-units, or
/// the error that names what is wrong with it.
pub open spec fn num_result(s: Seq<char>) -> Result<i64, ParseError> {
    if !valid_number(s) {
        Err(ParseError::Malformed)
    } else if magnitude_milli(body_of(s)) > DIM_LIMIT {
        Err(ParseError::OutOfRange)
    } else {
        Ok(number_milli(s) as i64)
    }
}

/// A string of digits never denotes a value below zero.
pub proof fn lemma_digits_val_nonneg(s: Seq<char>)
    requires
        forall|i: int| 0 <= i < s.len() ==> is_digit(s[i]),
    ensures
        digits_val(s) >= 0,
    decreases s.len(),
{
    if s.len() > 0 {
        lemma_digits_val_nonneg(s.drop_last());
    }
}

/// The value of at most three digits, spelt out place by place.
pub proof fn lemma_digits_val_expand3(f: Seq<char>)
    ensures
        f.len() >= 1 ==> digits_val(f.subrange(0, 1)) == digit_val(f[0]),
        f.len() >= 2 ==> digits_val(f.subrange(0, 2)) == digit_val(f[0]) * 10 + digit_val(f[1]),
        f.len() >= 3 ==> digits_val(f.subrange(0, 3)) == (digit_val(f[0]) * 10 + digit_val(f[1]))
            * 10 + digit_val(f[2]),
{
    assert(digits_val(Seq::<char>::empty()) == 0);
    if f.len() >= 1 {
        assert(f.subrange(0, 1).drop_last() =~= Seq::<char>::empty());
        assert(digits_val(f.subrange(0, 1)) == digit_val(f[0]));
    }
    if f.len() >= 2 {
        assert(f.subrange(0, 2).drop_last() =~= f.subrange(0, 1));
        assert(digits_val(f.subrange(0, 2)) == digit_val(f[0]) * 10 + digit_val(f[1]));
    }
    if f.len() >= 3 {
        assert(f.subrange(0, 3).drop_last() =~= f.subrange(0, 2));
    }
}

/// `r` is the square root of `n`, rounded down to an integer.
pub open spec fn is_sqrt_floor(n: int, r: int) -> bool {
    &&& 0 <= r
    &&& r * r <= n
    &&& n < (r + 1) * (r + 1)
}

/// The square root of `n`, rounded down, found by binary search.
pub fn isqrt(n: u128) -> (r: u128)
    ensures
        is_sqrt_floor(n as int, r as int),
{
    let mut lo: u128 = 0;
    let mut hi: u128 = 0x1_0000_0000_0000_0000;
    proof {
        assert(n < hi * hi);
    }
    while lo + 1 < hi
        invariant
            lo < hi <= 0x1_0000_0000_0000_0000,
            lo * lo <= n,
            n < hi * hi,
        decreases hi - lo,
    {
        let mid = lo + (hi - lo) / 2;
        proof {
            assert(mid * mid <= 0xffff_ffff_ffff_ffff_ffff_ffff_ffff_fffeu128)
                by (nonlinear_arith)
                requires
                    0 <= mid < 0x1_0000_0000_0000_0000u128,
            ;
        }
        if mid * mid <= n {
            lo = mid;
        } else {
            hi = mid;
        }
    }
    lo
}

/// Parse a plain decimal numeral into milli-units: an optional sign,
/// digits, at most one decimal point. Fraction digits beyond the third
/// are cut off. A field that is no such numeral is `Malformed`; one
/// whose magnitude passes the dimension limit is `OutOfRange`.
#[verifier::rlimit(60)]
pub fn parse_number(f: &str) -> (r: Result<i64, ParseError>)
    ensures
        r == num_result(f@),
        r is Ok ==> in_dim(r->Ok_0),
{
    let n: usize = f.unicode_len();
    let mut i0: usize = 0;
    let mut neg: bool = false;
    if n > 0 {
        let c0 = f.get_char(0);
        if c0 == '-' {
            neg = true;
            i0 = 1;
        } else if c0 == '+' {
            i0 = 1;
        }
    }
    let ghost b = f@.subrange(i0 as int, n as int);
    proof {
        assert(b =~= body_of(f@));
        assert(neg == is_negative(f@));
    }
    let mut j: usize = i0;
    let mut dots: usize = 0;
    let mut first_dot: usize = n;
    let mut seen_digit: bool = false;
    let mut acc: i64 = 0;
    let mut f3: i64 = 0;
    let mut fcount: usize = 0;
    while j < n
        invariant
            i0 <= j <= n,
            n == f@.len(),
            b == f@.subrange(i0 as int, n as int),
            b == body_of(f@),
            forall|k: int| i0 <= k < j ==> is_digit(#[trigger] f@[k]) || f@[k] == '.',
            seen_digit <==> (exists|k: int| i0 <= k < j && is_digit(#[trigger] f@[k])),
            dots == count_char(f@.subrange(i0 as int, j as int), '.'),
            i0 + dots <= j,
            dots == 0 ==> first_dot == n,
            dots > 0 ==> i0 <= first_dot < j && f@[first_dot as int] == '.' && (forall|k: int|
                i0 <= k < first_dot ==> f@[k] != '.'),
            dots <= 1 ==> (forall|k: int|
                i0 <= k < j && k != first_dot ==> is_digit(#[trigger] f@[k])),
            ({
                let ip = if dots == 0 {
                    f@.subrange(i0 as int, j as int)
                } else {
                    f@.subrange(i0 as int, first_dot as int)
                };
                dots <= 1 ==> ((digits_val(ip) <= 10000 && acc == digits_val(ip)) || (digits_val(
                ip) > 10000 && acc == 10001))
            }),
            dots == 1 ==> ({
                let fd = f@.subrange(first_dot as int + 1, j as int);
                &&& fcount == if fd.len() < 3 {
                    fd.len() as int
                } else {
                    3int
                }
                &&& f3 == digits_val(fd.subrange(0, fcount as int))
            }),
            dots == 0 ==> fcount == 0 && f3 == 0,
            fcount <= 3,
            0 <= f3 < (if fcount == 0 {
                1int
            } else if fcount == 1 {
                10int
            } else if fcount == 2 {
                100int
            } else {
                1000int
            }),
            0 <= acc <= 10001,
        decreases n - j,
    {
        let c = f.get_char(j);
        let u = c as u32;
        proof {
            assert(f@.subrange(i0 as int, j as int + 1).drop_last() =~= f@.subrange(
                i0 as int,
                j as int,
            ));
        }
        if 48 <= u && u <= 57 {
            seen_digit = true;
            if dots == 0 {
                let d: i64 = (u - 48) as i64;
                let na: i64 = acc * 10 + d;
                proof {
                    lemma_digits_val_nonneg(f@.subrange(i0 as int, j as int));
                }
                acc = if na > 10000 {
                    10001
                } else {
                    na
                };
            } else {
                if fcount < 3 {
                    proof {
                        if dots == 1 {
                            let fd = f@.subrange(first_dot as int + 1, j as int);
                            let fd2 = f@.subrange(first_dot as int + 1, j as int + 1);
                            assert(fd2.drop_last() =~= fd);
                            assert(fd2.subrange(0, fcount as int + 1) =~= fd2);
                            assert(fd.subrange(0, fcount as int) =~= fd);
                        }
                    }
                    f3 = f3 * 10 + (u - 48) as i64;
                    fcount = fcount + 1;
                } else {
                    proof {
                        if dots == 1 {
                            let fd = f@.subrange(first_dot as int + 1, j as int);
                            let fd2 = f@.subrange(first_dot as int + 1, j as int + 1);
                            assert(fd2.subrange(0, 3) =~= fd.subrange(0, 3));
                        }
                    }
                }
            }
        } else if c == '.' {
            if dots == 0 {
                first_dot = j;
            }
            dots = dots + 1;
        } else {
            proof {
                assert(b[j - i0] == f@[j as int]);
                assert(!valid_number(f@));
            }
            return Err(ParseError::Malformed);
        }
        j = j + 1;
    }
    if !seen_digit {
        proof {
            assert forall|i: int| 0 <= i < b.len() implies !is_digit(b[i]) by {
                assert(b[i] == f@[i0 + i]);
            }
            assert(!valid_number(f@));
        }
        return Err(ParseError::Malformed);
    }
    if dots > 1 {
        proof {
            assert(count_char(body_of(f@), '.') > 1);
            assert(!valid_number(f@));
        }
        return Err(ParseError::Malformed);
    }
    proof {
        assert forall|i: int| 0 <= i < b.len() implies is_digit(b[i]) || b[i] == '.' by {
            assert(b[i] == f@[i0 + i]);
        }
        let w = choose|k: int| i0 <= k < n && is_digit(f@[k]);
        assert(b[w - i0] == f@[w]);
        assert(valid_number(f@));
        if dots == 0 {
            lemma_dot_pos_at(b, b.len() as int);
        } else {
            lemma_dot_pos_at(b, first_dot - i0);
        }
        assert(int_part(b) =~= (if dots == 0 {
            f@.subrange(i0 as int, n as int)
        } else {
            f@.subrange(i0 as int, first_dot as int)
        }));
        lemma_digits_val_nonneg(int_part(b));
    }
    let fm: i64 = if fcount == 0 {
        0
    } else if fcount == 1 {
        f3 * 100
    } else if fcount == 2 {
        f3 * 10
    } else {
        f3
    };
    proof {
        if dots == 1 {
            let fd = f@.subrange(first_dot as int + 1, n as int);
            assert(frac_part(b) =~= fd);
            lemma_digits_val_expand3(fd);
            assert(fm == frac_milli(frac_part(b)));
        } else {
            assert(frac_part(b) =~= Seq::<char>::empty());
            assert(fm == frac_milli(frac_part(b)));
        }
    }
    let mag: i64 = acc * 1000 + fm;
    if mag > DIM_LIMIT {
        proof {
            assert(magnitude_milli(b) > DIM_LIMIT);
        }
        return Err(ParseError::OutOfRange);
    }
    proof {
        assert(acc == digits_val(int_part(b)));
        assert(mag == magnitude_milli(b));
    }
    if neg {
        Ok(-mag)
    } else {
        Ok(mag)
    }
}

} // verus!

