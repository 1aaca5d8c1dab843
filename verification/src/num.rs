//! Fixed-point coordinate parsing.
//!
//! Coordinates are carried as ten-millionths of a degree in an `i64`. A
//! coordinate literal is the decimal text of a JSON number: an optional
//! minus sign, integer digits, and an optional fraction. Fraction digits
//! beyond the seventh are truncated. Exponent notation and magnitudes
//! beyond [`COORD_LIMIT`] are rejected, which keeps every later
//! containment computation free of overflow.
use vstd::prelude::*;

verus! {

/// Scaled units per degree.
pub const SCALE: i64 = 10_000_000;

/// Largest accepted magnitude in scaled units: 360 degrees, twice the
/// range of any longitude.
pub const COORD_LIMIT: i64 = 3_600_000_000;

pub open spec fn is_digit(b: u8) -> bool {
    48 <= b && b <= 57
}

pub open spec fn all_digits(s: Seq<u8>) -> bool {
    forall|i: int| 0 <= i < s.len() ==> is_digit(s[i])
}

/// The integer a digit string denotes, most significant digit first.
pub open spec fn digits_val(s: Seq<u8>) -> int
    decreases s.len(),
{
    if s.len() == 0 {
        0
    } else {
        digits_val(s.drop_last()) * 10 + (s.last() - 48)
    }
}

pub open spec fn pow10(n: nat) -> int
    decreases n,
{
    if n == 0 {
        1
    } else {
        10 * pow10((n - 1) as nat)
    }
}

/// Index of the first occurrence of `b` in `s`, or `s.len()` if absent.
pub open spec fn find_byte(s: Seq<u8>, b: u8) -> int
    decreases s.len(),
{
    if s.len() == 0 {
        0
    } else if s[0] == b {
        0
    } else {
        1 + find_byte(s.drop_first(), b)
    }
}

pub proof fn lemma_find_byte(s: Seq<u8>, b: u8)
    ensures
        0 <= find_byte(s, b) <= s.len(),
        find_byte(s, b) < s.len() ==> s[find_byte(s, b)] == b,
        forall|i: int| 0 <= i < find_byte(s, b) ==> s[i] != b,
    decreases s.len(),
{
    if s.len() > 0 && s[0] != b {
        lemma_find_byte(s.drop_first(), b);
        assert forall|i: int| 0 <= i < find_byte(s, b) implies s[i] != b by {
            if i > 0 {
                assert(s[i] == s.drop_first()[i - 1]);
            }
        }
    }
}

pub proof fn lemma_find_byte_at(s: Seq<u8>, b: u8, m: int)
    requires
        0 <= m <= s.len(),
        forall|i: int| 0 <= i < m ==> s[i] != b,
        m < s.len() ==> s[m] == b,
    ensures
        find_byte(s, b) == m,
    decreases s.len(),
{
    if s.len() > 0 && s[0] != b {
        assert(forall|i: int| 0 <= i < m - 1 ==> s.drop_first()[i] == s[i + 1]);
        lemma_find_byte_at(s.drop_first(), b, m - 1);
    }
}

pub open spec fn num_neg(s: Seq<u8>) -> bool {
    s.len() > 0 && s[0] == 45
}

/// The text after the optional minus sign.
pub open spec fn num_body(s: Seq<u8>) -> Seq<u8> {
    if num_neg(s) {
        s.drop_first()
    } else {
        s
    }
}

pub open spec fn int_part(s: Seq<u8>) -> Seq<u8> {
    num_body(s).take(find_byte(num_body(s), 46))
}

pub open spec fn frac_part(s: Seq<u8>) -> Seq<u8> {
    let t = num_body(s);
    let d = find_byte(t, 46);
    if d < t.len() {
        t.skip(d + 1)
    } else {
        Seq::empty()
    }
}

/// Whether `s` reads `-? digits (. digits)?`.
pub open spec fn num_shape_ok(s: Seq<u8>) -> bool {
    let t = num_body(s);
    let d = find_byte(t, 46);
    &&& int_part(s).len() > 0
    &&& all_digits(int_part(s))
    &&& (d < t.len() ==> frac_part(s).len() > 0 && all_digits(frac_part(s)))
}

/// The fraction digits scaled to seven places, truncating beyond them.
pub open spec fn frac_scaled(f: Seq<u8>) -> int {
    if f.len() >= 7 {
        digits_val(f.take(7))
    } else {
        digits_val(f) * pow10((7 - f.len()) as nat)
    }
}

/// The value of a well-shaped coordinate literal, in scaled units.
pub open spec fn num_val(s: Seq<u8>) -> int {
    let mag = digits_val(int_part(s)) * (SCALE as int) + frac_scaled(frac_part(s));
    if num_neg(s) {
        -mag
    } else {
        mag
    }
}

#[derive(Clone, Copy, Debug, PartialEq, Eq, Structural)]
pub enum CoordOutcome {
    /// The coordinate in scaled units.
    Value(i64),
    /// The text is not a plain decimal literal.
    Malformed,
    /// The text is a decimal literal beyond the accepted range.
    OutOfRange,
}

pub open spec fn coord_model(s: Seq<u8>) -> CoordOutcome {
    if !num_shape_ok(s) {
        CoordOutcome::Malformed
    } else if num_val(s) > COORD_LIMIT as int || num_val(s) < -(COORD_LIMIT as int) {
        CoordOutcome::OutOfRange
    } else {
        CoordOutcome::Value(num_val(s) as i64)
    }
}

proof fn lemma_digits_val_nonneg(s: Seq<u8>)
    requires
        all_digits(s),
    ensures
        digits_val(s) >= 0,
    decreases s.len(),
{
    if s.len() > 0 {
        assert(all_digits(s.drop_last()));
        lemma_digits_val_nonneg(s.drop_last());
    }
}

proof fn lemma_digits_val_push(s: Seq<u8>, b: u8)
    ensures
        digits_val(s.push(b)) == digits_val(s) * 10 + (b - 48),
{
    assert(s.push(b).drop_last() =~= s);
}

proof fn lemma_mul_ge(a: int, b: int)
    by (nonlinear_arith)
    requires
        a >= 0,
        b >= 1,
    ensures
        a * b >= a,
{
}

proof fn lemma_mul_nonneg(a: int, b: int)
    by (nonlinear_arith)
    requires
        a >= 0,
        b >= 0,
    ensures
        a * b >= 0,
{
}

proof fn lemma_mul_shift(a: int, b: int)
    by (nonlinear_arith)
    ensures
        (a * b) * 10 == a * (10 * b),
{
}

proof fn lemma_mul_le(a: int, b: int, c: int)
    by (nonlinear_arith)
    requires
        0 <= a <= c,
        b >= 0,
    ensures
        a * b <= c * b,
{
}

proof fn lemma_pow10_small()
    ensures
        pow10(0) == 1,
        pow10(1) == 10,
        pow10(2) == 100,
        pow10(3) == 1000,
        pow10(4) == 10000,
        pow10(5) == 100000,
        pow10(6) == 1000000,
        pow10(7) == 10000000,
{
    assert(pow10(1) == 10 * pow10(0));
    assert(pow10(2) == 10 * pow10(1));
    assert(pow10(3) == 10 * pow10(2));
    assert(pow10(4) == 10 * pow10(3));
    assert(pow10(5) == 10 * pow10(4));
    assert(pow10(6) == 10 * pow10(5));
    assert(pow10(7) == 10 * pow10(6));
}

/// Parses one coordinate literal into scaled units, exactly as
/// [`coord_model`] describes.
#[verifier::rlimit(60)]
pub fn parse_coord(s: &Vec<u8>) -> (r: CoordOutcome)
    ensures
        r == coord_model(s@),
{
    let ghost sv = s@;
    let n = s.len();
    let neg = n > 0 && s[0] == 45u8;
    let start: usize = if neg {
        1
    } else {
        0
    };
    let ghost t = sv.skip(start as int);
    proof {
        assert(neg == num_neg(sv));
        assert(t =~= num_body(sv));
    }
    // Integer digits, up to the dot or the end.
    let mut j: usize = start;
    let mut acc: i64 = 0;
    let mut big = false;
    while j < n && s[j] != 46u8
        invariant
            start <= j <= n,
            n == sv.len(),
            sv == s@,
            start == (if num_neg(sv) {
                1int
            } else {
                0int
            }),
            neg == num_neg(sv),
            t == num_body(sv),
            forall|k: int| start <= k < j ==> is_digit(sv[k]),
            !big ==> acc == digits_val(sv.subrange(start as int, j as int)) && 0 <= acc
                <= COORD_LIMIT,
            big ==> digits_val(sv.subrange(start as int, j as int)) > COORD_LIMIT as int,
        decreases n - j,
    {
        let b = s[j];
        let ghost pre = sv.subrange(start as int, j as int);
        if b < 48 || b > 57 {
            proof {
                lemma_find_byte(t, 46);
                let fb = find_byte(t, 46);
                // every byte before the current one is a digit, and the
                // current one is neither a digit nor the dot, so the dot
                // is strictly later and the integer part holds a non-digit
                assert(forall|k: int| 0 <= k < j - start ==> t[k] == sv[k + start]);
                assert(t[j - start] == b);
                if fb <= j - start {
                    assert(t[fb] == 46);
                    assert(false);
                }
                assert(!is_digit(int_part(sv)[j - start]));
            }
            return CoordOutcome::Malformed;
        }
        proof {
            lemma_digits_val_push(pre, b);
            assert(sv.subrange(start as int, j as int + 1) =~= pre.push(b));
            lemma_digits_val_nonneg(pre);
            if big {
                lemma_mul_ge(digits_val(pre), 10);
            }
        }
        if !big {
            let acc2 = acc * 10 + ((b - 48) as i64);
            if acc2 > COORD_LIMIT {
                big = true;
            } else {
                acc = acc2;
            }
        }
        j = j + 1;
    }
    let ghost dot = j - start;
    proof {
        assert(forall|k: int| 0 <= k < dot ==> t[k] == sv[k + start] && is_digit(t[k]));
        lemma_find_byte_at(t, 46, dot);
        assert(int_part(sv) =~= sv.subrange(start as int, j as int));
    }
    if j == start {
        // empty integer part
        return CoordOutcome::Malformed;
    }
    let ghost ip = int_part(sv);
    // Fraction digits, the first seven of which carry value.
    let mut facc: i64 = 0;
    let mut cnt: usize = 0;
    let ghost mut f = Seq::<u8>::empty();
    if j < n {
        j = j + 1;
        let fstart = j;
        proof {
            f = frac_part(sv);
            assert(f =~= t.skip(dot + 1));
            assert(forall|k: int| 0 <= k < f.len() ==> f[k] == sv[k + fstart]);
        }
        if j == n {
            // a dot with no digits after it
            return CoordOutcome::Malformed;
        }
        while j < n
            invariant
                fstart <= j <= n,
                fstart >= 1,
                n == sv.len(),
                sv == s@,
                f == frac_part(sv),
                f.len() == n - fstart,
                num_shape_ok(sv) == (all_digits(f) && f.len() > 0),
                forall|k: int| 0 <= k < f.len() ==> f[k] == sv[k + fstart],
                forall|k: int| fstart <= k < j ==> is_digit(sv[k]),
                cnt == (if j - fstart <= 7 {
                    j - fstart
                } else {
                    7int
                }),
                facc == digits_val(f.take(cnt as int)),
                0 <= facc < pow10(cnt as nat),
            decreases n - j,
        {
            let b = s[j];
            if b < 48 || b > 57 {
                proof {
                    assert(f[j - fstart] == b);
                    assert(!is_digit(f[j - fstart]));
                }
                return CoordOutcome::Malformed;
            }
            proof {
                lemma_pow10_small();
                if cnt < 7 {
                    lemma_digits_val_push(f.take(cnt as int), b);
                    assert(f.take(cnt as int + 1) =~= f.take(cnt as int).push(b));
                }
            }
            if cnt < 7 {
                facc = facc * 10 + ((b - 48) as i64);
                cnt = cnt + 1;
            }
            j = j + 1;
        }
    } else {
        proof {
            f = frac_part(sv);
            assert(f =~= Seq::<u8>::empty());
        }
    }
    // Now the shape is known to be good; scale the fraction to seven places.
    proof {
        assert(all_digits(ip));
        assert(all_digits(f));
        assert(num_shape_ok(sv));
        lemma_pow10_small();
        if f.len() >= 7 {
            assert(f.take(7) =~= f.take(cnt as int));
        } else {
            assert(f.take(cnt as int) =~= f);
        }
    }
    if cnt < 7 {
        proof {
            assert(f.len() == cnt);
            assert(digits_val(f) * pow10(0) == digits_val(f));
        }
        while cnt < 7
            invariant
                0 <= cnt <= 7,
                f.len() <= cnt,
                f.len() < 7,
                0 <= facc < pow10(cnt as nat),
                facc == digits_val(f) * pow10((cnt - f.len()) as nat),
            decreases 7 - cnt,
        {
            proof {
                lemma_pow10_small();
                lemma_mul_shift(digits_val(f), pow10((cnt - f.len()) as nat));
                assert(pow10((cnt + 1 - f.len()) as nat) == 10 * pow10((cnt - f.len()) as nat));
            }
            facc = facc * 10;
            cnt = cnt + 1;
        }
    }
    proof {
        lemma_pow10_small();
        assert(facc == frac_scaled(f));
        lemma_digits_val_nonneg(ip);
    }
    if big {
        proof {
            lemma_mul_ge(digits_val(ip), SCALE as int);
            assert(num_val(sv) > COORD_LIMIT as int || num_val(sv) < -(COORD_LIMIT as int));
        }
        return CoordOutcome::OutOfRange;
    }
    proof {
        lemma_mul_le(acc as int, SCALE as int, COORD_LIMIT as int);
        lemma_mul_nonneg(acc as int, SCALE as int);
    }
    let mag: i64 = acc * SCALE + facc;
    if mag > COORD_LIMIT {
        return CoordOutcome::OutOfRange;
    }
    if neg {
        CoordOutcome::Value(-mag)
    } else {
        CoordOutcome::Value(mag)
    }
}

} // verus!
