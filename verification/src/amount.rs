use vstd::prelude::*;

use crate::digits::{
    all_digits, digits_value, is_ascii_digit, lemma_digits_prefix_le, lemma_digits_value_bound,
    lemma_pow10_adds, lemma_pow10_monotone, lemma_pow10_pos, pow10,
};

verus! {

/// Fixed-point decimal amount: a value counted in units of `1 / SCALE`
/// currency units, i.e. with twelve fractional decimal digits.
#[derive(Clone, Copy, Debug, PartialEq, Eq, Structural)]
pub struct Amount {
    units: i128,
}

/// Number of fixed-point units per whole currency unit (ten to the twelfth).
pub const SCALE: i128 = 1_000_000_000_000;

/// Largest magnitude, in fixed-point units, that an `Amount` may hold.
pub const MAX_UNITS: i128 = 10_000_000_000_000_000_000_000_000_000_000_000_000;

/// A value on the fixed-point grid is representable when its magnitude
/// does not exceed `MAX_UNITS`.
pub open spec fn amount_fits(v: int) -> bool {
    -(MAX_UNITS as int) <= v <= MAX_UNITS as int
}

impl View for Amount {
    type V = int;

    closed spec fn view(&self) -> int {
        self.units as int
    }
}

impl Amount {
    /// The representation invariant: the stored value is on the grid.
    /// It holds of every `Amount`.
    #[verifier::type_invariant]
    pub open spec fn in_range(self) -> bool {
        amount_fits(self@)
    }

    /// The zero amount.
    pub fn zero() -> (r: Amount)
        ensures
            r@ == 0,
            r.in_range(),
    {
        Amount { units: 0 }
    }

    /// Builds an amount from a raw count of fixed-point units.
    pub fn from_units(units: i128) -> (r: Amount)
        requires
            -MAX_UNITS <= units <= MAX_UNITS,
        ensures
            r@ == units,
            r.in_range(),
    {
        Amount { units }
    }

    /// The raw count of fixed-point units.
    pub fn to_units(self) -> (r: i128)
        ensures
            r == self@,
    {
        self.units
    }

    /// Exact addition; `None` when the sum leaves the representable range.
    pub fn checked_add(self, other: Amount) -> (r: Option<Amount>)
        ensures
            amount_fits(self@ + other@) ==> (r matches Some(s) && s@ == self@ + other@
                && s.in_range()),
            !amount_fits(self@ + other@) ==> r is None,
    {
        proof {
            use_type_invariant(self);
            use_type_invariant(other);
        }
        let sum: i128 = self.units + other.units;
        if -MAX_UNITS <= sum && sum <= MAX_UNITS {
            Some(Amount { units: sum })
        } else {
            None
        }
    }

    /// Exact subtraction; `None` when the difference leaves the representable range.
    pub fn checked_sub(self, other: Amount) -> (r: Option<Amount>)
        ensures
            amount_fits(self@ - other@) ==> (r matches Some(s) && s@ == self@ - other@
                && s.in_range()),
            !amount_fits(self@ - other@) ==> r is None,
    {
        proof {
            use_type_invariant(self);
            use_type_invariant(other);
        }
        let diff: i128 = self.units - other.units;
        if -MAX_UNITS <= diff && diff <= MAX_UNITS {
            Some(Amount { units: diff })
        } else {
            None
        }
    }

    /// Strict order on the underlying values.
    pub fn gt(self, other: Amount) -> (r: bool)
        ensures
            r == (self@ > other@),
    {
        self.units > other.units
    }

    /// Rounds to four fractional decimal digits, ties away from zero.
    pub fn round_dp4(self) -> (r: Amount)
        ensures
            r@ == round4(self@),
            r.in_range(),
    {
        proof {
            use_type_invariant(self);
            lemma_round4_mag_in_range(if self@ >= 0 { self@ } else { -self@ });
        }
        let neg = self.units < 0;
        let mag: u128 = if neg {
            (-self.units) as u128
        } else {
            self.units as u128
        };
        let rem: u128 = mag % (ROUND_STEP as u128);
        proof {
            vstd::arithmetic::div_mod::lemma_fundamental_div_mod(mag as int, ROUND_STEP as int);
        }
        let base: u128 = mag - rem;
        let rmag: u128 = if rem >= (ROUND_HALF as u128) {
            base + (ROUND_STEP as u128)
        } else {
            base
        };
        let ri: i128 = rmag as i128;
        Amount { units: if neg { -ri } else { ri } }
    }

    /// Parses a decimal string — an optional sign, digits, at most one
    /// point — into an exact fixed-point amount. Strings off the grammar,
    /// with more fractional digits than the grid holds, or denoting a value
    /// off the grid, are rejected.
    #[verifier::loop_isolation(false)]
    #[verifier::rlimit(60)]
    pub fn parse(s: &[u8]) -> (r: Option<Amount>)
        ensures
            match decimal_str_value(s@) {
                Some(v) => if amount_fits(v) {
                    r matches Some(a) && a@ == v
                } else {
                    r is None
                },
                None => r is None,
            },
    {
        let n = s.len();
        let start: usize = if n > 0 && (s[0] == 43 || s[0] == 45) {
            1
        } else {
            0
        };
        let neg = n > 0 && s[0] == 45;
        let ghost body = s@.skip(start as int);
        proof {
            if start == 0 {
                assert(body =~= s@);
            }
        }
        if n == start {
            proof {
                body.index_of_first_ensures(46u8);
            }
            return None;
        }
        // Find the first decimal point.
        let mut j: usize = start;
        while j < n && s[j] != 46
            invariant
                start <= j <= n,
                forall|t: int| start <= t < j ==> s@[t] != 46,
            decreases n - j,
        {
            j = j + 1;
        }
        let has_dot = j < n;
        proof {
            body.index_of_first_ensures(46u8);
            if has_dot {
                assert(body[j - start] == s@[j as int]);
                assert(body.contains(46u8));
                let i = body.index_of_first(46u8).unwrap();
                assert(body[i] == s@[i + start]);
                assert(i == j - start);
            } else {
                match body.index_of_first(46u8) {
                    Some(i) => {
                        assert(body[i] == s@[i + start]);
                        assert(false);
                    },
                    None => {},
                }
            }
        }
        let ghost ipe: int = if has_dot {
            j - start
        } else {
            n - start
        };
        let ghost ip = body.subrange(0, ipe);
        let ghost fp = body.subrange(ipe + 1, n - start);
        proof {
            if !has_dot {
                assert(ip =~= body);
            }
            assert(s@.subrange(start as int, j as int) =~= ip);
        }
        if has_dot && n - start == 1 {
            // A lone point carries no digit.
            return None;
        }
        // The whole part.
        let mut acc: i128 = 0;
        let mut k: usize = start;
        while k < j
            invariant
                start <= k <= j,
                all_digits(s@.subrange(start as int, k as int)),
                acc == digits_value(s@.subrange(start as int, k as int)),
                0 <= acc <= MAX_WHOLE,
            decreases j - k,
        {
            let b = s[k];
            if b < 48 || b > 57 {
                proof {
                    assert(ip[k - start] == s@[k as int]);
                    assert(!all_digits(ip));
                }
                return None;
            }
            let next: i128 = acc * 10 + ((b - 48) as i128);
            proof {
                let pfx = s@.subrange(start as int, k as int);
                let pfx1 = s@.subrange(start as int, k as int + 1);
                assert(pfx1.drop_last() =~= pfx);
                assert(digits_value(pfx1) == next);
            }
            if next > MAX_WHOLE {
                proof {
                    if decimal_str_value(s@) is Some {
                        let pfx1 = s@.subrange(start as int, k as int + 1);
                        let rest = s@.subrange(k as int + 1, j as int);
                        assert(ip =~= pfx1 + rest);
                        assert(all_digits(ip));
                        assert forall|t: int| 0 <= t < rest.len() implies is_ascii_digit(
                            rest[t],
                        ) by {
                            assert(rest[t] == ip[k + 1 - start + t]);
                        }
                        lemma_digits_prefix_le(pfx1, rest);
                        let vip = digits_value(ip);
                        assert(vip > MAX_WHOLE);
                        vstd::arithmetic::mul::lemma_mul_inequality(
                            MAX_WHOLE as int + 1,
                            vip,
                            SCALE as int,
                        );
                        assert((MAX_WHOLE as int + 1) * (SCALE as int) == MAX_UNITS as int
                            + SCALE as int);
                        if has_dot {
                            assert(all_digits(fp));
                            lemma_digits_value_bound(fp);
                            lemma_pow10_pos(((FRAC_DIGITS as int) - fp.len()) as nat);
                            vstd::arithmetic::mul::lemma_mul_nonnegative(
                                digits_value(fp),
                                pow10(((FRAC_DIGITS as int) - fp.len()) as nat),
                            );
                        }
                    }
                }
                return None;
            }
            acc = next;
            k = k + 1;
        }
        // The fractional part.
        let mut facc: i128 = 0;
        let mut flen: usize = 0;
        if has_dot {
            let fl = n - j - 1;
            if fl > FRAC_DIGITS {
                return None;
            }
            flen = fl;
            let mut k2: usize = j + 1;
            while k2 < n
                invariant
                    j + 1 <= k2 <= n,
                    all_digits(s@.subrange(j + 1, k2 as int)),
                    facc == digits_value(s@.subrange(j + 1, k2 as int)),
                    0 <= facc < pow10((k2 - j - 1) as nat),
                decreases n - k2,
            {
                let b = s[k2];
                if b < 48 || b > 57 {
                    proof {
                        assert(fp[k2 - j - 1] == s@[k2 as int]);
                        assert(!all_digits(fp));
                    }
                    return None;
                }
                proof {
                    let pfx = s@.subrange(j + 1, k2 as int);
                    let pfx1 = s@.subrange(j + 1, k2 as int + 1);
                    assert(pfx1.drop_last() =~= pfx);
                    lemma_pow10_monotone((k2 - j - 1) as nat, 11);
                    lemma_pow10_frac();
                    lemma_pow10_monotone(11, 12);
                }
                facc = facc * 10 + ((b - 48) as i128);
                k2 = k2 + 1;
            }
            proof {
                assert(s@.subrange(j + 1, n as int) =~= fp);
            }
        }
        let mult: i128 = pow10_exec(FRAC_DIGITS - flen);
        proof {
            assert(s@.subrange(start as int, j as int) =~= ip);
            lemma_pow10_frac();
            vstd::arithmetic::mul::lemma_mul_inequality(acc as int, MAX_WHOLE as int, SCALE as int);
            vstd::arithmetic::mul::lemma_mul_nonnegative(acc as int, SCALE as int);
            if has_dot {
                lemma_frac_bound(facc as int, flen as int, mult as int);
            }
        }
        let whole: i128 = acc * SCALE;
        let mag: i128 = if has_dot {
            whole + facc * mult
        } else {
            whole
        };
        if mag > MAX_UNITS {
            return None;
        }
        Some(Amount { units: if neg { -mag } else { mag } })
    }
}

/// Ten to the `e`th, executable, on the small range the parser needs.
fn pow10_exec(e: usize) -> (r: i128)
    requires
        e <= FRAC_DIGITS,
    ensures
        r == pow10(e as nat),
        1 <= r <= SCALE,
{
    proof {
        lemma_pow10_frac();
    }
    let mut r: i128 = 1;
    let mut i: usize = 0;
    while i < e
        invariant
            i <= e <= FRAC_DIGITS,
            r == pow10(i as nat),
            pow10(FRAC_DIGITS as nat) == SCALE as int,
        decreases e - i,
    {
        proof {
            lemma_pow10_pos(i as nat);
            lemma_pow10_monotone(i as nat + 1, FRAC_DIGITS as nat);
        }
        r = r * 10;
        i = i + 1;
    }
    proof {
        lemma_pow10_pos(e as nat);
        lemma_pow10_monotone(e as nat, FRAC_DIGITS as nat);
    }
    r
}

/// The fractional digits contribute less than one whole grid unit.
proof fn lemma_frac_bound(facc: int, flen: int, mult: int)
    requires
        0 <= flen <= FRAC_DIGITS,
        0 <= facc < pow10(flen as nat),
        mult == pow10((FRAC_DIGITS - flen) as nat),
    ensures
        0 <= facc * mult < SCALE as int,
{
    lemma_pow10_pos((FRAC_DIGITS - flen) as nat);
    vstd::arithmetic::mul::lemma_mul_nonnegative(facc, mult);
    vstd::arithmetic::mul::lemma_mul_inequality(facc, pow10(flen as nat) - 1, mult);
    lemma_pow10_adds(flen as nat, (FRAC_DIGITS - flen) as nat);
    lemma_pow10_frac();
    assert((pow10(flen as nat) - 1) * mult == pow10(flen as nat) * mult - mult) by (nonlinear_arith);
}


/// Fixed-point units per unit of the fourth fractional decimal digit.
pub const ROUND_STEP: i128 = 100_000_000;

/// Half of `ROUND_STEP`: the tie point of the rounding rule.
pub const ROUND_HALF: i128 = 50_000_000;

/// `MAX_UNITS` counted in multiples of `ROUND_STEP`.
pub const ROUND_Q: i128 = 100_000_000_000_000_000_000_000_000_000;

/// Rounding of a non-negative value to the nearest multiple of `ROUND_STEP`,
/// halves rounded up.
pub open spec fn round4_mag(v: int) -> int {
    let rem = v % (ROUND_STEP as int);
    if rem >= ROUND_HALF as int {
        v - rem + ROUND_STEP
    } else {
        v - rem
    }
}

/// Rounding to four fractional decimal digits, ties away from zero.
pub open spec fn round4(v: int) -> int {
    if v >= 0 {
        round4_mag(v)
    } else {
        -round4_mag(-v)
    }
}

/// Number of fractional decimal digits of the fixed-point grid.
pub const FRAC_DIGITS: usize = 12;

/// Largest whole part a parsed amount may carry, chosen so that
/// `MAX_WHOLE * SCALE == MAX_UNITS`.
pub const MAX_WHOLE: i128 = 10_000_000_000_000_000_000_000_000;

/// The value an unsigned decimal string denotes on the fixed-point grid:
/// digits, at most one point, at least one digit overall, and no more
/// fractional digits than the grid holds.
pub open spec fn decimal_body_value(s: Seq<u8>) -> Option<int> {
    match s.index_of_first(46u8) {
        None => if s.len() >= 1 && all_digits(s) {
            Some(digits_value(s) * (SCALE as int))
        } else {
            None
        },
        Some(i) => {
            let ip = s.subrange(0, i);
            let fp = s.subrange(i + 1, s.len() as int);
            if ip.len() + fp.len() >= 1 && all_digits(ip) && all_digits(fp) && fp.len()
                <= FRAC_DIGITS {
                Some(
                    digits_value(ip) * (SCALE as int) + digits_value(fp) * pow10(
                        ((FRAC_DIGITS as int) - fp.len()) as nat,
                    ),
                )
            } else {
                None
            }
        },
    }
}

/// The value a signed decimal string denotes: an optional sign, then an
/// unsigned decimal body.
pub open spec fn decimal_str_value(s: Seq<u8>) -> Option<int> {
    if s.len() > 0 && (s[0] == 43 || s[0] == 45) {
        match decimal_body_value(s.skip(1)) {
            Some(m) => Some(
                if s[0] == 45 {
                    -m
                } else {
                    m
                },
            ),
            None => None,
        }
    } else {
        decimal_body_value(s)
    }
}

proof fn lemma_pow10_frac()
    ensures
        pow10(FRAC_DIGITS as nat) == SCALE as int,
{
    assert(pow10(0) == 1);
    assert(pow10(1) == 10);
    assert(pow10(2) == 100);
    assert(pow10(3) == 1000);
    assert(pow10(4) == 10000);
    assert(pow10(5) == 100000);
    assert(pow10(6) == 1000000);
    assert(pow10(7) == 10000000);
    assert(pow10(8) == 100000000);
    assert(pow10(9) == 1000000000);
    assert(pow10(10) == 10000000000);
    assert(pow10(11) == 100000000000);
    assert(pow10(12) == 1000000000000);
}

/// A representable value stays representable after rounding.
proof fn lemma_round4_mag_in_range(v: int)
    requires
        0 <= v <= MAX_UNITS as int,
    ensures
        0 <= round4_mag(v) <= MAX_UNITS as int,
{
    let step = ROUND_STEP as int;
    let rem = v % step;
    vstd::arithmetic::div_mod::lemma_fundamental_div_mod(v, step);
    vstd::arithmetic::div_mod::lemma_mod_bound(v, step);
    let k = v / step;
    assert(MAX_UNITS as int == ROUND_Q * step);
    vstd::arithmetic::div_mod::lemma_fundamental_div_mod_converse(
        MAX_UNITS as int,
        step,
        ROUND_Q as int,
        0,
    );
    vstd::arithmetic::div_mod::lemma_div_is_ordered(v, MAX_UNITS as int, step);
    assert(k <= ROUND_Q);
    if rem >= ROUND_HALF as int {
        assert(k < ROUND_Q) by {
            if k == ROUND_Q {
                assert(v - rem == ROUND_Q * step);
            }
        }
        vstd::arithmetic::mul::lemma_mul_inequality(k, ROUND_Q - 1, step);
        assert((ROUND_Q - 1) * step == MAX_UNITS - ROUND_STEP);
    } else {
        vstd::arithmetic::div_mod::lemma_div_pos_is_pos(v, step);
        vstd::arithmetic::mul::lemma_mul_nonnegative(k, step);
    }
}

} // verus!
