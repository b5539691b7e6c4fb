//! Fixed-point representation of monetary quantities.
//!
//! Every price, weight and market value in this crate is an integer count of
//! ten-thousandths: the real quantity `x` is stored as `x * PRICE_SCALE`
//! rounded toward zero. This keeps the chart arithmetic exact and decidable.
//! This module holds the scale constants and a verified parser for the
//! decimal notation used by fund providers, which may contain `,` group
//! separators (for example `123,342.28`).

use vstd::prelude::*;
use vstd::string::StringSliceAdditionalSpecFns;

use crate::types::Error;

verus! {

/// Number of fixed-point units per whole unit: values carry four decimals.
pub const PRICE_SCALE: u64 = 10_000;

/// The value `100.0` on the normalized percentage axis, in fixed-point units.
pub const PCT_BASE: u64 = 1_000_000;

/// Largest close value a well-formed price series may carry
/// (`1_000_000_000.0` in real terms). The bound keeps the chart
/// normalization products inside `u128`.
pub const CLOSE_MAX: u64 = 10_000_000_000_000;

/// Exclusive upper bound on well-formed timestamps (2100-01-01T00:00:00Z).
pub const TS_MAX: i64 = 4_102_444_800;

/// Seconds per day, used to normalize timestamps to UTC midnight.
pub const DAY_SECONDS: i64 = 86_400;

/// The byte `','`.
pub const COMMA: u8 = 44;

/// The byte `'-'`.
pub const MINUS: u8 = 45;

/// The byte `'.'`.
pub const DOT: u8 = 46;

pub open spec fn is_ascii_digit(b: u8) -> bool {
    48 <= b && b <= 57
}

/// The sequence with every `','` removed, order preserved.
pub open spec fn strip_commas(s: Seq<u8>) -> Seq<u8>
    decreases s.len(),
{
    if s.len() == 0 {
        Seq::empty()
    } else if s.last() == COMMA {
        strip_commas(s.drop_last())
    } else {
        strip_commas(s.drop_last()).push(s.last())
    }
}

pub open spec fn all_digits(s: Seq<u8>) -> bool {
    forall|i: int| 0 <= i < s.len() ==> is_ascii_digit(s[i])
}

/// Value of a digit string read in base ten; `digits_val(seq![52, 50]) == 42`.
pub open spec fn digits_val(s: Seq<u8>) -> int
    decreases s.len(),
{
    if s.len() == 0 {
        0
    } else {
        digits_val(s.drop_last()) * 10 + (s.last() - 48)
    }
}

/// Index of the first `'.'`, or `s.len()` if there is none.
pub open spec fn first_dot(s: Seq<u8>) -> int
    decreases s.len(),
{
    if s.len() == 0 {
        0
    } else if s[0] == DOT {
        0
    } else {
        1 + first_dot(s.drop_first())
    }
}

/// The digits before the first `'.'` of a decimal body.
pub open spec fn int_digits(body: Seq<u8>) -> Seq<u8> {
    body.take(first_dot(body))
}

/// The characters after the first `'.'` of a decimal body, empty if no dot.
pub open spec fn frac_digits(body: Seq<u8>) -> Seq<u8> {
    if first_dot(body) < body.len() {
        body.skip(first_dot(body) + 1)
    } else {
        Seq::empty()
    }
}

/// A decimal body is digits, at most one dot, and at least one digit.
pub open spec fn valid_body(body: Seq<u8>) -> bool {
    &&& all_digits(int_digits(body))
    &&& all_digits(frac_digits(body))
    &&& int_digits(body).len() + frac_digits(body).len() >= 1
}

pub open spec fn pow10(n: nat) -> int
    decreases n,
{
    if n == 0 {
        1
    } else {
        10 * pow10((n - 1) as nat)
    }
}

/// Value of the fractional digits in fixed-point units: the first four
/// fractional digits are kept, further digits are truncated.
pub open spec fn frac_scaled(fb: Seq<u8>) -> int {
    if fb.len() >= 4 {
        digits_val(fb.take(4))
    } else {
        digits_val(fb) * pow10((4 - fb.len()) as nat)
    }
}

pub open spec fn is_negative(stripped: Seq<u8>) -> bool {
    stripped.len() > 0 && stripped[0] == MINUS
}

/// The decimal body: the stripped text minus its optional leading `'-'`.
pub open spec fn body_of(stripped: Seq<u8>) -> Seq<u8> {
    if is_negative(stripped) {
        stripped.drop_first()
    } else {
        stripped
    }
}

/// Magnitude of a valid decimal body in fixed-point units.
pub open spec fn decimal_magnitude(body: Seq<u8>) -> int {
    digits_val(int_digits(body)) * PRICE_SCALE + frac_scaled(frac_digits(body))
}

/// What `parse_weird_float` accepts, and the exact value it denotes:
/// after removing every `','`, the text must be an optional `'-'` followed
/// by digits with at most one `'.'` and at least one digit overall.
pub open spec fn spec_parse_weird(s: Seq<u8>) -> Option<int> {
    let stripped = strip_commas(s);
    let body = body_of(stripped);
    if valid_body(body) {
        if is_negative(stripped) {
            Some(-decimal_magnitude(body))
        } else {
            Some(decimal_magnitude(body))
        }
    } else {
        None
    }
}

proof fn lemma_strip_push(t: Seq<u8>, b: u8)
    ensures
        strip_commas(t.push(b)) == if b == COMMA {
            strip_commas(t)
        } else {
            strip_commas(t).push(b)
        },
{
    assert(t.push(b).drop_last() =~= t);
    assert(t.push(b).last() == b);
}

proof fn lemma_first_dot_push(body: Seq<u8>, b: u8)
    ensures
        first_dot(body.push(b)) == if first_dot(body) < body.len() {
            first_dot(body)
        } else if b == DOT {
            body.len() as int
        } else {
            body.len() + 1 as int
        },
    decreases body.len(),
{
    lemma_first_dot_bounds(body);
    let pb = body.push(b);
    if body.len() == 0 {
        assert(pb[0] == b);
        if b == DOT {
            assert(first_dot(pb) == 0);
        } else {
            assert(pb.drop_first() =~= Seq::<u8>::empty());
            assert(first_dot(Seq::<u8>::empty()) == 0);
            assert(first_dot(pb) == 1 + first_dot(pb.drop_first()));
        }
    } else {
        assert(pb[0] == body[0]);
        if body[0] == DOT {
            assert(first_dot(body) == 0);
            assert(first_dot(pb) == 0);
        } else {
            assert(pb.drop_first() =~= body.drop_first().push(b));
            lemma_first_dot_push(body.drop_first(), b);
            assert(first_dot(pb) == 1 + first_dot(pb.drop_first()));
            assert(first_dot(body) == 1 + first_dot(body.drop_first()));
        }
    }
}

proof fn lemma_first_dot_bounds(body: Seq<u8>)
    ensures
        0 <= first_dot(body) <= body.len(),
        first_dot(body) < body.len() ==> body[first_dot(body)] == DOT,
        forall|i: int| 0 <= i < first_dot(body) ==> body[i] != DOT,
    decreases body.len(),
{
    if body.len() > 0 && body[0] != DOT {
        lemma_first_dot_bounds(body.drop_first());
        assert forall|i: int| 0 <= i < first_dot(body) implies body[i] != DOT by {
            if i > 0 {
                assert(body.drop_first()[i - 1] == body[i]);
            }
        }
    }
}

proof fn lemma_digits_val_nonneg(s: Seq<u8>)
    requires
        all_digits(s),
    ensures
        digits_val(s) >= 0,
    decreases s.len(),
{
    if s.len() > 0 {
        assert(all_digits(s.drop_last())) by {
            assert(forall|i: int|
                0 <= i < s.drop_last().len() ==> s.drop_last()[i] == s[i]);
        }
        lemma_digits_val_nonneg(s.drop_last());
    }
}

/// Parses the decimal notation used by fund providers (digits with optional
/// `,` group separators, optional leading `-`, optional fraction) into
/// fixed-point units, truncating past the fourth decimal. Rejects any other
/// shape, and any magnitude above `i64::MAX` units, with a generic error.
pub fn parse_weird_float(s: &str) -> (r: Result<i64, Error>)
    ensures
        match r {
            Ok(v) => spec_parse_weird(s.spec_bytes()) == Some(v as int),
            Err(e) => {
                &&& e is Generic
                &&& match spec_parse_weird(s.spec_bytes()) {
                    Some(v) => v > i64::MAX || v < -(i64::MAX as int),
                    None => true,
                }
            },
        },
{
    let bs: &[u8] = s.as_bytes();
    let n: usize = bs.len();
    let ghost full: Seq<u8> = s.spec_bytes();

    let mut i: usize = 0;
    let mut started: bool = false;
    let mut neg: bool = false;
    let mut has_dot: bool = false;
    let mut valid: bool = true;
    let mut digit_seen: bool = false;
    let mut too_big: bool = false;
    let mut ipv: u128 = 0;
    let mut fv: u64 = 0;
    let mut fcount: u8 = 0;
    let ghost mut bad_in_frac: bool = false;
    let ghost mut bad_idx: int = 0;

    while i < n
        invariant
            bs@ == full,
            n == full.len(),
            0 <= i <= n,
            0 <= fcount <= 4,
            ({
                let p = strip_commas(full.take(i as int));
                let body = body_of(p);
                let ib = int_digits(body);
                let fb = frac_digits(body);
                &&& started == (p.len() > 0)
                &&& neg == is_negative(p)
                &&& has_dot == (first_dot(body) < body.len())
                &&& valid ==> all_digits(ib) && all_digits(fb)
                &&& !valid ==> (if bad_in_frac {
                    0 <= bad_idx < fb.len() && !is_ascii_digit(fb[bad_idx])
                } else {
                    0 <= bad_idx < ib.len() && !is_ascii_digit(ib[bad_idx])
                })
                &&& valid ==> digit_seen == (ib.len() + fb.len() >= 1)
                &&& (valid && !too_big) ==> ipv == digits_val(ib)
                &&& (valid && too_big) ==> digits_val(ib) > i64::MAX
                &&& valid ==> fcount == if fb.len() < 4 {
                    fb.len() as int
                } else {
                    4
                }
                &&& valid ==> fv == digits_val(fb.take(fcount as int))
                &&& fv < pow10(fcount as nat)
                &&& ipv <= i64::MAX as u128
            }),
        decreases n - i,
    {
        let b = bs[i];
        proof {
            assert(full.take(i + 1) =~= full.take(i as int).push(full[i as int]));
            lemma_strip_push(full.take(i as int), b);
        }
        let ghost p_old = strip_commas(full.take(i as int));
        let ghost body_old = body_of(p_old);

        if b == 44 {
            // group separator: dropped
        } else {
            proof {
                if p_old.len() > 0 {
                    assert(p_old.push(b)[0] == p_old[0]);
                    if p_old[0] == MINUS {
                        assert(p_old.push(b).drop_first() =~= p_old.drop_first().push(b));
                    }
                } else {
                    assert(p_old.push(b)[0] == b);
                    if b == MINUS {
                        assert(p_old.push(b).drop_first() =~= Seq::<u8>::empty());
                        assert(body_of(p_old.push(b)) =~= Seq::<u8>::empty());
                    }
                }
            }
            if b == 45 && !started {
                neg = true;
                proof {
                    let body_new = body_of(p_old.push(b));
                    assert(body_new.len() == 0);
                    assert(int_digits(body_new) =~= Seq::<u8>::empty());
                    assert(frac_digits(body_new) =~= Seq::<u8>::empty());
                }
            } else {
                // the byte lands at the end of the decimal body
                let ghost body_new = body_of(p_old.push(b));
                let ghost ib_old = int_digits(body_old);
                let ghost fb_old = frac_digits(body_old);
                let ghost ib_new = int_digits(body_new);
                let ghost fb_new = frac_digits(body_new);
                proof {
                    assert(body_new =~= body_old.push(b));
                    lemma_first_dot_push(body_old, b);
                    lemma_first_dot_bounds(body_old);
                    if first_dot(body_old) < body_old.len() {
                        // dot already present: int part unchanged, byte joins fraction
                        assert(ib_new =~= ib_old);
                        assert(fb_new =~= fb_old.push(b));
                    } else if b == DOT {
                        assert(ib_new =~= ib_old);
                        assert(fb_new =~= Seq::<u8>::empty());
                        assert(body_old =~= ib_old);
                    } else {
                        assert(ib_new =~= ib_old.push(b));
                        assert(fb_new =~= Seq::<u8>::empty());
                        assert(fb_old =~= Seq::<u8>::empty());
                        assert(ib_new.drop_last() =~= ib_old);
                        assert(ib_new.last() == b);
                    }
                }
                if b == 46 {
                    if has_dot {
                        // a second dot makes the fraction non-numeric
                        if valid {
                            proof {
                                bad_in_frac = true;
                                bad_idx = fb_old.len() as int;
                                assert(fb_new[bad_idx] == b);
                            }
                        }
                        valid = false;
                    } else {
                        has_dot = true;
                    }
                } else if 48 <= b && b <= 57 {
                    digit_seen = true;
                    if valid {
                        if !has_dot {
                            if !too_big {
                                let d: u128 = (b - 48) as u128;
                                let new_ipv: u128 = ipv * 10 + d;
                                proof {
                                    assert(digits_val(ib_new) == digits_val(ib_old) * 10 + (b
                                        - 48));
                                }
                                if new_ipv > i64::MAX as u128 {
                                    too_big = true;
                                } else {
                                    ipv = new_ipv;
                                }
                            } else {
                                proof {
                                    lemma_digits_val_nonneg(ib_old);
                                    assert(digits_val(ib_new) == digits_val(ib_old) * 10 + (b
                                        - 48));
                                }
                            }
                        } else {
                            if fcount < 4 {
                                proof {
                                    assert(fb_new.take(fcount + 1) =~= fb_old.take(
                                        fcount as int,
                                    ).push(b));
                                    assert(fb_new.take(fcount + 1).drop_last() =~= fb_old.take(
                                        fcount as int,
                                    ));
                                    assert(fb_new.take(fcount + 1).last() == b);
                                    assert(pow10((fcount + 1) as nat) == 10 * pow10(
                                        fcount as nat,
                                    ));
                                    assert(pow10(0) == 1);
                                    assert(pow10(1) == 10);
                                    assert(pow10(2) == 100);
                                    assert(pow10(3) == 1000);
                                }
                                fv = fv * 10 + (b - 48) as u64;
                                fcount = fcount + 1;
                            } else {
                                proof {
                                    assert(fb_new.take(fcount as int) =~= fb_old.take(
                                        fcount as int,
                                    ));
                                }
                            }
                        }
                    }
                } else {
                    // neither digit, dot, comma nor leading minus
                    if valid {
                        proof {
                            if has_dot {
                                bad_in_frac = true;
                                bad_idx = fb_old.len() as int;
                                assert(fb_new[bad_idx] == b);
                            } else {
                                bad_in_frac = false;
                                bad_idx = ib_old.len() as int;
                                assert(ib_new[bad_idx] == b);
                            }
                        }
                    }
                    valid = false;
                }
                proof {
                    if !valid && bad_in_frac {
                        assert(0 <= bad_idx < fb_new.len() && !is_ascii_digit(fb_new[bad_idx]));
                    }
                    if !valid && !bad_in_frac {
                        assert(0 <= bad_idx < ib_new.len() && !is_ascii_digit(ib_new[bad_idx]));
                    }
                }
            }
            started = true;
        }
        i += 1;
    }

    proof {
        assert(full.take(n as int) =~= full);
    }
    let ghost stripped = strip_commas(full);
    let ghost body = body_of(stripped);

    if !valid {
        proof {
            if bad_in_frac {
                assert(!all_digits(frac_digits(body))) by {
                    assert(!is_ascii_digit(frac_digits(body)[bad_idx]));
                }
            } else {
                assert(!all_digits(int_digits(body))) by {
                    assert(!is_ascii_digit(int_digits(body)[bad_idx]));
                }
            }
        }
        return Err(Error::Generic(String::from_str("not a decimal number")));
    }
    if !digit_seen {
        return Err(Error::Generic(String::from_str("not a decimal number")));
    }
    if too_big {
        proof {
            lemma_frac_scaled_nonneg(frac_digits(body));
            assert(decimal_magnitude(body) > i64::MAX) by (nonlinear_arith)
                requires
                    digits_val(int_digits(body)) > i64::MAX,
                    frac_scaled(frac_digits(body)) >= 0,
                    decimal_magnitude(body) == digits_val(int_digits(body)) * PRICE_SCALE
                        + frac_scaled(frac_digits(body)),
                    PRICE_SCALE == 10_000,
            ;
        }
        return Err(Error::Generic(String::from_str("magnitude out of range")));
    }

    // scale the kept fractional digits up to four places
    let rest: u64 = if fcount == 0 {
        10_000
    } else if fcount == 1 {
        1_000
    } else if fcount == 2 {
        100
    } else if fcount == 3 {
        10
    } else {
        1
    };
    proof {
        assert(pow10(0) == 1);
        assert(pow10(1) == 10);
        assert(pow10(2) == 100);
        assert(pow10(3) == 1000);
        assert(pow10(4) == 10000);
        let fb = frac_digits(body);
        if fb.len() >= 4 {
            assert(fcount == 4);
            assert(fb.take(4) =~= fb.take(fcount as int));
        } else {
            assert(fb.take(fcount as int) =~= fb);
        }
        assert(frac_scaled(fb) == fv * rest);
    }
    let mag: u128 = ipv * (PRICE_SCALE as u128) + (fv as u128) * (rest as u128);
    proof {
        assert(mag == decimal_magnitude(body));
    }
    if mag > i64::MAX as u128 {
        return Err(Error::Generic(String::from_str("magnitude out of range")));
    }
    let v: i64 = mag as i64;
    if neg {
        Ok(-v)
    } else {
        Ok(v)
    }
}

proof fn lemma_frac_scaled_nonneg(fb: Seq<u8>)
    requires
        all_digits(fb),
    ensures
        frac_scaled(fb) >= 0,
{
    if fb.len() >= 4 {
        assert(all_digits(fb.take(4))) by {
            assert(forall|j: int| 0 <= j < 4 ==> fb.take(4)[j] == fb[j]);
        }
        lemma_digits_val_nonneg(fb.take(4));
    } else {
        lemma_pow10_pos((4 - fb.len()) as nat);
        lemma_digits_val_nonneg(fb);
        vstd::arithmetic::mul::lemma_mul_nonnegative(
            digits_val(fb),
            pow10((4 - fb.len()) as nat),
        );
    }
}

proof fn lemma_pow10_pos(n: nat)
    ensures
        pow10(n) >= 1,
    decreases n,
{
    if n > 0 {
        lemma_pow10_pos((n - 1) as nat);
    }
}

} // verus!
