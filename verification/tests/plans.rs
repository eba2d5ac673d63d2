use libm_ext::limits::{F32_MANTISSA_DIGITS, F64_MANTISSA_DIGITS, MAXINTFLOAT32, MAXINTFLOAT64};
use libm_ext::plan::{cospi_plan, sincospi_plan, sinpi_plan, CosPlan, SinCosPlan, SinPlan};
use libm_ext::quadrant::{cos_term, quadrant, sin_term, Kernel, Term};

/// The value a term stands for, given `s = sin(πr)` and `c = cos(πr)`.
fn value(t: Term, s: i64, c: i64) -> i64 {
    let k = match t.kernel {
        Kernel::Sin => s,
        Kernel::Cos => c,
    };
    if t.negated {
        0 - k
    } else {
        k
    }
}

fn sin_value(p: SinPlan, s: i64, c: i64) -> i64 {
    match p {
        SinPlan::Reduced { term, flip } => {
            let v = value(term, s, c);
            if flip {
                -v
            } else {
                v
            }
        }
        SinPlan::SignedZero => 0,
        SinPlan::Nan => panic!("no value"),
    }
}

fn cos_value(p: CosPlan, s: i64, c: i64) -> i64 {
    match p {
        CosPlan::Reduced { term } => value(term, s, c),
        CosPlan::One => 1,
        CosPlan::Nan => panic!("no value"),
    }
}

#[test]
fn test_maxintfloat64() {
    assert_eq!(9007199254740992, MAXINTFLOAT64);
}

#[test]
fn test_maxintfloat32() {
    assert_eq!(16777216, MAXINTFLOAT32);
}

#[test]
fn test_mantissa_digits() {
    assert_eq!(F64_MANTISSA_DIGITS, 53);
    assert_eq!(F32_MANTISSA_DIGITS, 24);
    assert_eq!(MAXINTFLOAT64, 1u64 << F64_MANTISSA_DIGITS);
    assert_eq!(MAXINTFLOAT32, 1u64 << F32_MANTISSA_DIGITS);
}

#[test]
fn test_quadrant_values() {
    assert_eq!(quadrant(0), 0);
    assert_eq!(quadrant(1), 1);
    assert_eq!(quadrant(2), 2);
    assert_eq!(quadrant(3), 3);
    assert_eq!(quadrant(4), 0);
    assert_eq!(quadrant(2001), 1);
    assert_eq!(quadrant(-1), 3);
    assert_eq!(quadrant(-6), 2);
    assert_eq!(quadrant(i64::MAX), 3);
    assert_eq!(quadrant(i64::MIN), 0);
}

#[test]
fn test_quadrant_tables() {
    let sin_expected = [(Kernel::Sin, false), (Kernel::Cos, false), (Kernel::Sin, true), (Kernel::Cos, true)];
    let cos_expected = [(Kernel::Cos, false), (Kernel::Sin, true), (Kernel::Cos, true), (Kernel::Sin, false)];
    for q in 0u8..4 {
        let (k, neg) = sin_expected[q as usize];
        assert_eq!(sin_term(q), Term { kernel: k, negated: neg });
        let (k, neg) = cos_expected[q as usize];
        assert_eq!(cos_term(q), Term { kernel: k, negated: neg });
    }
}

#[test]
fn test_not_finite_gives_nan() {
    for huge in [false, true] {
        for negative in [false, true] {
            assert_eq!(sinpi_plan(true, huge, negative, 0), SinPlan::Nan);
            assert_eq!(cospi_plan(true, huge, 0), CosPlan::Nan);
            assert_eq!(sincospi_plan(true, huge, negative, 0), SinCosPlan::Nan);
        }
    }
}

#[test]
fn test_huge_gives_signed_zero_and_one() {
    for negative in [false, true] {
        assert_eq!(sinpi_plan(false, true, negative, 7), SinPlan::SignedZero);
        assert_eq!(sincospi_plan(false, true, negative, 7), SinCosPlan::SignedZeroAndOne);
    }
    assert_eq!(cospi_plan(false, true, 7), CosPlan::One);
}

#[test]
fn test_reduced_plans() {
    // |x| = 1.5 + r: n = 3
    assert_eq!(
        sinpi_plan(false, false, true, 3),
        SinPlan::Reduced { term: Term { kernel: Kernel::Cos, negated: true }, flip: true }
    );
    assert_eq!(
        cospi_plan(false, false, 3),
        CosPlan::Reduced { term: Term { kernel: Kernel::Sin, negated: false } }
    );
    assert_eq!(
        sincospi_plan(false, false, false, 1),
        SinCosPlan::Reduced {
            sin: Term { kernel: Kernel::Cos, negated: false },
            cos: Term { kernel: Kernel::Sin, negated: true },
            flip_sin: false,
        }
    );
}

#[test]
fn test_sincospi_plan_consistency() {
    for n in -10i64..=2001 {
        for negative in [false, true] {
            match sincospi_plan(false, false, negative, n) {
                SinCosPlan::Reduced { sin, cos, flip_sin } => {
                    assert_eq!(sinpi_plan(false, false, negative, n), SinPlan::Reduced { term: sin, flip: flip_sin });
                    assert_eq!(cospi_plan(false, false, n), CosPlan::Reduced { term: cos });
                }
                other => panic!("unexpected plan {:?}", other),
            }
        }
    }
}

#[test]
fn test_plan_pythagorean_identity() {
    let points = [(3i64, 4i64), (0, 1), (1, 0), (-5, 12), (7, -24)];
    for n in 0i64..100 {
        let ps = sinpi_plan(false, false, n % 3 == 0, n);
        let pc = cospi_plan(false, false, n);
        for &(s, c) in points.iter() {
            let a = sin_value(ps, s, c);
            let b = cos_value(pc, s, c);
            assert_eq!(a * a + b * b, s * s + c * c);
        }
    }
    let a = sin_value(sinpi_plan(false, true, true, 0), 3, 4);
    let b = cos_value(cospi_plan(false, true, 0), 3, 4);
    assert_eq!(a * a + b * b, 1);
}

#[test]
fn test_sinpi_odd_sincospi_even_cos() {
    for n in 0i64..40 {
        let pos = sinpi_plan(false, false, false, n);
        let neg = sinpi_plan(false, false, true, n);
        assert_eq!(sin_value(neg, 3, 4), -sin_value(pos, 3, 4));
        match (sincospi_plan(false, false, true, n), sincospi_plan(false, false, false, n)) {
            (
                SinCosPlan::Reduced { sin: s1, cos: c1, flip_sin: f1 },
                SinCosPlan::Reduced { sin: s2, cos: c2, flip_sin: f2 },
            ) => {
                assert_eq!(s1, s2);
                assert_eq!(c1, c2);
                assert!(f1 && !f2);
            }
            other => panic!("unexpected plans {:?}", other),
        }
    }
}

#[test]
fn test_period_two() {
    for n in 0i64..40 {
        assert_eq!(sinpi_plan(false, false, false, n), sinpi_plan(false, false, false, n + 4));
        assert_eq!(cospi_plan(false, false, n), cospi_plan(false, false, n + 4));
        assert_eq!(sincospi_plan(false, false, true, n), sincospi_plan(false, false, true, n + 4));
    }
}

#[test]
fn test_sinpi_plan_special_values() {
    // x = k, an integer: n = 2|k|, r = 0, where sin(πr) = 0 and cos(πr) = 1
    for k in -10i64..=10 {
        let p = sinpi_plan(false, false, k < 0, 2 * k.abs());
        assert_eq!(sin_value(p, 0, 1), 0);
    }
    // x = 0.5, 1.5, -0.5
    assert_eq!(sin_value(sinpi_plan(false, false, false, 1), 0, 1), 1);
    assert_eq!(sin_value(sinpi_plan(false, false, false, 3), 0, 1), -1);
    assert_eq!(sin_value(sinpi_plan(false, false, true, 1), 0, 1), -1);
}

#[test]
fn test_cospi_plan_special_values() {
    // x = 0, 1, 2, -1
    assert_eq!(cos_value(cospi_plan(false, false, 0), 0, 1), 1);
    assert_eq!(cos_value(cospi_plan(false, false, 2), 0, 1), -1);
    assert_eq!(cos_value(cospi_plan(false, false, 4), 0, 1), 1);
    assert_eq!(cos_value(cospi_plan(false, false, 2), 0, 1), -1);
    // x = 0.5, 1.5, -0.5
    assert_eq!(cos_value(cospi_plan(false, false, 1), 0, 1), 0);
    assert_eq!(cos_value(cospi_plan(false, false, 3), 0, 1), 0);
}
