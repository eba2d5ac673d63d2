//! The branch that `sinpi`, `cospi` and `sincospi` take for an input `x`.
//!
//! The caller supplies what it read off `x`: whether `|x|` is infinite or not a
//! number, whether `|x|` is at least the first float at which every float is an
//! even integer, whether `x` has its sign bit set, and `n = round(2|x|)`, so
//! that `|x| = n/2 + r` with `r` in `[-1/4, 1/4]`. The plan then says what to
//! evaluate: a special value, or a kernel on `r` with the signs to apply.
use crate::quadrant::{
    cos_term, lemma_quarter_turns_keep_norm, lemma_shifted_counts_turns, lemma_term_determined,
    quadrant, quarter_turns, shifted,
    sin_term, term_value, Term,
};
use vstd::prelude::*;

verus! {

/// What `sinpi` returns.
#[derive(Clone, Copy, Debug, PartialEq, Eq, Structural)]
pub enum SinPlan {
    /// Not a number.
    Nan,
    /// Zero, with the sign of `x`.
    SignedZero,
    /// `term` evaluated on `r`, then negated where `flip` holds.
    Reduced { term: Term, flip: bool },
}

/// What `cospi` returns.
#[derive(Clone, Copy, Debug, PartialEq, Eq, Structural)]
pub enum CosPlan {
    /// Not a number.
    Nan,
    /// One.
    One,
    /// `term` evaluated on `r`.
    Reduced { term: Term },
}

/// What `sincospi` returns, as a pair `(sin(πx), cos(πx))`.
#[derive(Clone, Copy, Debug, PartialEq, Eq, Structural)]
pub enum SinCosPlan {
    /// Not a number, twice.
    Nan,
    /// Zero with the sign of `x`, and one.
    SignedZeroAndOne,
    /// `sin` and `cos` evaluated on `r`; the first negated where `flip_sin` holds.
    Reduced { sin: Term, cos: Term, flip_sin: bool },
}

/// `t` gives `sin(π(r + n/2))`.
pub open spec fn is_sin_term(t: Term, n: int) -> bool {
    forall|s: int, c: int| #[trigger] term_value(t, s, c) == shifted(s, c, n).0
}

/// `t` gives `cos(π(r + n/2))`.
pub open spec fn is_cos_term(t: Term, n: int) -> bool {
    forall|s: int, c: int| #[trigger] term_value(t, s, c) == shifted(s, c, n).1
}

/// The plan that `sinpi` follows for an input read as the arguments say.
pub open spec fn is_sinpi_plan(not_finite: bool, huge: bool, negative: bool, n: int, p: SinPlan) -> bool {
    if not_finite {
        p == SinPlan::Nan
    } else if huge {
        p == SinPlan::SignedZero
    } else {
        p matches SinPlan::Reduced { term, flip } && flip == negative && is_sin_term(term, n)
    }
}

/// The plan that `cospi` follows for an input read as the arguments say.
pub open spec fn is_cospi_plan(not_finite: bool, huge: bool, n: int, p: CosPlan) -> bool {
    if not_finite {
        p == CosPlan::Nan
    } else if huge {
        p == CosPlan::One
    } else {
        p matches CosPlan::Reduced { term } && is_cos_term(term, n)
    }
}

/// The plan that `sincospi` follows for an input read as the arguments say.
pub open spec fn is_sincospi_plan(
    not_finite: bool,
    huge: bool,
    negative: bool,
    n: int,
    p: SinCosPlan,
) -> bool {
    if not_finite {
        p == SinCosPlan::Nan
    } else if huge {
        p == SinCosPlan::SignedZeroAndOne
    } else {
        p matches SinCosPlan::Reduced { sin, cos, flip_sin } && flip_sin == negative && is_sin_term(
            sin,
            n,
        ) && is_cos_term(cos, n)
    }
}

proof fn lemma_quadrant_shift(s: int, c: int, n: int, q: u8)
    requires
        q as int == n % 4,
    ensures
        shifted(s, c, n) == quarter_turns(s, c, q as nat),
{
}

/// Chooses the branch of `sinpi`.
///
/// `not_finite`: `|x|` is infinite or not a number; `huge`: `|x|` is at least
/// `MAXINTFLOAT`; `negative`: the sign bit of `x` is set; `n`: `round(2|x|)`.
pub fn sinpi_plan(not_finite: bool, huge: bool, negative: bool, n: i64) -> (p: SinPlan)
    ensures
        is_sinpi_plan(not_finite, huge, negative, n as int, p),
        !not_finite && !huge ==> forall|s: int, c: int|
            #[trigger] sin_result(p, s, c) == if negative { -(if (n as int) % 4 == 0 { s } else if (n as int) % 4 == 1 { c } else if (n as int) % 4 == 2 { -s } else { -c }) } else { (if (n as int) % 4 == 0 { s } else if (n as int) % 4 == 1 { c } else if (n as int) % 4 == 2 { -s } else { -c }) },
{
    if not_finite {
        return SinPlan::Nan;
    }
    if huge {
        return SinPlan::SignedZero;
    }
    let q = quadrant(n);
    let term = sin_term(q);
    proof {
        reveal_with_fuel(quarter_turns, 4);
        assert forall|s: int, c: int| #[trigger] term_value(term, s, c) == shifted(s, c, n as int).0 by {
            lemma_quadrant_shift(s, c, n as int, q);
        }
    }
    SinPlan::Reduced { term, flip: negative }
}

/// Chooses the branch of `cospi`, which does not depend on the sign of `x`.
pub fn cospi_plan(not_finite: bool, huge: bool, n: i64) -> (p: CosPlan)
    ensures
        is_cospi_plan(not_finite, huge, n as int, p),
        !not_finite && !huge ==> forall|s: int, c: int| #[trigger] cos_result(p, s, c) == (if (n as int) % 4 == 0 { c } else if (n as int) % 4 == 1 { -s } else if (n as int) % 4 == 2 { -c } else { s }),
{
    if not_finite {
        return CosPlan::Nan;
    }
    if huge {
        return CosPlan::One;
    }
    let q = quadrant(n);
    let term = cos_term(q);
    proof {
        reveal_with_fuel(quarter_turns, 4);
        assert forall|s: int, c: int| #[trigger] term_value(term, s, c) == shifted(s, c, n as int).1 by {
            lemma_quadrant_shift(s, c, n as int, q);
        }
    }
    CosPlan::Reduced { term }
}

/// Chooses the branch of `sincospi`: one reduction, both kernels.
pub fn sincospi_plan(not_finite: bool, huge: bool, negative: bool, n: i64) -> (p: SinCosPlan)
    ensures
        is_sincospi_plan(not_finite, huge, negative, n as int, p),
        !not_finite && !huge ==> forall|s: int, c: int|
            #[trigger] sincos_result(p, s, c) == (if negative { -(if (n as int) % 4 == 0 { s } else if (n as int) % 4 == 1 { c } else if (n as int) % 4 == 2 { -s } else { -c }) } else { (if (n as int) % 4 == 0 { s } else if (n as int) % 4 == 1 { c } else if (n as int) % 4 == 2 { -s } else { -c }) }, (if (n as int) % 4 == 0 { c } else if (n as int) % 4 == 1 { -s } else if (n as int) % 4 == 2 { -c } else { s })),
{
    if not_finite {
        return SinCosPlan::Nan;
    }
    if huge {
        return SinCosPlan::SignedZeroAndOne;
    }
    let q = quadrant(n);
    let sin = sin_term(q);
    let cos = cos_term(q);
    proof {
        reveal_with_fuel(quarter_turns, 4);
        assert forall|s: int, c: int| #[trigger] term_value(sin, s, c) == shifted(s, c, n as int).0 by {
            lemma_quadrant_shift(s, c, n as int, q);
        }
        assert forall|s: int, c: int| #[trigger] term_value(cos, s, c) == shifted(s, c, n as int).1 by {
            lemma_quadrant_shift(s, c, n as int, q);
        }
    }
    SinCosPlan::Reduced { sin, cos, flip_sin: negative }
}

/// The number that `sinpi` returns under a plan other than `Nan`, given the
/// kernel values `s = sin(πr)` and `c = cos(πr)`.
pub open spec fn sin_result(p: SinPlan, s: int, c: int) -> int {
    match p {
        SinPlan::Reduced { term, flip } => if flip {
            -term_value(term, s, c)
        } else {
            term_value(term, s, c)
        },
        _ => 0,
    }
}

/// The number that `cospi` returns under a plan other than `Nan`.
pub open spec fn cos_result(p: CosPlan, s: int, c: int) -> int {
    match p {
        CosPlan::Reduced { term } => term_value(term, s, c),
        _ => 1,
    }
}

/// The pair that `sincospi` returns under a plan other than `Nan`.
pub open spec fn sincos_result(p: SinCosPlan, s: int, c: int) -> (int, int) {
    match p {
        SinCosPlan::Reduced { sin, cos, flip_sin } => (
            if flip_sin {
                -term_value(sin, s, c)
            } else {
                term_value(sin, s, c)
            },
            term_value(cos, s, c),
        ),
        _ => (0, 1),
    }
}

/// `sincospi` gives what `sinpi` and `cospi` give: the same special values,
/// and the same terms and sign on the same reduced argument.
pub proof fn lemma_sincospi_is_sinpi_and_cospi(
    not_finite: bool,
    huge: bool,
    negative: bool,
    n: int,
    ps: SinPlan,
    pc: CosPlan,
    psc: SinCosPlan,
)
    requires
        is_sinpi_plan(not_finite, huge, negative, n, ps),
        is_cospi_plan(not_finite, huge, n, pc),
        is_sincospi_plan(not_finite, huge, negative, n, psc),
    ensures
        match psc {
            SinCosPlan::Nan => ps == SinPlan::Nan && pc == CosPlan::Nan,
            SinCosPlan::SignedZeroAndOne => ps == SinPlan::SignedZero && pc == CosPlan::One,
            SinCosPlan::Reduced { sin, cos, flip_sin } => ps == (SinPlan::Reduced {
                term: sin,
                flip: flip_sin,
            }) && pc == (CosPlan::Reduced { term: cos }),
        },
{
    if !not_finite && !huge {
        let ts = ps->term;
        let tc = pc->term;
        let sin = psc->sin;
        let cos = psc->cos;
        assert forall|s: int, c: int| term_value(ts, s, c) == term_value(sin, s, c) by {
            assert(term_value(ts, s, c) == shifted(s, c, n).0);
            assert(term_value(sin, s, c) == shifted(s, c, n).0);
        }
        assert forall|s: int, c: int| term_value(tc, s, c) == term_value(cos, s, c) by {
            assert(term_value(tc, s, c) == shifted(s, c, n).1);
            assert(term_value(cos, s, c) == shifted(s, c, n).1);
        }
        lemma_term_determined(ts, sin);
        lemma_term_determined(tc, cos);
    }
}

/// `sin²(πx) + cos²(πx)` is kept by the reduction: for every input that is
/// not infinite or NaN, the two results square-sum to `sin²(πr) + cos²(πr)`,
/// or to one where `|x|` is so large that `x` is an even integer.
pub proof fn lemma_pythagorean(
    huge: bool,
    negative: bool,
    n: int,
    ps: SinPlan,
    pc: CosPlan,
    s: int,
    c: int,
)
    requires
        is_sinpi_plan(false, huge, negative, n, ps),
        is_cospi_plan(false, huge, n, pc),
    ensures
        huge ==> sin_result(ps, s, c) * sin_result(ps, s, c) + cos_result(pc, s, c) * cos_result(
            pc,
            s,
            c,
        ) == 1,
        !huge ==> sin_result(ps, s, c) * sin_result(ps, s, c) + cos_result(pc, s, c) * cos_result(
            pc,
            s,
            c,
        ) == s * s + c * c,
{
    if !huge {
        let ts = ps->term;
        let tc = pc->term;
        let p = shifted(s, c, n);
        lemma_quarter_turns_keep_norm(s, c, (n % 4) as nat);
        assert(term_value(ts, s, c) == p.0);
        assert(term_value(tc, s, c) == p.1);
        let v = term_value(ts, s, c);
        assert((-v) * (-v) == v * v) by (nonlinear_arith);
    }
}

/// `sinpi` is odd: flipping the sign of `x` (which leaves `|x|`, and so the
/// classification and `n`, unchanged) negates the result.
pub proof fn lemma_sinpi_odd(
    not_finite: bool,
    huge: bool,
    n: int,
    p_neg: SinPlan,
    p_pos: SinPlan,
    s: int,
    c: int,
)
    requires
        is_sinpi_plan(not_finite, huge, true, n, p_neg),
        is_sinpi_plan(not_finite, huge, false, n, p_pos),
    ensures
        p_neg == SinPlan::Nan <==> p_pos == SinPlan::Nan,
        p_neg == SinPlan::SignedZero <==> p_pos == SinPlan::SignedZero,
        sin_result(p_neg, s, c) == -sin_result(p_pos, s, c),
{
}

/// `sincospi` is odd in its first and even in its second result.
pub proof fn lemma_sincospi_odd_even(
    not_finite: bool,
    huge: bool,
    n: int,
    p_neg: SinCosPlan,
    p_pos: SinCosPlan,
)
    requires
        is_sincospi_plan(not_finite, huge, true, n, p_neg),
        is_sincospi_plan(not_finite, huge, false, n, p_pos),
    ensures
        match (p_neg, p_pos) {
            (
                SinCosPlan::Reduced { sin: s1, cos: c1, flip_sin: f1 },
                SinCosPlan::Reduced { sin: s2, cos: c2, flip_sin: f2 },
            ) => s1 == s2 && c1 == c2 && f1 && !f2,
            _ => p_neg == p_pos,
        },
{
    if !not_finite && !huge {
        let s1 = p_neg->sin;
        let c1 = p_neg->cos;
        let s2 = p_pos->sin;
        let c2 = p_pos->cos;
        assert forall|s: int, c: int| term_value(s1, s, c) == term_value(s2, s, c) by {
            assert(term_value(s1, s, c) == shifted(s, c, n).0);
            assert(term_value(s2, s, c) == shifted(s, c, n).0);
        }
        assert forall|s: int, c: int| term_value(c1, s, c) == term_value(c2, s, c) by {
            assert(term_value(c1, s, c) == shifted(s, c, n).1);
            assert(term_value(c2, s, c) == shifted(s, c, n).1);
        }
        lemma_term_determined(s1, s2);
        lemma_term_determined(c1, c2);
    }
}

/// `sinpi`, `cospi` and `sincospi` have period two: adding 2 to `|x|` adds 4
/// to `n` and leaves `r`, and the plan, unchanged.
pub proof fn lemma_period_two(not_finite: bool, huge: bool, negative: bool, n: int)
    ensures
        forall|p: SinPlan|
            #[trigger] is_sinpi_plan(not_finite, huge, negative, n, p) <==> is_sinpi_plan(
                not_finite,
                huge,
                negative,
                n + 4,
                p,
            ),
        forall|p: CosPlan|
            #[trigger] is_cospi_plan(not_finite, huge, n, p) <==> is_cospi_plan(
                not_finite,
                huge,
                n + 4,
                p,
            ),
        forall|p: SinCosPlan|
            #[trigger] is_sincospi_plan(not_finite, huge, negative, n, p) <==> is_sincospi_plan(
                not_finite,
                huge,
                negative,
                n + 4,
                p,
            ),
{
    assert((n + 4) % 4 == n % 4);
    assert forall|s: int, c: int| #[trigger] shifted(s, c, n) == shifted(s, c, n + 4) by {}
}

/// The values at integers and half-integers, where `r = 0` and the kernels give
/// `sin(0) = 0` and `cos(0) = 1`: `sin(πk) = 0`, `cos(πk) = (-1)^k`,
/// `sin(π(k + 1/2)) = ±(-1)^k` (the sign of `x` applied) and `cos(π(k + 1/2)) = 0`,
/// where `n = 2k` or `n = 2k + 1`.
pub proof fn lemma_integer_and_half_integer_points(
    negative: bool,
    n: int,
    ps: SinPlan,
    pc: CosPlan,
)
    requires
        is_sinpi_plan(false, false, negative, n, ps),
        is_cospi_plan(false, false, n, pc),
    ensures
        n % 2 == 0 ==> sin_result(ps, 0, 1) == 0,
        n % 4 == 0 ==> cos_result(pc, 0, 1) == 1,
        n % 4 == 2 ==> cos_result(pc, 0, 1) == -1,
        n % 2 == 1 ==> cos_result(pc, 0, 1) == 0,
        n % 4 == 1 ==> sin_result(ps, 0, 1) == if negative { -1int } else { 1int },
        n % 4 == 3 ==> sin_result(ps, 0, 1) == if negative { 1int } else { -1int },
{
    reveal_with_fuel(quarter_turns, 4);
    let ts = ps->term;
    let tc = pc->term;
    assert(term_value(ts, 0, 1) == shifted(0, 1, n).0);
    assert(term_value(tc, 0, 1) == shifted(0, 1, n).1);
    assert(n % 2 == 0 <==> n % 4 == 0 || n % 4 == 2);
}

/// The quadrant table of `sinpi`: with `s = sin(πr)` and `c = cos(πr)`,
/// `sin(πx)` is `s`, `c`, `-s`, `-c` for `n mod 4 = 0, 1, 2, 3`, negated where
/// `x` is negative, for every finite input below the integer threshold.
pub proof fn lemma_sinpi_quadrant_table(negative: bool, n: int, p: SinPlan, s: int, c: int)
    requires
        is_sinpi_plan(false, false, negative, n, p),
    ensures
        sin_result(p, s, c) == if negative { -(if n % 4 == 0 { s } else if n % 4 == 1 { c } else if n % 4 == 2 { -s } else { -c }) } else { (if n % 4 == 0 { s } else if n % 4 == 1 { c } else if n % 4 == 2 { -s } else { -c }) },
{
    reveal_with_fuel(quarter_turns, 4);
    assert(term_value(p->term, s, c) == shifted(s, c, n).0);
}

/// The quadrant table of `cospi`: `cos(πx)` is `c`, `-s`, `-c`, `s` for
/// `n mod 4 = 0, 1, 2, 3`, whatever the sign of `x`.
pub proof fn lemma_cospi_quadrant_table(n: int, p: CosPlan, s: int, c: int)
    requires
        is_cospi_plan(false, false, n, p),
    ensures
        cos_result(p, s, c) == (if n % 4 == 0 { c } else if n % 4 == 1 { -s } else if n % 4 == 2 { -c } else { s }),
{
    reveal_with_fuel(quarter_turns, 4);
    assert(term_value(p->term, s, c) == shifted(s, c, n).1);
}

/// The quadrant table of `sincospi`: both columns of the two tables above.
pub proof fn lemma_sincospi_quadrant_table(negative: bool, n: int, p: SinCosPlan, s: int, c: int)
    requires
        is_sincospi_plan(false, false, negative, n, p),
    ensures
        sincos_result(p, s, c) == (if negative { -(if n % 4 == 0 { s } else if n % 4 == 1 { c } else if n % 4 == 2 { -s } else { -c }) } else { (if n % 4 == 0 { s } else if n % 4 == 1 { c } else if n % 4 == 2 { -s } else { -c }) }, (if n % 4 == 0 { c } else if n % 4 == 1 { -s } else if n % 4 == 2 { -c } else { s })),
{
    reveal_with_fuel(quarter_turns, 4);
    assert(term_value(p->sin, s, c) == shifted(s, c, n).0);
    assert(term_value(p->cos, s, c) == shifted(s, c, n).1);
}

/// For `x >= 0` with `|x| = n/2 + r`, `sinpi` and `cospi` give the sine and
/// cosine of `πr` turned `n` quarter turns: `sin(π(r + n/2))`, `cos(π(r + n/2))`.
pub proof fn lemma_results_are_n_quarter_turns(n: nat, ps: SinPlan, pc: CosPlan, s: int, c: int)
    requires
        is_sinpi_plan(false, false, false, n as int, ps),
        is_cospi_plan(false, false, n as int, pc),
    ensures
        sin_result(ps, s, c) == quarter_turns(s, c, n).0,
        cos_result(pc, s, c) == quarter_turns(s, c, n).1,
{
    lemma_shifted_counts_turns(s, c, n);
    assert(term_value(ps->term, s, c) == shifted(s, c, n as int).0);
    assert(term_value(pc->term, s, c) == shifted(s, c, n as int).1);
}

} // verus!
