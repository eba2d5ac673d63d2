//! Quarter-turn reduction: `x = n/2 + r` with `r` in `[-1/4, 1/4]`.
use vstd::prelude::*;

verus! {

/// Sine and cosine of `θ + q·π/2`, given `s = sin θ` and `c = cos θ`.
///
/// One quarter turn maps `(sin θ, cos θ)` to `(cos θ, -sin θ)`.
pub open spec fn quarter_turns(s: int, c: int, q: nat) -> (int, int)
    decreases q,
{
    if q == 0 {
        (s, c)
    } else {
        quarter_turns(c, -s, (q - 1) as nat)
    }
}

/// Sine and cosine of `θ + n·π/2` for any integer `n`.
pub open spec fn shifted(s: int, c: int, n: int) -> (int, int) {
    quarter_turns(s, c, (n % 4) as nat)
}

/// Reduces the half-period count `n` to its quadrant, `n mod 4`.
pub fn quadrant(n: i64) -> (q: u8)
    ensures
        q < 4,
        q as int == n % 4,
{
    let m: i64 = n & 3;
    assert((n & 3) as int == n % 4) by (bit_vector);
    m as u8
}


/// The two polynomial kernels evaluated on the reduced argument `r`.
#[derive(Clone, Copy, Debug, PartialEq, Eq, Structural)]
pub enum Kernel {
    /// The kernel for `sin(πr)`.
    Sin,
    /// The kernel for `cos(πr)`.
    Cos,
}

/// A kernel value, used as it is or subtracted from zero.
#[derive(Clone, Copy, Debug, PartialEq, Eq, Structural)]
pub struct Term {
    pub kernel: Kernel,
    pub negated: bool,
}

/// The value that `kernel` stands for, given `s = sin(πr)` and `c = cos(πr)`.
pub open spec fn kernel_value(kernel: Kernel, s: int, c: int) -> int {
    match kernel {
        Kernel::Sin => s,
        Kernel::Cos => c,
    }
}

/// The value that `t` stands for, given `s = sin(πr)` and `c = cos(πr)`.
pub open spec fn term_value(t: Term, s: int, c: int) -> int {
    if t.negated {
        -kernel_value(t.kernel, s, c)
    } else {
        kernel_value(t.kernel, s, c)
    }
}

/// The term that gives `sin(π(r + q/2))` for a quadrant `q`.
pub fn sin_term(q: u8) -> (t: Term)
    requires
        q < 4,
    ensures
        forall|s: int, c: int| #[trigger] term_value(t, s, c) == quarter_turns(s, c, q as nat).0,
{
    proof {
        reveal_with_fuel(quarter_turns, 4);
    }
    match q {
        0 => Term { kernel: Kernel::Sin, negated: false },
        1 => Term { kernel: Kernel::Cos, negated: false },
        2 => Term { kernel: Kernel::Sin, negated: true },
        _ => Term { kernel: Kernel::Cos, negated: true },
    }
}

/// The term that gives `cos(π(r + q/2))` for a quadrant `q`.
pub fn cos_term(q: u8) -> (t: Term)
    requires
        q < 4,
    ensures
        forall|s: int, c: int| #[trigger] term_value(t, s, c) == quarter_turns(s, c, q as nat).1,
{
    proof {
        reveal_with_fuel(quarter_turns, 4);
    }
    match q {
        0 => Term { kernel: Kernel::Cos, negated: false },
        1 => Term { kernel: Kernel::Sin, negated: true },
        2 => Term { kernel: Kernel::Cos, negated: true },
        _ => Term { kernel: Kernel::Sin, negated: false },
    }
}

/// Four quarter turns make a full turn: `sin` and `cos` of `θ + 2π` are those of `θ`.
pub proof fn lemma_quarter_turns_period(s: int, c: int, q: nat)
    ensures
        quarter_turns(s, c, q + 4) == quarter_turns(s, c, q),
    decreases q,
{
    reveal_with_fuel(quarter_turns, 5);
    if q > 0 {
        lemma_quarter_turns_period(c, -s, (q - 1) as nat);
        assert(quarter_turns(s, c, q + 4) == quarter_turns(c, -s, (q + 3) as nat));
    }
}

/// Counting quarter turns modulo four gives the same point: for every `n >= 0`,
/// `shifted(s, c, n)` is `n` quarter turns from `(s, c)`.
pub proof fn lemma_shifted_counts_turns(s: int, c: int, n: nat)
    ensures
        shifted(s, c, n as int) == quarter_turns(s, c, n),
    decreases n,
{
    if n >= 4 {
        lemma_shifted_counts_turns(s, c, (n - 4) as nat);
        lemma_quarter_turns_period(s, c, (n - 4) as nat);
        assert((n as int) % 4 == ((n - 4) as int) % 4);
    } else {
        assert((n as int) % 4 == n);
    }
}

/// A quarter turn keeps `sin² + cos²`: every shifted point stays on the circle
/// that `(s, c)` lies on.
pub proof fn lemma_quarter_turns_keep_norm(s: int, c: int, q: nat)
    ensures
        ({
            let p = quarter_turns(s, c, q);
            p.0 * p.0 + p.1 * p.1 == s * s + c * c
        }),
    decreases q,
{
    if q > 0 {
        lemma_quarter_turns_keep_norm(c, -s, (q - 1) as nat);
        assert((-s) * (-s) == s * s) by (nonlinear_arith);
    }
}

/// The cosine of `θ` is the sine of `θ + π/2`.
pub proof fn lemma_cos_is_shifted_sin(s: int, c: int, n: int)
    ensures
        shifted(s, c, n).1 == shifted(s, c, n + 1).0,
{
    reveal_with_fuel(quarter_turns, 5);
    assert(0 <= n % 4 < 4);
    assert((n + 1) % 4 == if n % 4 == 3 { 0 } else { n % 4 + 1 });
}

/// A term is determined by the value it stands for.
pub proof fn lemma_term_determined(t1: Term, t2: Term)
    requires
        forall|s: int, c: int| term_value(t1, s, c) == term_value(t2, s, c),
    ensures
        t1 == t2,
{
    assert(term_value(t1, 1, 0) == term_value(t2, 1, 0));
    assert(term_value(t1, 0, 1) == term_value(t2, 0, 1));
}

} // verus!
