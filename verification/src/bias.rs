//! What holds of the bias that the solver fits at a candidate.

use vstd::prelude::*;
use crate::solver::{best_bias, candidate_sse, residual, sse_under, sum_w, sum_wx, weight, EndpointObs};

verus! {

/// The weighted sum of the squared residuals of the first `n` observations.
pub open spec fn sum_wxx(obs: Seq<EndpointObs>, dist_m: Seq<u32>, speed_m_s: u64, n: nat) -> int
    decreases n,
{
    if n == 0 {
        0
    } else {
        let x = residual(obs, dist_m, speed_m_s, n - 1);
        sum_wxx(obs, dist_m, speed_m_s, (n - 1) as nat) + weight(obs[n - 1].jitter_ns) * (x * x)
    }
}

/// The objective is a parabola in the bias.
pub proof fn lemma_sse_is_quadratic(
    obs: Seq<EndpointObs>,
    dist_m: Seq<u32>,
    speed_m_s: u64,
    bias: int,
    n: nat,
)
    ensures
        sse_under(obs, dist_m, speed_m_s, bias, n) == sum_w(obs, n) * (bias * bias) - 2 * bias
            * sum_wx(obs, dist_m, speed_m_s, n) + sum_wxx(obs, dist_m, speed_m_s, n),
    decreases n,
{
    if n > 0 {
        let m = (n - 1) as nat;
        lemma_sse_is_quadratic(obs, dist_m, speed_m_s, bias, m);
        let w = weight(obs[n - 1].jitter_ns) as int;
        let x = residual(obs, dist_m, speed_m_s, n - 1);
        let e = x - bias;
        let pw = sum_w(obs, m) as int;
        let pwx = sum_wx(obs, dist_m, speed_m_s, m);
        let pwxx = sum_wxx(obs, dist_m, speed_m_s, m);
        let ee = e * e;
        let xx = x * x;
        let bb = bias * bias;
        let xb = x * bias;
        let wx = w * x;
        assert(ee >= 0) by (nonlinear_arith)
            requires
                ee == e * e,
        ;
        assert(w * ee >= 0) by (nonlinear_arith)
            requires
                w >= 0,
                ee >= 0,
        ;
        assert(ee == xx - 2 * xb + bb) by (nonlinear_arith)
            requires
                e == x - bias,
                ee == e * e,
                xx == x * x,
                bb == bias * bias,
                xb == x * bias,
        ;
        assert(w * ee == w * xx - 2 * (w * xb) + w * bb) by (nonlinear_arith)
            requires
                ee == xx - 2 * xb + bb,
        ;
        assert(w * xb == bias * wx) by (nonlinear_arith)
            requires
                xb == x * bias,
                wx == w * x,
        ;
        assert((pw + w) * bb == pw * bb + w * bb) by (nonlinear_arith);
        assert(2 * bias * (pwx + wx) == 2 * bias * pwx + 2 * (bias * wx)) by (nonlinear_arith);
    } else {
        assert(0 * (bias * bias) - 2 * bias * 0 + 0 == 0) by (nonlinear_arith);
    }
}

/// Where nothing has weight, no residual counts.
proof fn lemma_weightless(obs: Seq<EndpointObs>, dist_m: Seq<u32>, speed_m_s: u64, n: nat)
    requires
        sum_w(obs, n) == 0,
    ensures
        sum_wx(obs, dist_m, speed_m_s, n) == 0,
    decreases n,
{
    if n > 0 {
        lemma_weightless(obs, dist_m, speed_m_s, (n - 1) as nat);
        let x = residual(obs, dist_m, speed_m_s, n - 1);
        assert(0 * x == 0) by (nonlinear_arith);
    }
}

/// The best bias is never negative, and it is where the objective is
/// stationary in the bias, to the nanosecond: the derivative of the objective
/// in the bias, which is `-2 * (S - N * bias)` for the sum `N` of the weights
/// and the weighted sum `S` of the residuals, lies within `N` of 0 there,
/// unless the weighted mean of the residuals is negative, where the bias is 0.
pub proof fn lemma_bias_is_stationary(obs: Seq<EndpointObs>, dist_m: Seq<u32>, speed_m_s: u64)
    ensures
        ({
            let n = sum_w(obs, obs.len()) as int;
            let s = sum_wx(obs, dist_m, speed_m_s, obs.len());
            let b = best_bias(obs, dist_m, speed_m_s) as int;
            &&& b >= 0
            &&& s <= 0 ==> b == 0
            &&& n > 0 && s > 0 ==> -n <= 2 * (s - n * b) < n
        }),
{
    let n = sum_w(obs, obs.len()) as int;
    let s = sum_wx(obs, dist_m, speed_m_s, obs.len());
    let b = best_bias(obs, dist_m, speed_m_s) as int;
    if n > 0 && s > 0 {
        assert(b == (2 * s + n) / (2 * n));
        assert(-n <= 2 * (s - n * b) < n) by (nonlinear_arith)
            requires
                b == (2 * s + n) / (2 * n),
                n > 0,
        ;
    }
}

/// No bias that is not negative fits a candidate better than the best bias.
pub proof fn lemma_bias_is_optimal(
    obs: Seq<EndpointObs>,
    dist_m: Seq<u32>,
    speed_m_s: u64,
    bias: nat,
)
    ensures
        candidate_sse(obs, dist_m, speed_m_s) <= sse_under(
            obs,
            dist_m,
            speed_m_s,
            bias as int,
            obs.len(),
        ),
{
    let n = sum_w(obs, obs.len()) as int;
    let s = sum_wx(obs, dist_m, speed_m_s, obs.len());
    let q = sum_wxx(obs, dist_m, speed_m_s, obs.len());
    let b = best_bias(obs, dist_m, speed_m_s) as int;
    let c = bias as int;
    lemma_sse_is_quadratic(obs, dist_m, speed_m_s, b, obs.len());
    lemma_sse_is_quadratic(obs, dist_m, speed_m_s, c, obs.len());
    lemma_bias_is_stationary(obs, dist_m, speed_m_s);
    if n == 0 {
        lemma_weightless(obs, dist_m, speed_m_s, obs.len());
        assert(0 * (b * b) - 2 * b * 0 == 0 * (c * c) - 2 * c * 0) by (nonlinear_arith);
    } else if s <= 0 {
        assert(n * (c * c) - 2 * c * s >= n * (0 * 0) - 2 * 0 * s) by (nonlinear_arith)
            requires
                n >= 0,
                c >= 0,
                s <= 0,
        ;
    } else {
        let nb = n * b;
        let nc = n * c;
        let gain = n * (c * c) - 2 * c * s - (n * (b * b) - 2 * b * s);
        assert(-n <= 2 * (s - nb) < n);
        assert(n * (c * c) == c * nc && n * (b * b) == b * nb) by (nonlinear_arith)
            requires
                nb == n * b,
                nc == n * c,
        ;
        let d = c - b;
        let g = nc + nb - 2 * s;
        let cross = c * nb;
        assert(cross == b * nc) by (nonlinear_arith)
            requires
                cross == c * nb,
                nb == n * b,
                nc == n * c,
        ;
        assert(d * g == c * nc + cross - 2 * c * s - b * nc - b * nb + 2 * b * s)
            by (nonlinear_arith)
            requires
                d == c - b,
                g == nc + nb - 2 * s,
                cross == c * nb,
        ;
        assert(gain == d * g);
        if c > b {
            assert(nc >= nb + n) by (nonlinear_arith)
                requires
                    nb == n * b,
                    nc == n * c,
                    c >= b + 1,
                    n > 0,
            ;
            assert(d * g >= 0) by (nonlinear_arith)
                requires
                    d >= 1,
                    g >= 0,
            ;
        } else if c < b {
            assert(nc <= nb - n) by (nonlinear_arith)
                requires
                    nb == n * b,
                    nc == n * c,
                    c <= b - 1,
                    n > 0,
            ;
            assert(d * g >= 0) by (nonlinear_arith)
                requires
                    d <= -1,
                    g <= 0,
            ;
        } else {
            assert(d * g == 0) by (nonlinear_arith)
                requires
                    d == 0,
            ;
        }
    }
}

} // verus!
