//! Soft-shadow sampling of area lights.
use crate::options::shadow_grid_size;
use vstd::prelude::*;

verus! {

/// Sign of the dot product of a surface normal with a ray direction.
#[derive(Debug, Clone, Copy, PartialEq, Eq, Structural)]
pub enum Side {
    /// The sign is positive (`+0.0` included).
    Positive,
    /// The sign is negative (`-0.0` included).
    Negative,
    /// The product is not a number.
    Undefined,
}

/// What one shadow ray, cast from a point of an area light toward the
/// shading point, found on its way.
#[derive(Debug, Clone, Copy, PartialEq, Eq, Structural)]
pub struct ShadowSample {
    /// Index of the nearest shape the shadow ray hits, if any.
    pub blocker: Option<usize>,
    /// Side of the surface the shadow ray arrives from.
    pub side: Side,
}

/// Fraction of shadow rays that reach the shading point: `lit / total`.
#[derive(Debug, Clone, Copy, PartialEq, Eq, Structural)]
pub struct ShadowFactor {
    pub lit: usize,
    pub total: usize,
}

impl ShadowFactor {
    pub open spec fn well_formed(&self) -> bool {
        self.lit <= self.total && self.total >= 1
    }
}

/// A shadow ray lights the point when nothing but the shaded shape stands
/// in its way and it arrives on the side the surface is viewed from.
pub open spec fn spec_is_lit(sample: ShadowSample, shaded: usize, view: Side) -> bool {
    &&& (sample.blocker is None || sample.blocker == Some(shaded))
    &&& sample.side == view
    &&& view != Side::Undefined
}

/// Number of samples that light the point.
pub open spec fn lit_count(samples: Seq<ShadowSample>, shaded: usize, view: Side) -> nat
    decreases samples.len(),
{
    if samples.len() == 0 {
        0
    } else {
        lit_count(samples.drop_last(), shaded, view) + if spec_is_lit(samples.last(), shaded, view) {
            1nat
        } else {
            0nat
        }
    }
}

proof fn lemma_lit_count_bound(samples: Seq<ShadowSample>, shaded: usize, view: Side)
    ensures
        lit_count(samples, shaded, view) <= samples.len(),
    decreases samples.len(),
{
    if samples.len() > 0 {
        lemma_lit_count_bound(samples.drop_last(), shaded, view);
    }
}

/// Whether one shadow ray reaches the shading point on `shaded`, seen from `view`.
pub fn is_lit(sample: &ShadowSample, shaded: usize, view: Side) -> (r: bool)
    ensures
        r == spec_is_lit(*sample, shaded, view),
{
    let unblocked = match sample.blocker {
        None => true,
        Some(b) => b == shaded,
    };
    unblocked && sample.side == view && view != Side::Undefined
}

/// Counts the shadow rays that reach the point. With no shadow ray at all
/// (an ambient light) the light is not shadowed: the factor is one.
pub fn shadow_factor(samples: &Vec<ShadowSample>, shaded: usize, view: Side) -> (r: ShadowFactor)
    ensures
        r.well_formed(),
        samples@.len() == 0 ==> r == (ShadowFactor { lit: 1, total: 1 }),
        samples@.len() > 0 ==> r.total == samples@.len() && r.lit == lit_count(samples@, shaded, view),
{
    if samples.len() == 0 {
        return ShadowFactor { lit: 1, total: 1 };
    }
    let mut lit: usize = 0;
    let mut i: usize = 0;
    while i < samples.len()
        invariant
            i <= samples@.len(),
            lit == lit_count(samples@.subrange(0, i as int), shaded, view),
        decreases samples@.len() - i,
    {
        proof {
            let pre = samples@.subrange(0, i as int + 1);
            assert(pre.drop_last() =~= samples@.subrange(0, i as int));
            assert(pre.last() == samples@[i as int]);
            lemma_lit_count_bound(samples@.subrange(0, i as int), shaded, view);
        }
        if is_lit(&samples[i], shaded, view) {
            lit = lit + 1;
        }
        i = i + 1;
    }
    proof {
        assert(samples@.subrange(0, samples@.len() as int) =~= samples@);
        lemma_lit_count_bound(samples@, shaded, view);
    }
    ShadowFactor { lit, total: samples.len() }
}

/// The offsets, in units of `radius / k`, of the `(2k+1) x (2k+1)` points of an
/// area light that cast shadow rays: both axes run from `-k` to `k`, the
/// first one slowest.
pub fn shadow_grid(k: usize) -> (r: Vec<(i64, i64)>)
    requires
        shadow_grid_size(k as nat) <= usize::MAX,
    ensures
        r@.len() == shadow_grid_size(k as nat),
        forall|n: int|
            #![trigger r@[n]]
            0 <= n < r@.len() ==> r@[n].0 == n / (2 * k + 1) - k && r@[n].1 == n % (2 * k + 1) - k,
{
    proof {
        lemma_grid_side_small(k as nat);
    }
    let side: usize = 2 * k + 1;
    let kk = k as i64;
    let mut r: Vec<(i64, i64)> = Vec::new();
    let mut a: usize = 0;
    while a < side
        invariant
            side == 2 * k + 1,
            kk == k,
            k < 0x1_0000_0000,
            a <= side,
            r@.len() == a * side,
            forall|n: int|
                #![trigger r@[n]]
                0 <= n < r@.len() ==> r@[n].0 == n / side as int - k && r@[n].1 == n % side as int - k,
        decreases side - a,
    {
        let mut b: usize = 0;
        while b < side
            invariant
                side == 2 * k + 1,
                kk == k,
                k < 0x1_0000_0000,
                a < side,
                b <= side,
                r@.len() == a * side + b,
                forall|n: int|
                    #![trigger r@[n]]
                    0 <= n < r@.len() ==> r@[n].0 == n / side as int - k && r@[n].1 == n % side as int - k,
            decreases side - b,
        {
            proof {
                let n = a * side + b;
                assert(n / side as int == a && n % side as int == b) by (nonlinear_arith)
                    requires n == a * side + b, b < side, side >= 1;
            }
            r.push((a as i64 - kk, b as i64 - kk));
            b = b + 1;
        }
        proof {
            assert((a + 1) * side == a * side + side) by (nonlinear_arith);
        }
        a = a + 1;
    }
    r
}

proof fn lemma_grid_side_small(k: nat)
    requires
        shadow_grid_size(k) <= usize::MAX,
    ensures
        2 * k + 1 <= usize::MAX,
        k < 0x1_0000_0000,
{
    assert((2 * k + 1) * (2 * k + 1) >= 2 * k + 1) by (nonlinear_arith);
    if k >= 0x1_0000_0000 {
        assert((2 * k + 1) * (2 * k + 1) > 0xffff_ffff_ffff_ffff) by (nonlinear_arith)
            requires k >= 0x1_0000_0000;
    }
}

} // verus!
