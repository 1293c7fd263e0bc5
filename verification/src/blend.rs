//! The blending primitive.
//!
//! Every blend in the core — blend-tree children, a layer's cross-fade,
//! and the controller's final layer composition — is the same weighted
//! average: for each lane of each SoA record, the output is
//! `sum(w_i * v_i) / sum(w_i)`, truncated toward zero.  When every weight
//! is zero the output is the rest pose.

use vstd::prelude::*;
use crate::fixed::{SCALE, FX_MAX, fx_ok, abs_int, div_trunc, lemma_div_le, lemma_div_nonneg};
use crate::soa::{SoaTransform, buf_wf, soa_wf, identity_val};

verus! {

broadcast use vstd::array::group_array_axioms;

/// Most entries one blend may combine; keeps the accumulators inside
/// `i128`.
pub const MAX_BLEND_ENTRIES: usize = 4096;

/// The specification-level form of a blend input: a weight and the
/// contents of the buffer it applies to.
pub open spec fn entries_view(s: Seq<(i64, Vec<SoaTransform>)>) -> Seq<(i64, Seq<SoaTransform>)> {
    Seq::new(s.len(), |i: int| (s[i].0, s[i].1@))
}

/// Blend inputs are usable: weights lie in `[0, SCALE]`, buffers match the
/// output length and hold in-range values.
pub open spec fn entries_wf(es: Seq<(i64, Seq<SoaTransform>)>, out_len: int) -> bool {
    forall|i: int|
        0 <= i < es.len() ==> {
            &&& 0 <= (#[trigger] es[i]).0 <= SCALE
            &&& es[i].1.len() == out_len
            &&& buf_wf(es[i].1)
        }
}

/// Total weight of the entries.
pub open spec fn wsum(es: Seq<(i64, Seq<SoaTransform>)>) -> int
    decreases es.len(),
{
    if es.len() == 0 {
        0
    } else {
        wsum(es.drop_last()) + es.last().0
    }
}

/// Weighted sum of lane `k` of record `s` over the entries.
pub open spec fn csum(es: Seq<(i64, Seq<SoaTransform>)>, s: int, k: int) -> int
    decreases es.len(),
{
    if es.len() == 0 {
        0
    } else {
        csum(es.drop_last(), s, k) + es.last().0 * es.last().1[s].vals@[k]
    }
}

/// The blended value of lane `k` of record `s`: the weighted average,
/// or the rest pose where no weight was contributed.
pub open spec fn blend_val(es: Seq<(i64, Seq<SoaTransform>)>, s: int, k: int) -> int {
    if wsum(es) <= 0 {
        identity_val(k) as int
    } else {
        div_trunc(csum(es, s, k), wsum(es))
    }
}

/// `out` is the blend of the entries.
pub open spec fn is_blended(
    es: Seq<(i64, Seq<SoaTransform>)>,
    out: Seq<SoaTransform>,
    out_len: int,
) -> bool {
    &&& out.len() == out_len
    &&& forall|s: int, k: int|
        0 <= s < out_len && 0 <= k < 40 ==> (#[trigger] out[s].vals@[k]) == blend_val(es, s, k)
}

/// The total weight of usable entries is non-negative and bounded by
/// `SCALE` per entry.
pub proof fn lemma_wsum_bounds(es: Seq<(i64, Seq<SoaTransform>)>, out_len: int)
    requires
        entries_wf(es, out_len),
    ensures
        0 <= wsum(es) <= es.len() * SCALE,
    decreases es.len(),
{
    if es.len() > 0 {
        assert(entries_wf(es.drop_last(), out_len)) by {
            assert(forall|i: int|
                0 <= i < es.drop_last().len() ==> (#[trigger] es.drop_last()[i]) == es[i]);
        }
        lemma_wsum_bounds(es.drop_last(), out_len);
        assert((es.len() - 1) * SCALE + SCALE == es.len() * SCALE) by (nonlinear_arith);
    }
}

/// The weighted lane sum is bounded by the total weight times the largest
/// representable value.
pub proof fn lemma_csum_bound(es: Seq<(i64, Seq<SoaTransform>)>, out_len: int, s: int, k: int)
    requires
        entries_wf(es, out_len),
        0 <= s < out_len,
        0 <= k < 40,
    ensures
        abs_int(csum(es, s, k)) <= wsum(es) * FX_MAX,
    decreases es.len(),
{
    lemma_wsum_bounds(es, out_len);
    if es.len() == 0 {
    } else {
        let prefix = es.drop_last();
        assert(entries_wf(prefix, out_len)) by {
            assert(forall|i: int| 0 <= i < prefix.len() ==> (#[trigger] prefix[i]) == es[i]);
        }
        lemma_csum_bound(prefix, out_len, s, k);
        lemma_wsum_bounds(prefix, out_len);
        let w = es.last().0;
        let v = es.last().1[s].vals@[k];
        assert(soa_wf(es.last().1[s]));
        assert(fx_ok(v));
        assert(abs_int(w * v) <= w * FX_MAX) by (nonlinear_arith)
            requires
                0 <= w,
                -FX_MAX <= v <= FX_MAX,
        ;
        assert(abs_int(csum(prefix, s, k) + w * v) <= abs_int(csum(prefix, s, k)) + abs_int(w * v));
        assert(wsum(prefix) * FX_MAX + w * FX_MAX == (wsum(prefix) + w) * FX_MAX)
            by (nonlinear_arith);
    }
}

/// Sum the weights of the entries.
fn sum_weights(entries: &Vec<(i64, Vec<SoaTransform>)>, out_len: usize) -> (r: i64)
    requires
        entries_wf(entries_view(entries@), out_len as int),
        entries@.len() <= MAX_BLEND_ENTRIES,
    ensures
        r == wsum(entries_view(entries@)),
        0 <= r <= entries@.len() * SCALE,
{
    let ghost ev = entries_view(entries@);
    let mut den: i64 = 0;
    let mut i: usize = 0;
    while i < entries.len()
        invariant
            i <= entries@.len(),
            entries@.len() <= MAX_BLEND_ENTRIES,
            entries_wf(ev, out_len as int),
            ev == entries_view(entries@),
            den == wsum(ev.take(i as int)),
            0 <= den <= i * SCALE,
        decreases entries@.len() - i,
    {
        proof {
            assert(ev.take(i + 1).drop_last() =~= ev.take(i as int));
            assert(ev.take(i + 1).last() == ev[i as int]);
            assert((i + 1) * SCALE == i * SCALE + SCALE) by (nonlinear_arith);
        }
        den = den + entries[i].0;
        i = i + 1;
    }
    proof {
        assert(ev.take(entries@.len() as int) =~= ev);
    }
    den
}

/// The weighted sum of lane `k` of record `s` over all entries.
fn blend_channel(
    entries: &Vec<(i64, Vec<SoaTransform>)>,
    out_len: usize,
    s: usize,
    k: usize,
    den: i64,
) -> (r: i64)
    requires
        entries_wf(entries_view(entries@), out_len as int),
        entries@.len() <= MAX_BLEND_ENTRIES,
        s < out_len,
        k < 40,
        den == wsum(entries_view(entries@)),
    ensures
        r == blend_val(entries_view(entries@), s as int, k as int),
        fx_ok(r),
{
    let ghost ev = entries_view(entries@);
    proof {
        lemma_wsum_bounds(ev, out_len as int);
        lemma_csum_bound(ev, out_len as int, s as int, k as int);
    }
    if den <= 0 {
        if k >= 24 {
            return SCALE;
        } else {
            return 0;
        }
    }
    let mut acc: i128 = 0;
    let mut i: usize = 0;
    while i < entries.len()
        invariant
            i <= entries@.len(),
            entries@.len() <= MAX_BLEND_ENTRIES,
            entries_wf(ev, out_len as int),
            ev == entries_view(entries@),
            s < out_len,
            k < 40,
            acc == csum(ev.take(i as int), s as int, k as int),
            abs_int(acc as int) <= wsum(ev.take(i as int)) * FX_MAX,
            0 <= wsum(ev.take(i as int)) <= i * SCALE,
        decreases entries@.len() - i,
    {
        let ghost prefix = ev.take(i as int);
        let ghost next = ev.take(i + 1);
        proof {
            assert(next.drop_last() =~= prefix);
            assert(next.last() == ev[i as int]);
            assert(entries_wf(prefix, out_len as int)) by {
                assert(forall|j: int| 0 <= j < prefix.len() ==> (#[trigger] prefix[j]) == ev[j]);
            }
            let w = ev[i as int].0;
            let v = ev[i as int].1[s as int].vals@[k as int];
            assert(soa_wf(ev[i as int].1[s as int]));
            assert(fx_ok(v));
            assert(abs_int(w * v) <= w * FX_MAX) by (nonlinear_arith)
                requires
                    0 <= w,
                    -FX_MAX <= v <= FX_MAX,
            ;
            assert(wsum(prefix) * FX_MAX + w * FX_MAX == (wsum(prefix) + w) * FX_MAX)
                by (nonlinear_arith);
            assert((i + 1) * SCALE == i * SCALE + SCALE) by (nonlinear_arith);
            assert(wsum(prefix) * FX_MAX <= (MAX_BLEND_ENTRIES * SCALE) * FX_MAX)
                by (nonlinear_arith)
                requires
                    0 <= wsum(prefix) <= MAX_BLEND_ENTRIES * SCALE,
            ;
        }
        let w = entries[i].0;
        let v = entries[i].1[s].vals[k];
        acc = acc + (w as i128) * (v as i128);
        i = i + 1;
    }
    proof {
        assert(ev.take(entries@.len() as int) =~= ev);
        lemma_div_le(abs_int(acc as int), den as int, FX_MAX as int);
        lemma_div_nonneg(abs_int(acc as int), den as int);
    }
    if acc < 0 {
        let na: u128 = (-acc) as u128;
        let q: u128 = na / (den as u128);
        -(q as i64)
    } else {
        let na: u128 = acc as u128;
        let q: u128 = na / (den as u128);
        q as i64
    }
}

/// Run a blend: combine the entries into a buffer of `out_len` records.
pub fn run_blend(entries: &Vec<(i64, Vec<SoaTransform>)>, out_len: usize) -> (r: Vec<SoaTransform>)
    requires
        entries_wf(entries_view(entries@), out_len as int),
        entries@.len() <= MAX_BLEND_ENTRIES,
    ensures
        is_blended(entries_view(entries@), r@, out_len as int),
        buf_wf(r@),
{
    let ghost ev = entries_view(entries@);
    let den = sum_weights(entries, out_len);
    let mut out: Vec<SoaTransform> = Vec::new();
    let mut s: usize = 0;
    while s < out_len
        invariant
            s <= out_len,
            entries_wf(ev, out_len as int),
            ev == entries_view(entries@),
            entries@.len() <= MAX_BLEND_ENTRIES,
            den == wsum(ev),
            out@.len() == s,
            forall|ss: int, k: int|
                0 <= ss < s && 0 <= k < 40 ==> (#[trigger] out@[ss].vals@[k]) == blend_val(
                    ev,
                    ss,
                    k,
                ),
            buf_wf(out@),
        decreases out_len - s,
    {
        let mut vals: [i64; 40] = [0; 40];
        let mut k: usize = 0;
        while k < 40
            invariant
                k <= 40,
                s < out_len,
                entries_wf(ev, out_len as int),
                ev == entries_view(entries@),
                entries@.len() <= MAX_BLEND_ENTRIES,
                den == wsum(ev),
                forall|kk: int|
                    0 <= kk < k ==> (#[trigger] vals@[kk]) == blend_val(ev, s as int, kk),
                forall|kk: int| 0 <= kk < k ==> fx_ok(#[trigger] vals@[kk]),
            decreases 40 - k,
        {
            let v = blend_channel(entries, out_len, s, k, den);
            vals[k] = v;
            k = k + 1;
        }
        out.push(SoaTransform { vals });
        s = s + 1;
    }
    out
}

} // verus!
