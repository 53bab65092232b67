//! KPI arithmetic shared by the per-mission calculator and the global
//! correction engine: weight application and the friendly-fire index curve.
use vstd::prelude::*;
use crate::kmap::{spec_sat_sum, KMap};
use crate::fx::{spec_fx_mul, spec_sat_add};
use crate::types::nonneg_vals;
use crate::{FX_SCALE};

verus! {

/// A value with its weight applied: multiplied by the table weight where one
/// is configured, passed through unchanged otherwise. Entries are never
/// dropped for a missing weight.
pub open spec fn spec_weighted_val(v: i64, w: Option<i64>) -> i64 {
    match w {
        Some(w) => spec_fx_mul(v as int, w as int) as i64,
        None => v,
    }
}

/// The saturating sum of a map's values after weight application, in entry
/// order.
pub open spec fn spec_wsum(keys: Seq<Seq<char>>, vals: Seq<i64>, table: KMap<String, i64>) -> int
    decreases keys.len(),
{
    if keys.len() == 0 || keys.len() != vals.len() {
        0
    } else {
        spec_sat_add(
            spec_wsum(keys.drop_last(), vals.drop_last(), table),
            spec_weighted_val(vals.last(), table.spec_get(keys.last())) as int,
        )
    }
}

/// `spec_wsum` over an optional map: an absent map weighs nothing.
pub open spec fn spec_wsum_opt(m: Option<KMap<String, i64>>, table: KMap<String, i64>) -> int {
    match m {
        Some(x) => spec_wsum(x.key_seq(), x.val_seq(), table),
        None => 0,
    }
}

/// The plain saturating value sum of an optional map.
pub open spec fn spec_sum_opt(m: Option<KMap<String, i64>>) -> int {
    match m {
        Some(x) => spec_sat_sum(x.val_seq()),
        None => 0,
    }
}

/// Multiply each entry of `source` by its weight in `weight_table` if
/// present, else keep it unchanged; the key set and order are kept.
pub fn apply_weight_table(source: &KMap<String, i64>, weight_table: &KMap<String, i64>) -> (r: KMap<
    String,
    i64,
>)
    requires
        source.wf(),
        weight_table.wf(),
        nonneg_vals(*source),
        nonneg_vals(*weight_table),
    ensures
        r.wf(),
        r.key_seq() == source.key_seq(),
        r.val_seq().len() == source.val_seq().len(),
        forall|i: int|
            0 <= i < r.val_seq().len() ==> #[trigger] r.val_seq()[i] == spec_weighted_val(
                source.val_seq()[i],
                weight_table.spec_get(source.key_seq()[i]),
            ),
        nonneg_vals(r),
{
    let n = source.len();
    let mut out: KMap<String, i64> = KMap::empty();
    let mut i: usize = 0;
    while i < n
        invariant
            source.wf(),
            weight_table.wf(),
            nonneg_vals(*source),
            nonneg_vals(*weight_table),
            n == source.spec_len(),
            0 <= i <= n,
            out.wf(),
            out.key_seq() == source.key_seq().take(i as int),
            out.val_seq().len() == i,
            forall|m: int|
                0 <= m < i ==> #[trigger] out.val_seq()[m] == spec_weighted_val(
                    source.val_seq()[m],
                    weight_table.spec_get(source.key_seq()[m]),
                ),
            nonneg_vals(out),
        decreases n - i,
    {
        let key: &String = source.key_at(i);
        let v: i64 = *source.val_at(i);
        proof {
            assert(source.val_seq()[i as int] >= 0);
            if weight_table.spec_get(key@) is Some {
                weight_table.lemma_get_is_contains(key@);
                let m = choose|m: int|
                    0 <= m < weight_table.spec_len() && weight_table.key_seq()[m] == key@
                        && weight_table.spec_get(key@) == Some(weight_table.val_seq()[m]);
                assert(weight_table.val_seq()[m] >= 0);
            }
        }
        let weighted: i64 = match weight_table.get(key) {
            Some(w) => crate::fx::fx_mul(v, *w),
            None => v,
        };
        proof {
            out.lemma_contains_iff_key_seq(key@);
            if out.contains_key(key@) {
                let m = choose|m: int| 0 <= m < out.key_seq().len() && out.key_seq()[m] == key@;
                assert(source.key_seq()[m] == source.key_seq()[i as int]);
                assert(false);
            }
        }
        out.set(key, weighted);
        proof {
            assert(out.key_seq() =~= source.key_seq().take(i as int + 1));
        }
        i += 1;
    }
    proof {
        assert(source.key_seq().take(n as int) =~= source.key_seq());
    }
    out
}

/// A map whose values are the weighted values of `source` sums to the
/// weighted sum of `source`.
pub proof fn lemma_weighted_sum(applied: KMap<String, i64>, source: KMap<String, i64>, table: KMap<
    String,
    i64,
>)
    requires
        applied.key_seq() == source.key_seq(),
        applied.val_seq().len() == source.val_seq().len(),
        source.key_seq().len() == source.val_seq().len(),
        forall|i: int|
            0 <= i < applied.val_seq().len() ==> #[trigger] applied.val_seq()[i]
                == spec_weighted_val(source.val_seq()[i], table.spec_get(source.key_seq()[i])),
    ensures
        spec_sat_sum(applied.val_seq()) == spec_wsum(source.key_seq(), source.val_seq(), table),
{
    lemma_weighted_sum_rec(applied.val_seq(), source.key_seq(), source.val_seq(), table);
}

proof fn lemma_weighted_sum_rec(
    avals: Seq<i64>,
    keys: Seq<Seq<char>>,
    vals: Seq<i64>,
    table: KMap<String, i64>,
)
    requires
        avals.len() == vals.len(),
        keys.len() == vals.len(),
        forall|i: int|
            0 <= i < avals.len() ==> #[trigger] avals[i] == spec_weighted_val(
                vals[i],
                table.spec_get(keys[i]),
            ),
    ensures
        spec_sat_sum(avals) == spec_wsum(keys, vals, table),
    decreases avals.len(),
{
    if avals.len() > 0 {
        lemma_weighted_sum_rec(avals.drop_last(), keys.drop_last(), vals.drop_last(), table);
    }
}

/// The weighted sum of `source` under `table`, computed by applying the
/// weights and totalling.
pub fn weighted_total(source: &KMap<String, i64>, table: &KMap<String, i64>) -> (r: i64)
    requires
        source.wf(),
        table.wf(),
        nonneg_vals(*source),
        nonneg_vals(*table),
    ensures
        r as int == spec_wsum(source.key_seq(), source.val_seq(), *table),
        r >= 0,
{
    let applied = apply_weight_table(source, table);
    let r = applied.total();
    proof {
        lemma_weighted_sum(applied, *source, *table);
        crate::kmap::lemma_sat_sum_nonneg(applied.val_seq());
    }
    r
}

/// A weighted sum of non-negative values under non-negative weights is
/// non-negative.
pub proof fn lemma_wsum_nonneg(keys: Seq<Seq<char>>, vals: Seq<i64>, table: KMap<String, i64>)
    requires
        forall|i: int| 0 <= i < vals.len() ==> vals[i] >= 0,
        nonneg_vals(table),
        table.wf(),
    ensures
        0 <= spec_wsum(keys, vals, table) <= i64::MAX as int,
    decreases keys.len(),
{
    if keys.len() == 0 || keys.len() != vals.len() {
    } else {
        lemma_wsum_nonneg(keys.drop_last(), vals.drop_last(), table);
        let w = table.spec_get(keys.last());
        if w is Some {
            table.lemma_get_is_contains(keys.last());
            let m = choose|m: int|
                0 <= m < table.spec_len() && table.key_seq()[m] == keys.last() && table.spec_get(
                    keys.last(),
                ) == Some(table.val_seq()[m]);
            assert(table.val_seq()[m] >= 0);
        }
        assert(spec_weighted_val(vals.last(), w) >= 0);
    }
}

/// The friendly-fire index curve: `-1000` from a rate of `0.91` up,
/// otherwise `99 / (rate - 1) + 100`, in fixed-point.
pub open spec fn spec_ff_index(rate: int) -> int {
    if rate >= 910_000 {
        -1_000_000_000
    } else {
        100 * (FX_SCALE as int) - (99 * (FX_SCALE as int) * (FX_SCALE as int)) / (
        (FX_SCALE as int) - rate)
    }
}

/// The friendly-fire index of a damage rate in `[0, 1]`.
pub fn friendly_fire_index(ff_rate: i64) -> (r: i64)
    requires
        0 <= ff_rate <= FX_SCALE,
    ensures
        r as int == spec_ff_index(ff_rate as int),
{
    if ff_rate >= 910_000 {
        -1_000_000_000
    } else {
        let denom: i64 = FX_SCALE - ff_rate;
        let drop: i128 = (99i128 * FX_SCALE as i128 * FX_SCALE as i128) / (denom as i128);
        proof {
            assert(90_000 <= denom <= 1_000_000);
            assert(0 <= (99 * (FX_SCALE as int) * (FX_SCALE as int)) / (denom as int) <= 99
                * (FX_SCALE as int) * (FX_SCALE as int)) by (nonlinear_arith)
                requires 1 <= denom;
        }
        100 * FX_SCALE - drop as i64
    }
}

/// The curve stays within `[-1000, 1]` on rates in `[0, 1]`, and the
/// penalty floor `-1000` is hit exactly from `0.91` up.
pub proof fn lemma_ff_index_range(rate: int)
    requires
        0 <= rate <= FX_SCALE as int,
    ensures
        -1_000_000_000 <= spec_ff_index(rate) <= FX_SCALE as int,
{
    if rate < 910_000 {
        let s = FX_SCALE as int;
        let denom = s - rate;
        assert(90_000 <= denom <= 1_000_000);
        assert(99 * s * s / denom >= 99 * s) by (nonlinear_arith)
            requires 90_000 <= denom <= 1_000_000 && s == 1_000_000;
        assert(99 * s * s / denom <= 1_100_000_000) by (nonlinear_arith)
            requires 90_000 <= denom <= 1_000_000 && s == 1_000_000;
    }
}

} // verus!
