//! The KPI raw calculator: consumes one mission summary plus manual score
//! adjustments and produces the per-player raw KPI component data for the
//! nine fixed components.
use vstd::prelude::*;
use crate::kmap::{spec_sat_sum, KMap};
use crate::kpi::{
    spec_ff_index, spec_sum_opt, spec_weighted_val, spec_wsum, spec_wsum_opt, weighted_total,
};
use crate::fx::{sat_add, spec_fx_div, spec_sat_add};
use crate::mission_cache::MissionCachedInfo;
use crate::types::{
    nonneg_vals, AssignedKPI, CharacterKPIType, DamagePack, KPIComponent, KPIConfig, PlayerInfo,
    StrSet, SupplyPack,
};
use crate::{FX_EPSILON, FX_SCALE};

verus! {

/// One component's raw data for one player.
#[derive(Clone, Copy, PartialEq, Eq, Structural, Debug)]
pub struct PlayerRawKPIData {
    pub source_value: i64,
    pub weighted_value: i64,
    pub mission_total_weighted_value: i64,
    pub raw_index: i64,
}

/// A player's manual score adjustments.
pub struct PlayerAssignedKPIInfo {
    pub by_component: KMap<KPIComponent, i64>,
    pub overall: Option<i64>,
    pub note: String,
}

/// The per-mission KPI snapshot, derived from one `MissionCachedInfo`.
pub struct MissionKPICachedInfo {
    pub mission_id: i32,
    /// Per player: damage per taker, friendly fire excluded.
    pub damage_map: KMap<i16, KMap<String, i64>>,
    /// Per player: kills per entity, fixed-point.
    pub kill_map: KMap<i16, KMap<String, i64>>,
    /// Per player: resources collected per kind.
    pub resource_map: KMap<i16, KMap<String, i64>>,
    pub total_damage_map: KMap<String, i64>,
    pub total_kill_map: KMap<String, i64>,
    pub total_resource_map: KMap<String, i64>,
    pub player_id_to_kpi_character: KMap<i16, CharacterKPIType>,
    pub raw_kpi_data: KMap<i16, KMap<KPIComponent, PlayerRawKPIData>>,
    pub assigned_kpi_info: KMap<i16, PlayerAssignedKPIInfo>,
}

// ---------------------------------------------------------------------------
// Derived per-player maps
// ---------------------------------------------------------------------------
/// The damage a pack contributes once friendly fire is excluded.
pub open spec fn spec_keep_dmg(inner: KMap<String, DamagePack>, k: Seq<char>) -> Option<i64> {
    match inner.spec_get(k) {
        Some(p) => if p.taker_type == 1 {
            None
        } else {
            Some(p.total_amount)
        },
        None => None,
    }
}

/// A kill pack's count as a fixed-point value.
pub open spec fn spec_kill_fx(inner: KMap<String, crate::types::KillPack>, k: Seq<char>) -> Option<
    i64,
> {
    match inner.spec_get(k) {
        Some(p) => Some((p.total_amount as int * FX_SCALE as int) as i64),
        None => None,
    }
}

/// Drop the friendly-fire entries of one player's damage table, keeping the
/// remaining amounts.
fn dmg_values_of(inner: &KMap<String, DamagePack>) -> (r: KMap<String, i64>)
    requires
        inner.wf(),
    ensures
        r.wf(),
        forall|k: Seq<char>| #[trigger] r.spec_get(k) == spec_keep_dmg(*inner, k),
{
    let n = inner.len();
    let mut out: KMap<String, i64> = KMap::empty();
    let mut i: usize = 0;
    while i < n
        invariant
            inner.wf(),
            n == inner.spec_len(),
            0 <= i <= n,
            out.wf(),
            forall|k: Seq<char>|
                #[trigger] out.spec_get(k) == if exists|m: int|
                    0 <= m < i && inner.key_seq()[m] == k {
                    spec_keep_dmg(*inner, k)
                } else {
                    None::<i64>
                },
        decreases n - i,
    {
        let key = inner.key_at(i);
        let pack = inner.val_at(i);
        let ghost pre = out;
        if pack.taker_type != 1 {
            out.set(key, pack.total_amount);
        }
        proof {
            assert forall|k: Seq<char>|
                #[trigger] out.spec_get(k) == if exists|m: int|
                    0 <= m < i + 1 && inner.key_seq()[m] == k {
                    spec_keep_dmg(*inner, k)
                } else {
                    None::<i64>
                } by {
                if k == key@ {
                    assert(inner.key_seq()[i as int] == k);
                    if pack.taker_type == 1 {
                        if exists|m: int| 0 <= m < i && inner.key_seq()[m] == k {
                            let m = choose|m: int| 0 <= m < i && inner.key_seq()[m] == k;
                            assert(inner.key_seq()[m] == inner.key_seq()[i as int]);
                            assert(false);
                        }
                    }
                } else {
                    if exists|m: int| 0 <= m < i + 1 && inner.key_seq()[m] == k {
                        let m = choose|m: int| 0 <= m < i + 1 && inner.key_seq()[m] == k;
                        assert(m < i);
                    }
                }
            }
        }
        i += 1;
    }
    proof {
        assert forall|k: Seq<char>|
            #[trigger] out.spec_get(k) == spec_keep_dmg(*inner, k) by {
            inner.lemma_contains_iff_key_seq(k);
            inner.lemma_get_is_contains(k);
            if exists|m: int| 0 <= m < n && inner.key_seq()[m] == k {
            } else {
                assert(!inner.contains_key(k));
            }
        }
    }
    out
}

/// One player's kill counts as fixed-point values.
fn kill_values_of(inner: &KMap<String, crate::types::KillPack>) -> (r: KMap<String, i64>)
    requires
        inner.wf(),
    ensures
        r.wf(),
        forall|k: Seq<char>| #[trigger] r.spec_get(k) == spec_kill_fx(*inner, k),
{
    let n = inner.len();
    let mut out: KMap<String, i64> = KMap::empty();
    let mut i: usize = 0;
    while i < n
        invariant
            inner.wf(),
            n == inner.spec_len(),
            0 <= i <= n,
            out.wf(),
            forall|k: Seq<char>|
                #[trigger] out.spec_get(k) == if exists|m: int|
                    0 <= m < i && inner.key_seq()[m] == k {
                    spec_kill_fx(*inner, k)
                } else {
                    None::<i64>
                },
        decreases n - i,
    {
        let key = inner.key_at(i);
        let pack = inner.val_at(i);
        let fx: i64 = (pack.total_amount as i64) * FX_SCALE;
        proof {
            assert(pack.total_amount as int * FX_SCALE as int == fx as int) by (nonlinear_arith)
                requires
                    fx as int == pack.total_amount as int * (FX_SCALE as int),
            ;
        }
        out.set(key, fx);
        proof {
            assert forall|k: Seq<char>|
                #[trigger] out.spec_get(k) == if exists|m: int|
                    0 <= m < i + 1 && inner.key_seq()[m] == k {
                    spec_kill_fx(*inner, k)
                } else {
                    None::<i64>
                } by {
                if k == key@ {
                    assert(inner.key_seq()[i as int] == k);
                } else {
                    if exists|m: int| 0 <= m < i + 1 && inner.key_seq()[m] == k {
                        let m = choose|m: int| 0 <= m < i + 1 && inner.key_seq()[m] == k;
                        assert(m < i);
                    }
                }
            }
        }
        i += 1;
    }
    proof {
        assert forall|k: Seq<char>|
            #[trigger] out.spec_get(k) == spec_kill_fx(*inner, k) by {
            inner.lemma_contains_iff_key_seq(k);
            inner.lemma_get_is_contains(k);
            if exists|m: int| 0 <= m < n && inner.key_seq()[m] == k {
            } else {
                assert(!inner.contains_key(k));
            }
        }
    }
    out
}

/// Copy one player's resource table.
fn res_values_of(inner: &KMap<String, i64>) -> (r: KMap<String, i64>)
    requires
        inner.wf(),
    ensures
        r.wf(),
        forall|k: Seq<char>| #[trigger] r.spec_get(k) == inner.spec_get(k),
{
    let n = inner.len();
    let mut out: KMap<String, i64> = KMap::empty();
    let mut i: usize = 0;
    while i < n
        invariant
            inner.wf(),
            n == inner.spec_len(),
            0 <= i <= n,
            out.wf(),
            forall|k: Seq<char>|
                #[trigger] out.spec_get(k) == if exists|m: int|
                    0 <= m < i && inner.key_seq()[m] == k {
                    inner.spec_get(k)
                } else {
                    None::<i64>
                },
        decreases n - i,
    {
        let key = inner.key_at(i);
        let v = *inner.val_at(i);
        out.set(key, v);
        proof {
            assert forall|k: Seq<char>|
                #[trigger] out.spec_get(k) == if exists|m: int|
                    0 <= m < i + 1 && inner.key_seq()[m] == k {
                    inner.spec_get(k)
                } else {
                    None::<i64>
                } by {
                if k == key@ {
                    assert(inner.key_seq()[i as int] == k);
                } else {
                    if exists|m: int| 0 <= m < i + 1 && inner.key_seq()[m] == k {
                        let m = choose|m: int| 0 <= m < i + 1 && inner.key_seq()[m] == k;
                        assert(m < i);
                    }
                }
            }
        }
        i += 1;
    }
    proof {
        assert forall|k: Seq<char>|
            #[trigger] out.spec_get(k) == inner.spec_get(k) by {
            inner.lemma_contains_iff_key_seq(k);
            inner.lemma_get_is_contains(k);
            if exists|m: int| 0 <= m < n && inner.key_seq()[m] == k {
            } else {
                assert(!inner.contains_key(k));
            }
        }
    }
    out
}

// ---------------------------------------------------------------------------
// Mission-wide totals
// ---------------------------------------------------------------------------
/// What one player's kill table contributes to the mission total for `k`.
pub open spec fn spec_kill_contrib(inner: KMap<String, crate::types::KillPack>, k: Seq<char>) -> int {
    match inner.spec_get(k) {
        Some(p) => p.total_amount as int * FX_SCALE as int,
        None => 0,
    }
}

/// The mission-wide kill total for `k`, folded over the players in table
/// order.
pub open spec fn spec_combine_kill(inners: Seq<KMap<String, crate::types::KillPack>>, k: Seq<char>) -> int
    decreases inners.len(),
{
    if inners.len() == 0 {
        0
    } else {
        spec_sat_add(spec_combine_kill(inners.drop_last(), k), spec_kill_contrib(inners.last(), k))
    }
}

/// What one player's damage table contributes to the mission total for `k`:
/// friendly fire counts as zero but still creates the entry.
pub open spec fn spec_dmg_contrib(inner: KMap<String, DamagePack>, k: Seq<char>) -> int {
    match inner.spec_get(k) {
        Some(p) => if p.taker_type == 1 {
            0
        } else {
            p.total_amount as int
        },
        None => 0,
    }
}

/// The mission-wide damage total for `k`.
pub open spec fn spec_combine_dmg(inners: Seq<KMap<String, DamagePack>>, k: Seq<char>) -> int
    decreases inners.len(),
{
    if inners.len() == 0 {
        0
    } else {
        spec_sat_add(spec_combine_dmg(inners.drop_last(), k), spec_dmg_contrib(inners.last(), k))
    }
}

/// What one player's resource table contributes to the mission total.
pub open spec fn spec_res_contrib(inner: KMap<String, i64>, k: Seq<char>) -> int {
    match inner.spec_get(k) {
        Some(v) => v as int,
        None => 0,
    }
}

/// The mission-wide resource total for `k`.
pub open spec fn spec_combine_res(inners: Seq<KMap<String, i64>>, k: Seq<char>) -> int
    decreases inners.len(),
{
    if inners.len() == 0 {
        0
    } else {
        spec_sat_add(spec_combine_res(inners.drop_last(), k), spec_res_contrib(inners.last(), k))
    }
}

/// A key of some player's kill table.
pub open spec fn spec_kill_key_present(
    inners: Seq<KMap<String, crate::types::KillPack>>,
    k: Seq<char>,
) -> bool {
    exists|j: int| 0 <= j < inners.len() && (#[trigger] inners[j]).contains_key(k)
}

/// A key of some player's damage table.
pub open spec fn spec_dmg_key_present(inners: Seq<KMap<String, DamagePack>>, k: Seq<char>) -> bool {
    exists|j: int| 0 <= j < inners.len() && (#[trigger] inners[j]).contains_key(k)
}

/// A key of some player's resource table.
pub open spec fn spec_res_key_present(inners: Seq<KMap<String, i64>>, k: Seq<char>) -> bool {
    exists|j: int| 0 <= j < inners.len() && (#[trigger] inners[j]).contains_key(k)
}

impl MissionCachedInfo {
    /// Sum every player's kill counts into one per-entity total, fixed-point.
    pub fn combine_kill_info(origin: &KMap<i16, KMap<String, crate::types::KillPack>>) -> (r: KMap<
        String,
        i64,
    >)
        requires
            origin.wf(),
            forall|j: int|
                0 <= j < origin.val_seq().len() ==> (#[trigger] origin.val_seq()[j]).wf(),
        ensures
            r.wf(),
            forall|k: Seq<char>|
                #[trigger] r.get_or_zero(k) as int == spec_combine_kill(origin.val_seq(), k),
            forall|k: Seq<char>|
                #[trigger] r.contains_key(k) <==> spec_kill_key_present(origin.val_seq(), k),
    {
        let pn = origin.len();
        let mut acc: KMap<String, i64> = KMap::empty();
        let mut j: usize = 0;
        while j < pn
            invariant
                origin.wf(),
                forall|m: int|
                    0 <= m < origin.val_seq().len() ==> (#[trigger] origin.val_seq()[m]).wf(),
                pn == origin.spec_len(),
                0 <= j <= pn,
                acc.wf(),
                forall|k: Seq<char>|
                    #[trigger] acc.get_or_zero(k) as int == spec_combine_kill(
                        origin.val_seq().take(j as int),
                        k,
                    ),
                forall|k: Seq<char>|
                    #[trigger] acc.contains_key(k) <==> spec_kill_key_present(
                        origin.val_seq().take(j as int),
                        k,
                    ),
            decreases pn - j,
        {
            let inner = origin.val_at(j);
            let ghost prefix = origin.val_seq().take(j as int);
            let ghost full = origin.val_seq().take(j as int + 1);
            proof {
                assert(full.drop_last() =~= prefix);
                assert(full.last() == origin.val_seq()[j as int]);
            }
            let inn = inner.len();
            let mut m: usize = 0;
            while m < inn
                invariant
                    origin.wf(),
                    forall|t: int|
                        0 <= t < origin.val_seq().len() ==> (#[trigger] origin.val_seq()[t]).wf(),
                    pn == origin.spec_len(),
                    0 <= j < pn,
                    inner == &origin.val_seq()[j as int],
                    inner.wf(),
                    prefix == origin.val_seq().take(j as int),
                    inn == inner.spec_len(),
                    0 <= m <= inn,
                    acc.wf(),
                    forall|k: Seq<char>|
                        #[trigger] acc.get_or_zero(k) as int == if exists|t: int|
                            0 <= t < m && inner.key_seq()[t] == k {
                            spec_sat_add(spec_combine_kill(prefix, k), spec_kill_contrib(*inner, k))
                        } else {
                            spec_combine_kill(prefix, k)
                        },
                    forall|k: Seq<char>|
                        #[trigger] acc.contains_key(k) <==> (spec_kill_key_present(prefix, k) || (
                        exists|t: int| 0 <= t < m && inner.key_seq()[t] == k)),
                decreases inn - m,
            {
                let key = inner.key_at(m);
                let pack = inner.val_at(m);
                let share: i64 = (pack.total_amount as i64) * FX_SCALE;
                proof {
                    assert(share as int == pack.total_amount as int * FX_SCALE as int)
                        by (nonlinear_arith)
                        requires
                            share as int == pack.total_amount as int * (FX_SCALE as int),
                    ;
                    assert(spec_kill_contrib(*inner, key@) == share as int);
                    if exists|t: int| 0 <= t < m && inner.key_seq()[t] == key@ {
                        let t = choose|t: int| 0 <= t < m && inner.key_seq()[t] == key@;
                        assert(inner.key_seq()[t] == inner.key_seq()[m as int]);
                        assert(false);
                    }
                    acc.lemma_get_is_contains(key@);
                }
                let ghost pre_acc = acc;
                acc.accumulate(key, share);
                proof {
                    assert forall|k: Seq<char>|
                        #[trigger] acc.get_or_zero(k) as int == if exists|t: int|
                            0 <= t < m + 1 && inner.key_seq()[t] == k {
                            spec_sat_add(spec_combine_kill(prefix, k), spec_kill_contrib(*inner, k))
                        } else {
                            spec_combine_kill(prefix, k)
                        } by {
                        assert(pre_acc.get_or_zero(k) == pre_acc.get_or_zero(k));
                        if k == key@ {
                            assert(inner.key_seq()[m as int] == k);
                            assert(!(exists|t: int| 0 <= t < m && inner.key_seq()[t] == k));
                            assert(pre_acc.get_or_zero(k) as int == spec_combine_kill(prefix, k));
                            assert(acc.spec_get(k) == Some(
                                spec_sat_add(pre_acc.get_or_zero(k) as int, share as int) as i64,
                            ));
                            assert(acc.get_or_zero(k) as int == spec_sat_add(
                                spec_combine_kill(prefix, k),
                                spec_kill_contrib(*inner, k),
                            ));
                        } else {
                            assert(acc.spec_get(k) == pre_acc.spec_get(k));
                            assert(spec_combine_kill(prefix, k) == spec_combine_kill(prefix, k));
                            assert(spec_kill_contrib(*inner, k) == spec_kill_contrib(*inner, k));
                            if exists|t: int| 0 <= t < m + 1 && inner.key_seq()[t] == k {
                                let t = choose|t: int| 0 <= t < m + 1 && inner.key_seq()[t] == k;
                                assert(t < m);
                                assert(0 <= t < m && inner.key_seq()[t] == k);
                            } else {
                                if exists|t: int| 0 <= t < m && inner.key_seq()[t] == k {
                                    let t = choose|t: int| 0 <= t < m && inner.key_seq()[t] == k;
                                    assert(0 <= t < m + 1 && inner.key_seq()[t] == k);
                                }
                            }
                            assert(pre_acc.get_or_zero(k) as int == if exists|t: int|
                                0 <= t < m && inner.key_seq()[t] == k {
                                spec_sat_add(
                                    spec_combine_kill(prefix, k),
                                    spec_kill_contrib(*inner, k),
                                )
                            } else {
                                spec_combine_kill(prefix, k)
                            });
                            assert(acc.get_or_zero(k) as int == if exists|t: int|
                                0 <= t < m + 1 && inner.key_seq()[t] == k {
                                spec_sat_add(
                                    spec_combine_kill(prefix, k),
                                    spec_kill_contrib(*inner, k),
                                )
                            } else {
                                spec_combine_kill(prefix, k)
                            });
                        }
                    }
                    assert forall|k: Seq<char>|
                        #[trigger] acc.contains_key(k) <==> (spec_kill_key_present(prefix, k) || (
                        exists|t: int| 0 <= t < m + 1 && inner.key_seq()[t] == k)) by {
                        pre_acc.lemma_contains_iff_key_seq(k);
                        acc.lemma_contains_iff_key_seq(k);
                        if pre_acc.key_seq().contains(k) {
                            let t = choose|t: int|
                                0 <= t < pre_acc.key_seq().len() && pre_acc.key_seq()[t] == k;
                            assert(acc.key_seq()[t] == k);
                        }
                        if acc.key_seq().contains(k) {
                            let t = choose|t: int|
                                0 <= t < acc.key_seq().len() && acc.key_seq()[t] == k;
                            if t < pre_acc.key_seq().len() {
                                assert(pre_acc.key_seq()[t] == k);
                            }
                        }
                        if k == key@ {
                            if !pre_acc.contains_key(k) {
                                assert(acc.key_seq()[pre_acc.spec_len() as int] == k);
                            }
                            assert(inner.key_seq()[m as int] == k);
                        }
                    }
                }
                m += 1;
            }
            proof {
                inner.lemma_contains_iff_key_seq(Seq::empty());
                assert forall|k: Seq<char>|
                    #[trigger] acc.get_or_zero(k) as int == spec_combine_kill(full, k) by {
                    inner.lemma_contains_iff_key_seq(k);
                    if exists|t: int| 0 <= t < inn && inner.key_seq()[t] == k {
                        assert(inner.contains_key(k));
                    } else {
                        assert(!inner.contains_key(k));
                        inner.lemma_get_is_contains(k);
                        assert(spec_kill_contrib(*inner, k) == 0);
                    }
                }
                assert forall|k: Seq<char>|
                    #[trigger] acc.contains_key(k) <==> spec_kill_key_present(full, k) by {
                    inner.lemma_contains_iff_key_seq(k);
                    if spec_kill_key_present(prefix, k) {
                        let t = choose|t: int| 0 <= t < prefix.len() && (#[trigger] prefix[t]).contains_key(k);
                        assert(full[t].contains_key(k));
                    }
                    if exists|t: int| 0 <= t < inn && inner.key_seq()[t] == k {
                        assert(full[j as int].contains_key(k));
                    }
                    if spec_kill_key_present(full, k) {
                        let t = choose|t: int| 0 <= t < full.len() && (#[trigger] full[t]).contains_key(k);
                        if t < j {
                            assert(prefix[t].contains_key(k));
                        }
                    }
                }
            }
            j += 1;
        }
        proof {
            assert(origin.val_seq().take(pn as int) =~= origin.val_seq());
        }
        acc
    }

    /// Sum every player's damage into one per-taker total; friendly fire
    /// contributes zero but keeps its entry.
    pub fn combine_damage_info(origin: &KMap<i16, KMap<String, DamagePack>>) -> (r: KMap<
        String,
        i64,
    >)
        requires
            origin.wf(),
            forall|j: int|
                0 <= j < origin.val_seq().len() ==> (#[trigger] origin.val_seq()[j]).wf(),
        ensures
            r.wf(),
            forall|k: Seq<char>|
                #[trigger] r.get_or_zero(k) as int == spec_combine_dmg(origin.val_seq(), k),
            forall|k: Seq<char>|
                #[trigger] r.contains_key(k) <==> spec_dmg_key_present(origin.val_seq(), k),
    {
        let pn = origin.len();
        let mut acc: KMap<String, i64> = KMap::empty();
        let mut j: usize = 0;
        while j < pn
            invariant
                origin.wf(),
                forall|m: int|
                    0 <= m < origin.val_seq().len() ==> (#[trigger] origin.val_seq()[m]).wf(),
                pn == origin.spec_len(),
                0 <= j <= pn,
                acc.wf(),
                forall|k: Seq<char>|
                    #[trigger] acc.get_or_zero(k) as int == spec_combine_dmg(
                        origin.val_seq().take(j as int),
                        k,
                    ),
                forall|k: Seq<char>|
                    #[trigger] acc.contains_key(k) <==> spec_dmg_key_present(
                        origin.val_seq().take(j as int),
                        k,
                    ),
            decreases pn - j,
        {
            let inner = origin.val_at(j);
            let ghost prefix = origin.val_seq().take(j as int);
            let ghost full = origin.val_seq().take(j as int + 1);
            proof {
                assert(full.drop_last() =~= prefix);
                assert(full.last() == origin.val_seq()[j as int]);
            }
            let inn = inner.len();
            let mut m: usize = 0;
            while m < inn
                invariant
                    origin.wf(),
                    forall|t: int|
                        0 <= t < origin.val_seq().len() ==> (#[trigger] origin.val_seq()[t]).wf(),
                    pn == origin.spec_len(),
                    0 <= j < pn,
                    inner == &origin.val_seq()[j as int],
                    inner.wf(),
                    prefix == origin.val_seq().take(j as int),
                    inn == inner.spec_len(),
                    0 <= m <= inn,
                    acc.wf(),
                    forall|k: Seq<char>|
                        #[trigger] acc.get_or_zero(k) as int == if exists|t: int|
                            0 <= t < m && inner.key_seq()[t] == k {
                            spec_sat_add(spec_combine_dmg(prefix, k), spec_dmg_contrib(*inner, k))
                        } else {
                            spec_combine_dmg(prefix, k)
                        },
                    forall|k: Seq<char>|
                        #[trigger] acc.contains_key(k) <==> (spec_dmg_key_present(prefix, k) || (
                        exists|t: int| 0 <= t < m && inner.key_seq()[t] == k)),
                decreases inn - m,
            {
                let key = inner.key_at(m);
                let pack = inner.val_at(m);
                let share: i64 = if pack.taker_type == 1 {
                    0
                } else {
                    pack.total_amount
                };
                proof {
                    assert(spec_dmg_contrib(*inner, key@) == share as int);
                    if exists|t: int| 0 <= t < m && inner.key_seq()[t] == key@ {
                        let t = choose|t: int| 0 <= t < m && inner.key_seq()[t] == key@;
                        assert(inner.key_seq()[t] == inner.key_seq()[m as int]);
                        assert(false);
                    }
                    acc.lemma_get_is_contains(key@);
                }
                let ghost pre_acc = acc;
                acc.accumulate(key, share);
                proof {
                    assert forall|k: Seq<char>|
                        #[trigger] acc.get_or_zero(k) as int == if exists|t: int|
                            0 <= t < m + 1 && inner.key_seq()[t] == k {
                            spec_sat_add(spec_combine_dmg(prefix, k), spec_dmg_contrib(*inner, k))
                        } else {
                            spec_combine_dmg(prefix, k)
                        } by {
                        assert(pre_acc.get_or_zero(k) == pre_acc.get_or_zero(k));
                        if k == key@ {
                            assert(inner.key_seq()[m as int] == k);
                            assert(!(exists|t: int| 0 <= t < m && inner.key_seq()[t] == k));
                            assert(pre_acc.get_or_zero(k) as int == spec_combine_dmg(prefix, k));
                            assert(acc.spec_get(k) == Some(
                                spec_sat_add(pre_acc.get_or_zero(k) as int, share as int) as i64,
                            ));
                            assert(acc.get_or_zero(k) as int == spec_sat_add(
                                spec_combine_dmg(prefix, k),
                                spec_dmg_contrib(*inner, k),
                            ));
                        } else {
                            assert(acc.spec_get(k) == pre_acc.spec_get(k));
                            assert(spec_combine_dmg(prefix, k) == spec_combine_dmg(prefix, k));
                            assert(spec_dmg_contrib(*inner, k) == spec_dmg_contrib(*inner, k));
                            if exists|t: int| 0 <= t < m + 1 && inner.key_seq()[t] == k {
                                let t = choose|t: int| 0 <= t < m + 1 && inner.key_seq()[t] == k;
                                assert(t < m);
                                assert(0 <= t < m && inner.key_seq()[t] == k);
                            } else {
                                if exists|t: int| 0 <= t < m && inner.key_seq()[t] == k {
                                    let t = choose|t: int| 0 <= t < m && inner.key_seq()[t] == k;
                                    assert(0 <= t < m + 1 && inner.key_seq()[t] == k);
                                }
                            }
                            assert(pre_acc.get_or_zero(k) as int == if exists|t: int|
                                0 <= t < m && inner.key_seq()[t] == k {
                                spec_sat_add(
                                    spec_combine_dmg(prefix, k),
                                    spec_dmg_contrib(*inner, k),
                                )
                            } else {
                                spec_combine_dmg(prefix, k)
                            });
                            assert(acc.get_or_zero(k) as int == if exists|t: int|
                                0 <= t < m + 1 && inner.key_seq()[t] == k {
                                spec_sat_add(
                                    spec_combine_dmg(prefix, k),
                                    spec_dmg_contrib(*inner, k),
                                )
                            } else {
                                spec_combine_dmg(prefix, k)
                            });
                        }
                    }
                    assert forall|k: Seq<char>|
                        #[trigger] acc.contains_key(k) <==> (spec_dmg_key_present(prefix, k) || (
                        exists|t: int| 0 <= t < m + 1 && inner.key_seq()[t] == k)) by {
                        pre_acc.lemma_contains_iff_key_seq(k);
                        acc.lemma_contains_iff_key_seq(k);
                        if pre_acc.key_seq().contains(k) {
                            let t = choose|t: int|
                                0 <= t < pre_acc.key_seq().len() && pre_acc.key_seq()[t] == k;
                            assert(acc.key_seq()[t] == k);
                        }
                        if acc.key_seq().contains(k) {
                            let t = choose|t: int|
                                0 <= t < acc.key_seq().len() && acc.key_seq()[t] == k;
                            if t < pre_acc.key_seq().len() {
                                assert(pre_acc.key_seq()[t] == k);
                            }
                        }
                        if k == key@ {
                            if !pre_acc.contains_key(k) {
                                assert(acc.key_seq()[pre_acc.spec_len() as int] == k);
                            }
                            assert(inner.key_seq()[m as int] == k);
                        }
                    }
                }
                m += 1;
            }
            proof {
                inner.lemma_contains_iff_key_seq(Seq::empty());
                assert forall|k: Seq<char>|
                    #[trigger] acc.get_or_zero(k) as int == spec_combine_dmg(full, k) by {
                    inner.lemma_contains_iff_key_seq(k);
                    if exists|t: int| 0 <= t < inn && inner.key_seq()[t] == k {
                        assert(inner.contains_key(k));
                    } else {
                        assert(!inner.contains_key(k));
                        inner.lemma_get_is_contains(k);
                        assert(spec_dmg_contrib(*inner, k) == 0);
                    }
                }
                assert forall|k: Seq<char>|
                    #[trigger] acc.contains_key(k) <==> spec_dmg_key_present(full, k) by {
                    inner.lemma_contains_iff_key_seq(k);
                    if spec_dmg_key_present(prefix, k) {
                        let t = choose|t: int| 0 <= t < prefix.len() && (#[trigger] prefix[t]).contains_key(k);
                        assert(full[t].contains_key(k));
                    }
                    if exists|t: int| 0 <= t < inn && inner.key_seq()[t] == k {
                        assert(full[j as int].contains_key(k));
                    }
                    if spec_dmg_key_present(full, k) {
                        let t = choose|t: int| 0 <= t < full.len() && (#[trigger] full[t]).contains_key(k);
                        if t < j {
                            assert(prefix[t].contains_key(k));
                        }
                    }
                }
            }
            j += 1;
        }
        proof {
            assert(origin.val_seq().take(pn as int) =~= origin.val_seq());
        }
        acc
    }

    /// Sum every player's collected resources into one per-kind total.
    pub fn combine_resource_info(origin: &KMap<i16, KMap<String, i64>>) -> (r: KMap<
        String,
        i64,
    >)
        requires
            origin.wf(),
            forall|j: int|
                0 <= j < origin.val_seq().len() ==> (#[trigger] origin.val_seq()[j]).wf(),
        ensures
            r.wf(),
            forall|k: Seq<char>|
                #[trigger] r.get_or_zero(k) as int == spec_combine_res(origin.val_seq(), k),
            forall|k: Seq<char>|
                #[trigger] r.contains_key(k) <==> spec_res_key_present(origin.val_seq(), k),
    {
        let pn = origin.len();
        let mut acc: KMap<String, i64> = KMap::empty();
        let mut j: usize = 0;
        while j < pn
            invariant
                origin.wf(),
                forall|m: int|
                    0 <= m < origin.val_seq().len() ==> (#[trigger] origin.val_seq()[m]).wf(),
                pn == origin.spec_len(),
                0 <= j <= pn,
                acc.wf(),
                forall|k: Seq<char>|
                    #[trigger] acc.get_or_zero(k) as int == spec_combine_res(
                        origin.val_seq().take(j as int),
                        k,
                    ),
                forall|k: Seq<char>|
                    #[trigger] acc.contains_key(k) <==> spec_res_key_present(
                        origin.val_seq().take(j as int),
                        k,
                    ),
            decreases pn - j,
        {
            let inner = origin.val_at(j);
            let ghost prefix = origin.val_seq().take(j as int);
            let ghost full = origin.val_seq().take(j as int + 1);
            proof {
                assert(full.drop_last() =~= prefix);
                assert(full.last() == origin.val_seq()[j as int]);
            }
            let inn = inner.len();
            let mut m: usize = 0;
            while m < inn
                invariant
                    origin.wf(),
                    forall|t: int|
                        0 <= t < origin.val_seq().len() ==> (#[trigger] origin.val_seq()[t]).wf(),
                    pn == origin.spec_len(),
                    0 <= j < pn,
                    inner == &origin.val_seq()[j as int],
                    inner.wf(),
                    prefix == origin.val_seq().take(j as int),
                    inn == inner.spec_len(),
                    0 <= m <= inn,
                    acc.wf(),
                    forall|k: Seq<char>|
                        #[trigger] acc.get_or_zero(k) as int == if exists|t: int|
                            0 <= t < m && inner.key_seq()[t] == k {
                            spec_sat_add(spec_combine_res(prefix, k), spec_res_contrib(*inner, k))
                        } else {
                            spec_combine_res(prefix, k)
                        },
                    forall|k: Seq<char>|
                        #[trigger] acc.contains_key(k) <==> (spec_res_key_present(prefix, k) || (
                        exists|t: int| 0 <= t < m && inner.key_seq()[t] == k)),
                decreases inn - m,
            {
                let key = inner.key_at(m);
                let share: i64 = *inner.val_at(m);
                proof {
                    assert(spec_res_contrib(*inner, key@) == share as int);
                    if exists|t: int| 0 <= t < m && inner.key_seq()[t] == key@ {
                        let t = choose|t: int| 0 <= t < m && inner.key_seq()[t] == key@;
                        assert(inner.key_seq()[t] == inner.key_seq()[m as int]);
                        assert(false);
                    }
                    acc.lemma_get_is_contains(key@);
                }
                let ghost pre_acc = acc;
                acc.accumulate(key, share);
                proof {
                    assert forall|k: Seq<char>|
                        #[trigger] acc.get_or_zero(k) as int == if exists|t: int|
                            0 <= t < m + 1 && inner.key_seq()[t] == k {
                            spec_sat_add(spec_combine_res(prefix, k), spec_res_contrib(*inner, k))
                        } else {
                            spec_combine_res(prefix, k)
                        } by {
                        assert(pre_acc.get_or_zero(k) == pre_acc.get_or_zero(k));
                        if k == key@ {
                            assert(inner.key_seq()[m as int] == k);
                            assert(!(exists|t: int| 0 <= t < m && inner.key_seq()[t] == k));
                            assert(pre_acc.get_or_zero(k) as int == spec_combine_res(prefix, k));
                            assert(acc.spec_get(k) == Some(
                                spec_sat_add(pre_acc.get_or_zero(k) as int, share as int) as i64,
                            ));
                            assert(acc.get_or_zero(k) as int == spec_sat_add(
                                spec_combine_res(prefix, k),
                                spec_res_contrib(*inner, k),
                            ));
                        } else {
                            assert(acc.spec_get(k) == pre_acc.spec_get(k));
                            assert(spec_combine_res(prefix, k) == spec_combine_res(prefix, k));
                            assert(spec_res_contrib(*inner, k) == spec_res_contrib(*inner, k));
                            if exists|t: int| 0 <= t < m + 1 && inner.key_seq()[t] == k {
                                let t = choose|t: int| 0 <= t < m + 1 && inner.key_seq()[t] == k;
                                assert(t < m);
                                assert(0 <= t < m && inner.key_seq()[t] == k);
                            } else {
                                if exists|t: int| 0 <= t < m && inner.key_seq()[t] == k {
                                    let t = choose|t: int| 0 <= t < m && inner.key_seq()[t] == k;
                                    assert(0 <= t < m + 1 && inner.key_seq()[t] == k);
                                }
                            }
                            assert(pre_acc.get_or_zero(k) as int == if exists|t: int|
                                0 <= t < m && inner.key_seq()[t] == k {
                                spec_sat_add(
                                    spec_combine_res(prefix, k),
                                    spec_res_contrib(*inner, k),
                                )
                            } else {
                                spec_combine_res(prefix, k)
                            });
                            assert(acc.get_or_zero(k) as int == if exists|t: int|
                                0 <= t < m + 1 && inner.key_seq()[t] == k {
                                spec_sat_add(
                                    spec_combine_res(prefix, k),
                                    spec_res_contrib(*inner, k),
                                )
                            } else {
                                spec_combine_res(prefix, k)
                            });
                        }
                    }
                    assert forall|k: Seq<char>|
                        #[trigger] acc.contains_key(k) <==> (spec_res_key_present(prefix, k) || (
                        exists|t: int| 0 <= t < m + 1 && inner.key_seq()[t] == k)) by {
                        pre_acc.lemma_contains_iff_key_seq(k);
                        acc.lemma_contains_iff_key_seq(k);
                        if pre_acc.key_seq().contains(k) {
                            let t = choose|t: int|
                                0 <= t < pre_acc.key_seq().len() && pre_acc.key_seq()[t] == k;
                            assert(acc.key_seq()[t] == k);
                        }
                        if acc.key_seq().contains(k) {
                            let t = choose|t: int|
                                0 <= t < acc.key_seq().len() && acc.key_seq()[t] == k;
                            if t < pre_acc.key_seq().len() {
                                assert(pre_acc.key_seq()[t] == k);
                            }
                        }
                        if k == key@ {
                            if !pre_acc.contains_key(k) {
                                assert(acc.key_seq()[pre_acc.spec_len() as int] == k);
                            }
                            assert(inner.key_seq()[m as int] == k);
                        }
                    }
                }
                m += 1;
            }
            proof {
                inner.lemma_contains_iff_key_seq(Seq::empty());
                assert forall|k: Seq<char>|
                    #[trigger] acc.get_or_zero(k) as int == spec_combine_res(full, k) by {
                    inner.lemma_contains_iff_key_seq(k);
                    if exists|t: int| 0 <= t < inn && inner.key_seq()[t] == k {
                        assert(inner.contains_key(k));
                    } else {
                        assert(!inner.contains_key(k));
                        inner.lemma_get_is_contains(k);
                        assert(spec_res_contrib(*inner, k) == 0);
                    }
                }
                assert forall|k: Seq<char>|
                    #[trigger] acc.contains_key(k) <==> spec_res_key_present(full, k) by {
                    inner.lemma_contains_iff_key_seq(k);
                    if spec_res_key_present(prefix, k) {
                        let t = choose|t: int| 0 <= t < prefix.len() && (#[trigger] prefix[t]).contains_key(k);
                        assert(full[t].contains_key(k));
                    }
                    if exists|t: int| 0 <= t < inn && inner.key_seq()[t] == k {
                        assert(full[j as int].contains_key(k));
                    }
                    if spec_res_key_present(full, k) {
                        let t = choose|t: int| 0 <= t < full.len() && (#[trigger] full[t]).contains_key(k);
                        if t < j {
                            assert(prefix[t].contains_key(k));
                        }
                    }
                }
            }
            j += 1;
        }
        proof {
            assert(origin.val_seq().take(pn as int) =~= origin.val_seq());
        }
        acc
    }
}

// ---------------------------------------------------------------------------
// Mission-wide scalar totals
// ---------------------------------------------------------------------------
/// The mission's revive total over the player rows, fixed-point.
pub open spec fn spec_revive_total(rows: Seq<PlayerInfo>) -> int
    decreases rows.len(),
{
    if rows.len() == 0 {
        0
    } else {
        spec_sat_add(
            spec_revive_total(rows.drop_last()),
            rows.last().revive_num as int * FX_SCALE as int,
        )
    }
}

/// The mission's death total over the player rows, fixed-point.
pub open spec fn spec_death_total(rows: Seq<PlayerInfo>) -> int
    decreases rows.len(),
{
    if rows.len() == 0 {
        0
    } else {
        spec_sat_add(
            spec_death_total(rows.drop_last()),
            rows.last().death_num as int * FX_SCALE as int,
        )
    }
}

/// One supply list's length as a fixed-point count.
pub open spec fn spec_supply_count(list: Seq<SupplyPack>) -> int {
    crate::fx::spec_clamp(list.len() as int * FX_SCALE as int)
}

/// The mission's supply-use total over the per-player lists.
pub open spec fn spec_supply_total(lists: Seq<Vec<SupplyPack>>) -> int
    decreases lists.len(),
{
    if lists.len() == 0 {
        0
    } else {
        spec_sat_add(spec_supply_total(lists.drop_last()), spec_supply_count(lists.last()@))
    }
}

/// The friendly-fire damage of one player's packs: damage to other players.
pub open spec fn spec_ff_sum(packs: Seq<DamagePack>, pid: i16) -> int
    decreases packs.len(),
{
    if packs.len() == 0 {
        0
    } else {
        let prev = spec_ff_sum(packs.drop_last(), pid);
        let p = packs.last();
        if p.taker_type == 1 && p.taker_id != pid {
            spec_sat_add(prev, p.total_amount as int)
        } else {
            prev
        }
    }
}

/// `spec_ff_sum` over an optional damage table.
pub open spec fn spec_ff_of(m: Option<KMap<String, DamagePack>>, pid: i16) -> int {
    match m {
        Some(x) => spec_ff_sum(x.val_seq(), pid),
        None => 0,
    }
}

/// The revive total of the player rows.
fn revive_total(rows: &Vec<PlayerInfo>) -> (r: i64)
    ensures
        r as int == spec_revive_total(rows@),
{
    let n = rows.len();
    let mut acc: i64 = 0;
    let mut i: usize = 0;
    while i < n
        invariant
            n == rows@.len(),
            0 <= i <= n,
            acc as int == spec_revive_total(rows@.take(i as int)),
        decreases n - i,
    {
        proof {
            assert(rows@.take(i as int + 1).drop_last() =~= rows@.take(i as int));
            assert(rows@.take(i as int + 1).last() == rows@[i as int]);
        }
        acc = sat_add(acc, rows[i].revive_num as i64 * FX_SCALE);
        i += 1;
    }
    proof {
        assert(rows@.take(n as int) =~= rows@);
    }
    acc
}

/// The death total of the player rows.
fn death_total(rows: &Vec<PlayerInfo>) -> (r: i64)
    ensures
        r as int == spec_death_total(rows@),
{
    let n = rows.len();
    let mut acc: i64 = 0;
    let mut i: usize = 0;
    while i < n
        invariant
            n == rows@.len(),
            0 <= i <= n,
            acc as int == spec_death_total(rows@.take(i as int)),
        decreases n - i,
    {
        proof {
            assert(rows@.take(i as int + 1).drop_last() =~= rows@.take(i as int));
            assert(rows@.take(i as int + 1).last() == rows@[i as int]);
        }
        acc = sat_add(acc, rows[i].death_num as i64 * FX_SCALE);
        i += 1;
    }
    proof {
        assert(rows@.take(n as int) =~= rows@);
    }
    acc
}

/// One supply list's fixed-point count.
fn supply_count_fx(list: &Vec<SupplyPack>) -> (r: i64)
    ensures
        r as int == spec_supply_count(list@),
{
    let wide: i128 = (list.len() as i128) * (FX_SCALE as i128);
    proof {
        assert((list@.len() as int) * (FX_SCALE as int) >= 0) by (nonlinear_arith)
            requires list@.len() >= 0;
    }
    if wide > i64::MAX as i128 {
        i64::MAX
    } else {
        wide as i64
    }
}

/// The mission's supply-use total.
fn supply_total(m: &KMap<i16, Vec<SupplyPack>>) -> (r: i64)
    requires
        m.wf(),
    ensures
        r as int == spec_supply_total(m.val_seq()),
{
    let n = m.len();
    let mut acc: i64 = 0;
    let mut i: usize = 0;
    while i < n
        invariant
            m.wf(),
            n == m.spec_len(),
            0 <= i <= n,
            acc as int == spec_supply_total(m.val_seq().take(i as int)),
        decreases n - i,
    {
        proof {
            assert(m.val_seq().take(i as int + 1).drop_last() =~= m.val_seq().take(i as int));
            assert(m.val_seq().take(i as int + 1).last() == m.val_seq()[i as int]);
        }
        acc = sat_add(acc, supply_count_fx(m.val_at(i)));
        i += 1;
    }
    proof {
        assert(m.val_seq().take(n as int) =~= m.val_seq());
    }
    acc
}

/// The friendly-fire damage one player dealt to the others.
fn ff_sum_of(inner: &KMap<String, DamagePack>, pid: i16) -> (r: i64)
    requires
        inner.wf(),
    ensures
        r as int == spec_ff_sum(inner.val_seq(), pid),
{
    let n = inner.len();
    let mut acc: i64 = 0;
    let mut i: usize = 0;
    while i < n
        invariant
            inner.wf(),
            n == inner.spec_len(),
            0 <= i <= n,
            acc as int == spec_ff_sum(inner.val_seq().take(i as int), pid),
        decreases n - i,
    {
        proof {
            assert(inner.val_seq().take(i as int + 1).drop_last() =~= inner.val_seq().take(
                i as int,
            ));
            assert(inner.val_seq().take(i as int + 1).last() == inner.val_seq()[i as int]);
        }
        let p = inner.val_at(i);
        if p.taker_type == 1 && p.taker_id != pid {
            acc = sat_add(acc, p.total_amount);
        }
        i += 1;
    }
    proof {
        assert(inner.val_seq().take(n as int) =~= inner.val_seq());
    }
    acc
}

// ---------------------------------------------------------------------------
// Manual adjustments
// ---------------------------------------------------------------------------
/// The component an adjustment row targets; a malformed persisted index
/// falls back to the Kill component rather than failing.
pub open spec fn spec_assigned_component(row: AssignedKPI) -> KPIComponent {
    match crate::types::spec_component_from_index(row.target_kpi_component as int) {
        Some(c) => c,
        None => KPIComponent::Kill,
    }
}

/// The last nonzero per-component delta for a player and component.
pub open spec fn spec_assigned_delta(rows: Seq<AssignedKPI>, pid: i16, c: KPIComponent) -> Option<
    i64,
>
    decreases rows.len(),
{
    if rows.len() == 0 {
        None
    } else {
        let prev = spec_assigned_delta(rows.drop_last(), pid, c);
        let row = rows.last();
        if row.player_id == pid && row.kpi_component_delta_value != 0 && spec_assigned_component(
            row,
        ) == c {
            Some(row.kpi_component_delta_value)
        } else {
            prev
        }
    }
}

/// The first nonzero overall delta for a player: the one that counts when
/// duplicate rows exist.
pub open spec fn spec_assigned_overall(rows: Seq<AssignedKPI>, pid: i16) -> Option<i64>
    decreases rows.len(),
{
    if rows.len() == 0 {
        None
    } else {
        let prev = spec_assigned_overall(rows.drop_last(), pid);
        let row = rows.last();
        match prev {
            Some(v) => Some(v),
            None => if row.player_id == pid && row.total_delta_value != 0 {
                Some(row.total_delta_value)
            } else {
                None
            },
        }
    }
}

/// The note of the first adjustment row for a player; an absent note reads
/// as empty.
pub open spec fn spec_assigned_note(rows: Seq<AssignedKPI>, pid: i16) -> Seq<char>
    decreases rows.len(),
{
    if rows.len() == 0 {
        Seq::empty()
    } else {
        if exists|i: int| 0 <= i < rows.len() - 1 && (#[trigger] rows[i]).player_id == pid {
            spec_assigned_note(rows.drop_last(), pid)
        } else if rows.last().player_id == pid {
            match rows.last().note {
                Some(s) => s@,
                None => Seq::empty(),
            }
        } else {
            Seq::empty()
        }
    }
}

/// Some adjustment row belongs to this player.
pub open spec fn spec_assigned_present(rows: Seq<AssignedKPI>, pid: i16) -> bool {
    exists|i: int| 0 <= i < rows.len() && (#[trigger] rows[i]).player_id == pid
}

/// Distinct player ids over the adjustment rows.
fn scan_assigned_rows(rows: &Vec<AssignedKPI>) -> (players: Vec<i16>)
    ensures
        forall|p: i16|
            players@.contains(p) <==> exists|i: int|
                0 <= i < rows@.len() && (#[trigger] rows@[i]).player_id == p,
        forall|a: int, b: int| 0 <= a < b < players@.len() ==> players@[a] != players@[b],
{
    let n = rows.len();
    let mut players: Vec<i16> = Vec::new();
    let mut i: usize = 0;
    while i < n
        invariant
            n == rows@.len(),
            0 <= i <= n,
            forall|p: i16|
                players@.contains(p) <==> exists|m: int|
                    0 <= m < i && (#[trigger] rows@[m]).player_id == p,
            forall|a: int, b: int| 0 <= a < b < players@.len() ==> players@[a] != players@[b],
        decreases n - i,
    {
        crate::mission_cache::distinct_push(&mut players, rows[i].player_id);
        i += 1;
    }
    players
}

/// Build one player's adjustment record from the rows.
fn build_assigned_for_player(rows: &Vec<AssignedKPI>, pid: i16) -> (r: PlayerAssignedKPIInfo)
    ensures
        r.by_component.wf(),
        forall|c: KPIComponent|
            #[trigger] r.by_component.spec_get(c) == spec_assigned_delta(rows@, pid, c),
        r.overall == spec_assigned_overall(rows@, pid),
        r.note@ == spec_assigned_note(rows@, pid),
{
    let n = rows.len();
    let mut by_component: KMap<KPIComponent, i64> = KMap::empty();
    let mut overall: Option<i64> = None;
    let mut note: String = String::new();
    let mut seen: bool = false;
    let mut i: usize = 0;
    while i < n
        invariant
            n == rows@.len(),
            0 <= i <= n,
            by_component.wf(),
            forall|c: KPIComponent|
                #[trigger] by_component.spec_get(c) == spec_assigned_delta(
                    rows@.take(i as int),
                    pid,
                    c,
                ),
            overall == spec_assigned_overall(rows@.take(i as int), pid),
            note@ == spec_assigned_note(rows@.take(i as int), pid),
            seen == spec_assigned_present(rows@.take(i as int), pid),
        decreases n - i,
    {
        proof {
            assert(rows@.take(i as int + 1).drop_last() =~= rows@.take(i as int));
            assert(rows@.take(i as int + 1).last() == rows@[i as int]);
        }
        let row = &rows[i];
        if row.player_id == pid {
            if !seen {
                note = match &row.note {
                    Some(s) => s.clone(),
                    None => String::new(),
                };
                seen = true;
            }
            if row.kpi_component_delta_value != 0 {
                let c = match KPIComponent::from_index(
                    if row.target_kpi_component >= 0 {
                        row.target_kpi_component as usize
                    } else {
                        usize::MAX
                    },
                ) {
                    Some(c) => c,
                    None => KPIComponent::Kill,
                };
                proof {
                    assert(c == spec_assigned_component(rows@[i as int]));
                }
                by_component.set(&c, row.kpi_component_delta_value);
            }
            if overall.is_none() && row.total_delta_value != 0 {
                overall = Some(row.total_delta_value);
            }
        }
        proof {
            let pre = rows@.take(i as int);
            let cur = rows@.take(i as int + 1);
            if spec_assigned_present(pre, pid) {
                let t = choose|t: int| 0 <= t < pre.len() && (#[trigger] pre[t]).player_id == pid;
                assert(cur[t].player_id == pid);
                assert(0 <= t < cur.len() - 1 && cur[t].player_id == pid);
            } else {
                if rows@[i as int].player_id == pid {
                    assert(cur[i as int].player_id == pid);
                }
                if exists|t: int| 0 <= t < cur.len() - 1 && (#[trigger] cur[t]).player_id == pid {
                    let t = choose|t: int|
                        0 <= t < cur.len() - 1 && (#[trigger] cur[t]).player_id == pid;
                    assert(pre[t].player_id == pid);
                }
            }
            if spec_assigned_present(cur, pid) {
                let t = choose|t: int| 0 <= t < cur.len() && (#[trigger] cur[t]).player_id == pid;
                if t < i {
                    assert(pre[t].player_id == pid);
                }
            }
        }
        i += 1;
    }
    proof {
        assert(rows@.take(n as int) =~= rows@);
    }
    PlayerAssignedKPIInfo { by_component, overall, note }
}

// ---------------------------------------------------------------------------
// Per-component raw data
// ---------------------------------------------------------------------------
/// A weighted sum under an optional table: a missing table weighs nothing
/// away, so the plain sum remains.
pub open spec fn spec_wsum_opt_t(m: Option<KMap<String, i64>>, t: Option<KMap<String, i64>>) -> int {
    match t {
        Some(tbl) => spec_wsum_opt(m, tbl),
        None => spec_sum_opt(m),
    }
}

/// A mission-relative index: the ratio in fixed-point, or the fallback when
/// the denominator is effectively zero.
pub open spec fn spec_ratio_or(w: int, t: int, fb: int) -> int {
    if t < FX_EPSILON as int {
        fb
    } else {
        spec_fx_div(w, t)
    }
}

/// The value under `k` in an optional table, or zero.
pub open spec fn spec_get0_opt(m: Option<KMap<String, i64>>, k: Seq<char>) -> int {
    match m {
        Some(x) => match x.spec_get(k) {
            Some(v) => v as int,
            None => 0,
        },
        None => 0,
    }
}

/// The nitra resource key.
pub open spec fn spec_nitra_key() -> Seq<char> {
    "RES_VEIN_Nitra"@
}

/// The raw KPI data of one player for one component, as a mathematical
/// function of the mission summary, the derived per-player and total maps,
/// the configuration, the player's row and role.
pub open spec fn spec_raw_kpi_for(
    mi: MissionCachedInfo,
    km: KMap<i16, KMap<String, i64>>,
    dm: KMap<i16, KMap<String, i64>>,
    rm: KMap<i16, KMap<String, i64>>,
    tkm: KMap<String, i64>,
    tdm: KMap<String, i64>,
    trm: KMap<String, i64>,
    cfg: KPIConfig,
    row: PlayerInfo,
    role: CharacterKPIType,
    c: KPIComponent,
) -> PlayerRawKPIData {
    let pid = row.player_id;
    let ctab = cfg.character_weight_table.spec_get(role);
    match c {
        KPIComponent::Kill => {
            let s = spec_sum_opt(km.spec_get(pid));
            let w = spec_wsum_opt_t(km.spec_get(pid), ctab);
            let t = spec_wsum_opt_t(Some(tkm), ctab);
            PlayerRawKPIData {
                source_value: s as i64,
                weighted_value: w as i64,
                mission_total_weighted_value: t as i64,
                raw_index: spec_ratio_or(w, t, 0) as i64,
            }
        },
        KPIComponent::Damage => {
            let s = spec_sum_opt(dm.spec_get(pid));
            let w = spec_wsum_opt_t(dm.spec_get(pid), ctab);
            let t = spec_wsum_opt_t(Some(tdm), ctab);
            PlayerRawKPIData {
                source_value: s as i64,
                weighted_value: w as i64,
                mission_total_weighted_value: t as i64,
                raw_index: spec_ratio_or(w, t, 0) as i64,
            }
        },
        KPIComponent::Priority => {
            let s = spec_sum_opt(dm.spec_get(pid));
            let w = spec_wsum_opt(dm.spec_get(pid), cfg.priority_table);
            let t = spec_wsum(tdm.key_seq(), tdm.val_seq(), cfg.priority_table);
            PlayerRawKPIData {
                source_value: s as i64,
                weighted_value: w as i64,
                mission_total_weighted_value: t as i64,
                raw_index: spec_ratio_or(w, t, 0) as i64,
            }
        },
        KPIComponent::Revive => {
            let s = row.revive_num as int * FX_SCALE as int;
            let t = spec_revive_total(mi.player_info@);
            PlayerRawKPIData {
                source_value: s as i64,
                weighted_value: s as i64,
                mission_total_weighted_value: t as i64,
                raw_index: spec_ratio_or(s, t, FX_SCALE as int) as i64,
            }
        },
        KPIComponent::Death => {
            let s = row.death_num as int * FX_SCALE as int;
            let t = spec_death_total(mi.player_info@);
            PlayerRawKPIData {
                source_value: s as i64,
                weighted_value: s as i64,
                mission_total_weighted_value: t as i64,
                raw_index: (if t < FX_EPSILON as int {
                    0
                } else {
                    -spec_fx_div(s, t)
                }) as i64,
            }
        },
        KPIComponent::FriendlyFire => {
            let ff = spec_ff_of(mi.damage_info.spec_get(pid), pid);
            let sd = spec_sum_opt(dm.spec_get(pid));
            let overall = spec_sat_add(sd, ff);
            let idx = if overall < FX_EPSILON as int {
                if ff > 0 {
                    spec_ff_index(FX_SCALE as int)
                } else {
                    FX_SCALE as int
                }
            } else {
                spec_ff_index(spec_fx_div(ff, overall))
            };
            PlayerRawKPIData {
                source_value: ff as i64,
                weighted_value: idx as i64,
                mission_total_weighted_value: 0,
                raw_index: idx as i64,
            }
        },
        KPIComponent::Nitra => {
            let nv = spec_get0_opt(rm.spec_get(pid), spec_nitra_key());
            let tn = match trm.spec_get(spec_nitra_key()) {
                Some(v) => v as int,
                None => 0,
            };
            PlayerRawKPIData {
                source_value: nv as i64,
                weighted_value: nv as i64,
                mission_total_weighted_value: tn as i64,
                raw_index: spec_ratio_or(nv, tn, 0) as i64,
            }
        },
        KPIComponent::Supply => {
            let s = match mi.supply_info.spec_get(pid) {
                Some(list) => spec_supply_count(list@),
                None => 0,
            };
            let t = spec_supply_total(mi.supply_info.val_seq());
            PlayerRawKPIData {
                source_value: s as i64,
                weighted_value: s as i64,
                mission_total_weighted_value: t as i64,
                raw_index: (if t < FX_EPSILON as int {
                    0
                } else {
                    -spec_fx_div(s, t)
                }) as i64,
            }
        },
        KPIComponent::Minerals => {
            let s = spec_sum_opt(rm.spec_get(pid));
            let w = spec_wsum_opt(rm.spec_get(pid), cfg.resource_weight_table);
            let t = spec_wsum(trm.key_seq(), trm.val_seq(), cfg.resource_weight_table);
            PlayerRawKPIData {
                source_value: s as i64,
                weighted_value: w as i64,
                mission_total_weighted_value: t as i64,
                raw_index: spec_ratio_or(w, t, 0) as i64,
            }
        },
    }
}

/// The last player row carrying this id: the one whose data wins.
pub open spec fn spec_last_player_row(rows: Seq<PlayerInfo>, pid: i16) -> Option<PlayerInfo>
    decreases rows.len(),
{
    if rows.len() == 0 {
        None
    } else if rows.last().player_id == pid {
        Some(rows.last())
    } else {
        spec_last_player_row(rows.drop_last(), pid)
    }
}

/// A player row whose name or character the lookup tables do not know, or
/// whose character id the role classifier does not accept.
pub open spec fn spec_player_row_missing(
    row: PlayerInfo,
    characters: KMap<i16, String>,
    names: KMap<i16, String>,
) -> bool {
    ||| names.spec_get(row.player_id) is None
    ||| match characters.spec_get(row.character_id) {
        None => true,
        Some(cn) => !crate::types::is_known_character(cn@),
    }
}

/// Some player row cannot be classified: the whole derivation fails.
pub open spec fn spec_kpi_missing(
    rows: Seq<PlayerInfo>,
    characters: KMap<i16, String>,
    names: KMap<i16, String>,
) -> bool {
    exists|i: int|
        0 <= i < rows.len() && spec_player_row_missing(#[trigger] rows[i], characters, names)
}

/// The role of a classifiable player row.
pub open spec fn spec_role_of(
    row: PlayerInfo,
    characters: KMap<i16, String>,
    names: KMap<i16, String>,
    allow: StrSet,
) -> CharacterKPIType {
    let cn = match characters.spec_get(row.character_id) {
        Some(cn) => cn@,
        None => Seq::empty(),
    };
    let pn = match names.spec_get(row.player_id) {
        Some(pn) => pn@,
        None => Seq::empty(),
    };
    crate::types::spec_from_player(cn, pn, allow.contains_key(pn))
}

// ---------------------------------------------------------------------------
// Outer transforms
// ---------------------------------------------------------------------------
/// Derive the per-player fixed-point kill tables.
fn kill_map_of(origin: &KMap<i16, KMap<String, crate::types::KillPack>>) -> (r: KMap<
    i16,
    KMap<String, i64>,
>)
    requires
        origin.wf(),
        forall|j: int| 0 <= j < origin.val_seq().len() ==> (#[trigger] origin.val_seq()[j]).wf(),
    ensures
        r.wf(),
        forall|pid: i16|
            match #[trigger] r.spec_get(pid) {
                Some(im) => match origin.spec_get(pid) {
                    Some(o) => im.wf() && forall|k: Seq<char>|
                        #[trigger] im.spec_get(k) == spec_kill_fx(o, k),
                    None => false,
                },
                None => origin.spec_get(pid) is None,
            },
{
    let n = origin.len();
    let mut out: KMap<i16, KMap<String, i64>> = KMap::empty();
    let mut j: usize = 0;
    while j < n
        invariant
            origin.wf(),
            forall|m: int|
                0 <= m < origin.val_seq().len() ==> (#[trigger] origin.val_seq()[m]).wf(),
            n == origin.spec_len(),
            0 <= j <= n,
            out.wf(),
            forall|pid: i16|
                match #[trigger] out.spec_get(pid) {
                    Some(im) => (exists|m: int| 0 <= m < j && origin.key_seq()[m] == pid) && match origin.spec_get(pid) {
                        Some(o) => im.wf() && forall|k: Seq<char>|
                            #[trigger] im.spec_get(k) == spec_kill_fx(o, k),
                        None => false,
                    },
                    None => !exists|m: int| 0 <= m < j && origin.key_seq()[m] == pid,
                },
        decreases n - j,
    {
        let pid: i16 = *origin.key_at(j);
        let inner = origin.val_at(j);
        let im = kill_values_of(inner);
        proof {
            out.lemma_get_is_contains(pid);
            if out.spec_get(pid) is Some {
                let m = choose|m: int| 0 <= m < j && origin.key_seq()[m] == pid;
                assert(origin.key_seq()[m] == origin.key_seq()[j as int]);
                assert(false);
            }
        }
        out.set(&pid, im);
        proof {
            assert forall|pid2: i16|
                match #[trigger] out.spec_get(pid2) {
                    Some(im2) => (exists|m: int| 0 <= m < j + 1 && origin.key_seq()[m] == pid2) && match origin.spec_get(pid2) {
                        Some(o) => im2.wf() && forall|k: Seq<char>|
                            #[trigger] im2.spec_get(k) == spec_kill_fx(o, k),
                        None => false,
                    },
                    None => !exists|m: int| 0 <= m < j + 1 && origin.key_seq()[m] == pid2,
                } by {
                if pid2 == pid {
                    assert(origin.key_seq()[j as int] == pid2);
                } else {
                    if out.spec_get(pid2) is None {
                        if exists|m: int| 0 <= m < j + 1 && origin.key_seq()[m] == pid2 {
                            let m = choose|m: int| 0 <= m < j + 1 && origin.key_seq()[m] == pid2;
                            assert(m < j);
                        }
                    }
                }
            }
        }
        j += 1;
    }
    proof {
        assert forall|pid: i16|
            match #[trigger] out.spec_get(pid) {
                Some(im) => match origin.spec_get(pid) {
                    Some(o) => im.wf() && forall|k: Seq<char>|
                        #[trigger] im.spec_get(k) == spec_kill_fx(o, k),
                    None => false,
                },
                None => origin.spec_get(pid) is None,
            } by {
            origin.lemma_get_is_contains(pid);
            origin.lemma_contains_iff_key_seq(pid);
            if out.spec_get(pid) is None {
                if origin.spec_get(pid) is Some {
                    let m = choose|m: int|
                        0 <= m < origin.key_seq().len() && origin.key_seq()[m] == pid;
                    assert(false);
                }
            }
        }
    }
    out
}

/// Derive the per-player damage tables with friendly fire excluded.
fn damage_map_of(origin: &KMap<i16, KMap<String, DamagePack>>) -> (r: KMap<i16, KMap<String, i64>>)
    requires
        origin.wf(),
        forall|j: int| 0 <= j < origin.val_seq().len() ==> (#[trigger] origin.val_seq()[j]).wf(),
    ensures
        r.wf(),
        forall|pid: i16|
            match #[trigger] r.spec_get(pid) {
                Some(im) => match origin.spec_get(pid) {
                    Some(o) => im.wf() && forall|k: Seq<char>|
                        #[trigger] im.spec_get(k) == spec_keep_dmg(o, k),
                    None => false,
                },
                None => origin.spec_get(pid) is None,
            },
{
    let n = origin.len();
    let mut out: KMap<i16, KMap<String, i64>> = KMap::empty();
    let mut j: usize = 0;
    while j < n
        invariant
            origin.wf(),
            forall|m: int|
                0 <= m < origin.val_seq().len() ==> (#[trigger] origin.val_seq()[m]).wf(),
            n == origin.spec_len(),
            0 <= j <= n,
            out.wf(),
            forall|pid: i16|
                match #[trigger] out.spec_get(pid) {
                    Some(im) => (exists|m: int| 0 <= m < j && origin.key_seq()[m] == pid) && match origin.spec_get(pid) {
                        Some(o) => im.wf() && forall|k: Seq<char>|
                            #[trigger] im.spec_get(k) == spec_keep_dmg(o, k),
                        None => false,
                    },
                    None => !exists|m: int| 0 <= m < j && origin.key_seq()[m] == pid,
                },
        decreases n - j,
    {
        let pid: i16 = *origin.key_at(j);
        let inner = origin.val_at(j);
        let im = dmg_values_of(inner);
        proof {
            out.lemma_get_is_contains(pid);
            if out.spec_get(pid) is Some {
                let m = choose|m: int| 0 <= m < j && origin.key_seq()[m] == pid;
                assert(origin.key_seq()[m] == origin.key_seq()[j as int]);
                assert(false);
            }
        }
        out.set(&pid, im);
        proof {
            assert forall|pid2: i16|
                match #[trigger] out.spec_get(pid2) {
                    Some(im2) => (exists|m: int| 0 <= m < j + 1 && origin.key_seq()[m] == pid2) && match origin.spec_get(pid2) {
                        Some(o) => im2.wf() && forall|k: Seq<char>|
                            #[trigger] im2.spec_get(k) == spec_keep_dmg(o, k),
                        None => false,
                    },
                    None => !exists|m: int| 0 <= m < j + 1 && origin.key_seq()[m] == pid2,
                } by {
                if pid2 == pid {
                    assert(origin.key_seq()[j as int] == pid2);
                } else {
                    if out.spec_get(pid2) is None {
                        if exists|m: int| 0 <= m < j + 1 && origin.key_seq()[m] == pid2 {
                            let m = choose|m: int| 0 <= m < j + 1 && origin.key_seq()[m] == pid2;
                            assert(m < j);
                        }
                    }
                }
            }
        }
        j += 1;
    }
    proof {
        assert forall|pid: i16|
            match #[trigger] out.spec_get(pid) {
                Some(im) => match origin.spec_get(pid) {
                    Some(o) => im.wf() && forall|k: Seq<char>|
                        #[trigger] im.spec_get(k) == spec_keep_dmg(o, k),
                    None => false,
                },
                None => origin.spec_get(pid) is None,
            } by {
            origin.lemma_get_is_contains(pid);
            origin.lemma_contains_iff_key_seq(pid);
            if out.spec_get(pid) is None {
                if origin.spec_get(pid) is Some {
                    let m = choose|m: int|
                        0 <= m < origin.key_seq().len() && origin.key_seq()[m] == pid;
                    assert(false);
                }
            }
        }
    }
    out
}

/// Copy the per-player resource tables.
fn resource_map_of(origin: &KMap<i16, KMap<String, i64>>) -> (r: KMap<i16, KMap<String, i64>>)
    requires
        origin.wf(),
        forall|j: int| 0 <= j < origin.val_seq().len() ==> (#[trigger] origin.val_seq()[j]).wf(),
    ensures
        r.wf(),
        forall|pid: i16|
            match #[trigger] r.spec_get(pid) {
                Some(im) => match origin.spec_get(pid) {
                    Some(o) => im.wf() && forall|k: Seq<char>|
                        #[trigger] im.spec_get(k) == o.spec_get(k),
                    None => false,
                },
                None => origin.spec_get(pid) is None,
            },
{
    let n = origin.len();
    let mut out: KMap<i16, KMap<String, i64>> = KMap::empty();
    let mut j: usize = 0;
    while j < n
        invariant
            origin.wf(),
            forall|m: int|
                0 <= m < origin.val_seq().len() ==> (#[trigger] origin.val_seq()[m]).wf(),
            n == origin.spec_len(),
            0 <= j <= n,
            out.wf(),
            forall|pid: i16|
                match #[trigger] out.spec_get(pid) {
                    Some(im) => (exists|m: int| 0 <= m < j && origin.key_seq()[m] == pid) && match origin.spec_get(pid) {
                        Some(o) => im.wf() && forall|k: Seq<char>|
                            #[trigger] im.spec_get(k) == o.spec_get(k),
                        None => false,
                    },
                    None => !exists|m: int| 0 <= m < j && origin.key_seq()[m] == pid,
                },
        decreases n - j,
    {
        let pid: i16 = *origin.key_at(j);
        let inner = origin.val_at(j);
        let im = res_values_of(inner);
        proof {
            out.lemma_get_is_contains(pid);
            if out.spec_get(pid) is Some {
                let m = choose|m: int| 0 <= m < j && origin.key_seq()[m] == pid;
                assert(origin.key_seq()[m] == origin.key_seq()[j as int]);
                assert(false);
            }
        }
        out.set(&pid, im);
        proof {
            assert forall|pid2: i16|
                match #[trigger] out.spec_get(pid2) {
                    Some(im2) => (exists|m: int| 0 <= m < j + 1 && origin.key_seq()[m] == pid2) && match origin.spec_get(pid2) {
                        Some(o) => im2.wf() && forall|k: Seq<char>|
                            #[trigger] im2.spec_get(k) == o.spec_get(k),
                        None => false,
                    },
                    None => !exists|m: int| 0 <= m < j + 1 && origin.key_seq()[m] == pid2,
                } by {
                if pid2 == pid {
                    assert(origin.key_seq()[j as int] == pid2);
                } else {
                    if out.spec_get(pid2) is None {
                        if exists|m: int| 0 <= m < j + 1 && origin.key_seq()[m] == pid2 {
                            let m = choose|m: int| 0 <= m < j + 1 && origin.key_seq()[m] == pid2;
                            assert(m < j);
                        }
                    }
                }
            }
        }
        j += 1;
    }
    proof {
        assert forall|pid: i16|
            match #[trigger] out.spec_get(pid) {
                Some(im) => match origin.spec_get(pid) {
                    Some(o) => im.wf() && forall|k: Seq<char>|
                        #[trigger] im.spec_get(k) == o.spec_get(k),
                    None => false,
                },
                None => origin.spec_get(pid) is None,
            } by {
            origin.lemma_get_is_contains(pid);
            origin.lemma_contains_iff_key_seq(pid);
            if out.spec_get(pid) is None {
                if origin.spec_get(pid) is Some {
                    let m = choose|m: int|
                        0 <= m < origin.key_seq().len() && origin.key_seq()[m] == pid;
                    assert(false);
                }
            }
        }
    }
    out
}

// ---------------------------------------------------------------------------
// Non-negativity of the derived tables
// ---------------------------------------------------------------------------
proof fn lemma_combine_kill_nonneg_rec(inners: Seq<KMap<String, crate::types::KillPack>>, k: Seq<char>)
    requires
        forall|j: int|
            0 <= j < inners.len() ==> (#[trigger] inners[j]).wf() && forall|k2: Seq<char>|
                match #[trigger] inners[j].spec_get(k2) {
                    Some(p) => p.total_amount >= 0,
                    None => true,
                },
    ensures
        0 <= spec_combine_kill(inners, k) <= i64::MAX as int,
    decreases inners.len(),
{
    if inners.len() > 0 {
        lemma_combine_kill_nonneg_rec(inners.drop_last(), k);
        assert(spec_kill_contrib(inners.last(), k) >= 0) by {
            match inners.last().spec_get(k) {
                Some(p) => {
                    assert(p.total_amount as int * FX_SCALE as int >= 0) by (nonlinear_arith)
                        requires p.total_amount >= 0;
                },
                None => {},
            }
        }
    }
}

proof fn lemma_combine_dmg_nonneg_rec(inners: Seq<KMap<String, DamagePack>>, k: Seq<char>)
    requires
        forall|j: int|
            0 <= j < inners.len() ==> (#[trigger] inners[j]).wf() && forall|k2: Seq<char>|
                match #[trigger] inners[j].spec_get(k2) {
                    Some(p) => p.total_amount >= 0,
                    None => true,
                },
    ensures
        0 <= spec_combine_dmg(inners, k) <= i64::MAX as int,
    decreases inners.len(),
{
    if inners.len() > 0 {
        lemma_combine_dmg_nonneg_rec(inners.drop_last(), k);
    }
}

proof fn lemma_combine_res_nonneg_rec(inners: Seq<KMap<String, i64>>, k: Seq<char>)
    requires
        forall|j: int|
            0 <= j < inners.len() ==> (#[trigger] inners[j]).wf() && forall|k2: Seq<char>|
                match #[trigger] inners[j].spec_get(k2) {
                    Some(v) => v >= 0,
                    None => true,
                },
    ensures
        0 <= spec_combine_res(inners, k) <= i64::MAX as int,
    decreases inners.len(),
{
    if inners.len() > 0 {
        lemma_combine_res_nonneg_rec(inners.drop_last(), k);
    }
}

// ---------------------------------------------------------------------------
// Generation
// ---------------------------------------------------------------------------
/// The plain value sum of an optional table.
fn sum_opt(m: Option<&KMap<String, i64>>) -> (r: i64)
    requires
        match m {
            Some(x) => x.wf(),
            None => true,
        },
    ensures
        r as int == spec_sum_opt(
            match m {
                Some(x) => Some(*x),
                None => None,
            },
        ),
{
    match m {
        Some(x) => x.total(),
        None => 0,
    }
}

/// The weighted value sum of an optional table under an optional weight
/// table.
fn wsum_opt_t_exec(m: Option<&KMap<String, i64>>, t: Option<&KMap<String, i64>>) -> (r: i64)
    requires
        match m {
            Some(x) => x.wf() && nonneg_vals(*x),
            None => true,
        },
        match t {
            Some(x) => x.wf() && nonneg_vals(*x),
            None => true,
        },
    ensures
        r as int == spec_wsum_opt_t(
            match m {
                Some(x) => Some(*x),
                None => None,
            },
            match t {
                Some(x) => Some(*x),
                None => None,
            },
        ),
        r >= 0,
{
    let r = match (m, t) {
        (Some(x), Some(tbl)) => weighted_total(x, tbl),
        (Some(x), None) => x.total(),
        (None, _) => 0,
    };
    proof {
        match m {
            Some(x) => {
                crate::kmap::lemma_sat_sum_nonneg(x.val_seq());
                match t {
                    Some(tbl) => {
                        crate::kpi::lemma_wsum_nonneg(x.key_seq(), x.val_seq(), *tbl);
                    },
                    None => {},
                }
            },
            None => {},
        }
    }
    r
}

/// The weighted value sum of an optional table under a fixed weight table.
fn wsum_opt_exec(m: Option<&KMap<String, i64>>, t: &KMap<String, i64>) -> (r: i64)
    requires
        match m {
            Some(x) => x.wf() && nonneg_vals(*x),
            None => true,
        },
        t.wf(),
        nonneg_vals(*t),
    ensures
        r as int == spec_wsum_opt(
            match m {
                Some(x) => Some(*x),
                None => None,
            },
            *t,
        ),
        r >= 0,
{
    match m {
        Some(x) => {
            proof {
                crate::kpi::lemma_wsum_nonneg(x.key_seq(), x.val_seq(), *t);
            }
            weighted_total(x, t)
        },
        None => 0,
    }
}

/// A standard ratio-shaped component record.
fn ratio_data(s: i64, w: i64, t: i64, fb: i64) -> (r: PlayerRawKPIData)
    requires
        w >= 0,
        t >= 0,
    ensures
        r.source_value == s,
        r.weighted_value == w,
        r.mission_total_weighted_value == t,
        r.raw_index as int == spec_ratio_or(w as int, t as int, fb as int),
{
    let idx: i64 = if t < crate::FX_EPSILON {
        fb
    } else {
        crate::fx::fx_div(w, t)
    };
    PlayerRawKPIData {
        source_value: s,
        weighted_value: w,
        mission_total_weighted_value: t,
        raw_index: idx,
    }
}

/// A negated ratio-shaped component record (deaths, supply use).
fn neg_ratio_data(s: i64, t: i64) -> (r: PlayerRawKPIData)
    requires
        s >= 0,
        t >= 0,
    ensures
        r.source_value == s,
        r.weighted_value == s,
        r.mission_total_weighted_value == t,
        r.raw_index as int == if t < FX_EPSILON as int {
            0
        } else {
            -spec_fx_div(s as int, t as int)
        },
{
    let idx: i64 = if t < crate::FX_EPSILON {
        0
    } else {
        let d = crate::fx::fx_div(s, t);
        -d
    };
    PlayerRawKPIData {
        source_value: s,
        weighted_value: s,
        mission_total_weighted_value: t,
        raw_index: idx,
    }
}

proof fn lemma_ff_sum_bounds(packs: Seq<DamagePack>, pid: i16)
    requires
        forall|i: int| 0 <= i < packs.len() ==> (#[trigger] packs[i]).total_amount >= 0,
    ensures
        0 <= spec_ff_sum(packs, pid) <= i64::MAX as int,
    decreases packs.len(),
{
    if packs.len() > 0 {
        lemma_ff_sum_bounds(packs.drop_last(), pid);
    }
}

proof fn lemma_revive_total_nonneg(rows: Seq<PlayerInfo>)
    requires
        forall|i: int| 0 <= i < rows.len() ==> (#[trigger] rows[i]).revive_num >= 0,
    ensures
        0 <= spec_revive_total(rows) <= i64::MAX as int,
    decreases rows.len(),
{
    if rows.len() > 0 {
        lemma_revive_total_nonneg(rows.drop_last());
        assert(rows.last().revive_num as int * FX_SCALE as int >= 0) by (nonlinear_arith)
            requires rows.last().revive_num >= 0;
    }
}

proof fn lemma_death_total_nonneg(rows: Seq<PlayerInfo>)
    requires
        forall|i: int| 0 <= i < rows.len() ==> (#[trigger] rows[i]).death_num >= 0,
    ensures
        0 <= spec_death_total(rows) <= i64::MAX as int,
    decreases rows.len(),
{
    if rows.len() > 0 {
        lemma_death_total_nonneg(rows.drop_last());
        assert(rows.last().death_num as int * FX_SCALE as int >= 0) by (nonlinear_arith)
            requires rows.last().death_num >= 0;
    }
}

proof fn lemma_supply_total_nonneg(lists: Seq<Vec<SupplyPack>>)
    ensures
        0 <= spec_supply_total(lists) <= i64::MAX as int,
    decreases lists.len(),
{
    if lists.len() > 0 {
        lemma_supply_total_nonneg(lists.drop_last());
    }
}

/// For the five correctable components the raw index is never negative:
/// it is a guarded ratio of non-negative weighted sums.
proof fn lemma_raw_kpi_nonneg(
    mi: MissionCachedInfo,
    km: KMap<i16, KMap<String, i64>>,
    dm: KMap<i16, KMap<String, i64>>,
    rm: KMap<i16, KMap<String, i64>>,
    tkm: KMap<String, i64>,
    tdm: KMap<String, i64>,
    trm: KMap<String, i64>,
    cfg: KPIConfig,
    row: PlayerInfo,
    role: CharacterKPIType,
    c: KPIComponent,
)
    requires
        cfg.wf(),
        forall|pid: i16|
            match #[trigger] km.spec_get(pid) {
                Some(im) => im.wf() && nonneg_vals(im),
                None => true,
            },
        forall|pid: i16|
            match #[trigger] dm.spec_get(pid) {
                Some(im) => im.wf() && nonneg_vals(im),
                None => true,
            },
        forall|pid: i16|
            match #[trigger] rm.spec_get(pid) {
                Some(im) => im.wf() && nonneg_vals(im),
                None => true,
            },
        tkm.wf(),
        tdm.wf(),
        trm.wf(),
        nonneg_vals(tkm),
        nonneg_vals(tdm),
        nonneg_vals(trm),
        crate::global_kpi::spec_is_correction_comp(c),
    ensures
        spec_raw_kpi_for(mi, km, dm, rm, tkm, tdm, trm, cfg, row, role, c).raw_index >= 0,
{
    let pid = row.player_id;
    let ctab = cfg.character_weight_table.spec_get(role);
    if ctab is Some {
        cfg.character_weight_table.lemma_get_is_contains(role);
        let m = choose|m: int|
            0 <= m < cfg.character_weight_table.spec_len()
                && cfg.character_weight_table.key_seq()[m] == role
                && cfg.character_weight_table.spec_get(role) == Some(
                cfg.character_weight_table.val_seq()[m],
            );
    }
    let comp_maps = [km, dm, rm];
    assert forall|t: int|
        0 <= t < 3 implies match (#[trigger] comp_maps[t]).spec_get(pid) {
        Some(im) => {
            &&& 0 <= crate::kmap::spec_sat_sum(im.val_seq()) <= i64::MAX as int
            &&& (ctab is Some ==> 0 <= spec_wsum(im.key_seq(), im.val_seq(), ctab->Some_0)
                <= i64::MAX as int)
            &&& 0 <= spec_wsum(im.key_seq(), im.val_seq(), cfg.priority_table) <= i64::MAX as int
            &&& 0 <= spec_wsum(im.key_seq(), im.val_seq(), cfg.resource_weight_table)
                <= i64::MAX as int
        },
        None => true,
    } by {
        if comp_maps[t].spec_get(pid) is Some {
            let im = comp_maps[t].spec_get(pid)->Some_0;
            crate::kmap::lemma_sat_sum_nonneg(im.val_seq());
            if ctab is Some {
                crate::kpi::lemma_wsum_nonneg(im.key_seq(), im.val_seq(), ctab->Some_0);
            }
            crate::kpi::lemma_wsum_nonneg(im.key_seq(), im.val_seq(), cfg.priority_table);
            crate::kpi::lemma_wsum_nonneg(im.key_seq(), im.val_seq(), cfg.resource_weight_table);
        }
    }
    assert(comp_maps[0] == km && comp_maps[1] == dm && comp_maps[2] == rm);
    crate::kmap::lemma_sat_sum_nonneg(tkm.val_seq());
    crate::kmap::lemma_sat_sum_nonneg(tdm.val_seq());
    crate::kmap::lemma_sat_sum_nonneg(trm.val_seq());
    if ctab is Some {
        crate::kpi::lemma_wsum_nonneg(tkm.key_seq(), tkm.val_seq(), ctab->Some_0);
        crate::kpi::lemma_wsum_nonneg(tdm.key_seq(), tdm.val_seq(), ctab->Some_0);
    }
    crate::kpi::lemma_wsum_nonneg(tdm.key_seq(), tdm.val_seq(), cfg.priority_table);
    crate::kpi::lemma_wsum_nonneg(trm.key_seq(), trm.val_seq(), cfg.resource_weight_table);
    if c == KPIComponent::Nitra {
        if rm.spec_get(pid) is Some {
            let im = rm.spec_get(pid)->Some_0;
            if im.spec_get(spec_nitra_key()) is Some {
                im.lemma_get_is_contains(spec_nitra_key());
                let m = choose|m: int|
                    0 <= m < im.spec_len() && im.key_seq()[m] == spec_nitra_key()
                        && im.spec_get(spec_nitra_key()) == Some(im.val_seq()[m]);
            }
        }
        if trm.spec_get(spec_nitra_key()) is Some {
            trm.lemma_get_is_contains(spec_nitra_key());
            let m = choose|m: int|
                0 <= m < trm.spec_len() && trm.key_seq()[m] == spec_nitra_key() && trm.spec_get(
                    spec_nitra_key(),
                ) == Some(trm.val_seq()[m]);
        }
    }
    let d = spec_raw_kpi_for(mi, km, dm, rm, tkm, tdm, trm, cfg, row, role, c);
    assert(d.raw_index >= 0) by {
        let w = d.weighted_value as int;
        let t = d.mission_total_weighted_value as int;
        assert(w >= 0 && t >= 0);
        if t >= FX_EPSILON as int {
            assert((w * FX_SCALE as int) / t >= 0) by (nonlinear_arith)
                requires w >= 0 && t >= 1;
        }
    }
}

/// What the KPI raw calculator promises of its output: every derived table
/// equals its transform of the summary, the totals equal the combines, and
/// every listed player carries a complete record of all nine components.
pub open spec fn spec_kpi_models(
    out: MissionKPICachedInfo,
    mi: MissionCachedInfo,
    arows: Seq<AssignedKPI>,
    characters: KMap<i16, String>,
    names: KMap<i16, String>,
    allow: StrSet,
    cfg: KPIConfig,
) -> bool {
    &&& out.mission_id == mi.mission_info.id
    &&& out.kill_map.wf()
    &&& forall|pid: i16|
        match #[trigger] out.kill_map.spec_get(pid) {
            Some(im) => match mi.kill_info.spec_get(pid) {
                Some(o) => im.wf() && forall|k: Seq<char>|
                    #[trigger] im.spec_get(k) == spec_kill_fx(o, k),
                None => false,
            },
            None => mi.kill_info.spec_get(pid) is None,
        }
    &&& out.damage_map.wf()
    &&& forall|pid: i16|
        match #[trigger] out.damage_map.spec_get(pid) {
            Some(im) => match mi.damage_info.spec_get(pid) {
                Some(o) => im.wf() && forall|k: Seq<char>|
                    #[trigger] im.spec_get(k) == spec_keep_dmg(o, k),
                None => false,
            },
            None => mi.damage_info.spec_get(pid) is None,
        }
    &&& out.resource_map.wf()
    &&& forall|pid: i16|
        match #[trigger] out.resource_map.spec_get(pid) {
            Some(im) => match mi.resource_info.spec_get(pid) {
                Some(o) => im.wf() && forall|k: Seq<char>|
                    #[trigger] im.spec_get(k) == o.spec_get(k),
                None => false,
            },
            None => mi.resource_info.spec_get(pid) is None,
        }
    &&& out.total_kill_map.wf()
    &&& forall|k: Seq<char>|
        #[trigger] out.total_kill_map.get_or_zero(k) as int == spec_combine_kill(
            mi.kill_info.val_seq(),
            k,
        )
    &&& forall|k: Seq<char>|
        #[trigger] out.total_kill_map.contains_key(k) <==> spec_kill_key_present(
            mi.kill_info.val_seq(),
            k,
        )
    &&& out.total_damage_map.wf()
    &&& forall|k: Seq<char>|
        #[trigger] out.total_damage_map.get_or_zero(k) as int == spec_combine_dmg(
            mi.damage_info.val_seq(),
            k,
        )
    &&& forall|k: Seq<char>|
        #[trigger] out.total_damage_map.contains_key(k) <==> spec_dmg_key_present(
            mi.damage_info.val_seq(),
            k,
        )
    &&& out.total_resource_map.wf()
    &&& forall|k: Seq<char>|
        #[trigger] out.total_resource_map.get_or_zero(k) as int == spec_combine_res(
            mi.resource_info.val_seq(),
            k,
        )
    &&& forall|k: Seq<char>|
        #[trigger] out.total_resource_map.contains_key(k) <==> spec_res_key_present(
            mi.resource_info.val_seq(),
            k,
        )
    &&& out.player_id_to_kpi_character.wf()
    &&& forall|pid: i16|
        match #[trigger] out.player_id_to_kpi_character.spec_get(pid) {
            Some(role) => match spec_last_player_row(mi.player_info@, pid) {
                Some(row) => role == spec_role_of(row, characters, names, allow),
                None => false,
            },
            None => spec_last_player_row(mi.player_info@, pid) is None,
        }
    &&& out.raw_kpi_data.wf()
    &&& forall|pid: i16|
        match #[trigger] out.raw_kpi_data.spec_get(pid) {
            Some(cm) => match spec_last_player_row(mi.player_info@, pid) {
                Some(row) => cm.wf() && forall|c: KPIComponent|
                    #[trigger] cm.spec_get(c) == Some(
                        spec_raw_kpi_for(
                            mi,
                            out.kill_map,
                            out.damage_map,
                            out.resource_map,
                            out.total_kill_map,
                            out.total_damage_map,
                            out.total_resource_map,
                            cfg,
                            row,
                            spec_role_of(row, characters, names, allow),
                            c,
                        ),
                    ),
                None => false,
            },
            None => spec_last_player_row(mi.player_info@, pid) is None,
        }
    &&& out.assigned_kpi_info.wf()
    &&& forall|pid: i16|
        match #[trigger] out.assigned_kpi_info.spec_get(pid) {
            Some(info) => spec_assigned_present(arows, pid) && info.by_component.wf() && (forall|
                c: KPIComponent,
            |
                #[trigger] info.by_component.spec_get(c) == spec_assigned_delta(arows, pid, c))
                && info.overall == spec_assigned_overall(arows, pid) && info.note@
                == spec_assigned_note(arows, pid),
            None => !spec_assigned_present(arows, pid),
        }
}

impl MissionKPICachedInfo {
    /// Derive one mission's KPI snapshot from its summary, the manual
    /// adjustment rows, the lookup tables, the scout-special allow-list and
    /// the weight configuration. Fails exactly when some player row cannot
    /// be classified against the lookup tables.
    #[verifier::rlimit(100)]
    pub fn generate(
        mission_info: &MissionCachedInfo,
        mission_assigned_kpi_info: &Vec<AssignedKPI>,
        character_id_to_game_id: &KMap<i16, String>,
        player_id_to_name: &KMap<i16, String>,
        scout_special_player_set: &StrSet,
        kpi_config: &KPIConfig,
    ) -> (r: Result<MissionKPICachedInfo, String>)
        requires
            crate::mission_cache::spec_summary_wf(*mission_info),
            forall|i: int|
                0 <= i < mission_info.player_info@.len() ==> (
                #[trigger] mission_info.player_info@[i]).revive_num >= 0
                    && mission_info.player_info@[i].death_num >= 0,
            character_id_to_game_id.wf(),
            player_id_to_name.wf(),
            scout_special_player_set.wf(),
            kpi_config.wf(),
        ensures
            match r {
                Ok(out) => spec_kpi_models(
                    out,
                    *mission_info,
                    mission_assigned_kpi_info@,
                    *character_id_to_game_id,
                    *player_id_to_name,
                    *scout_special_player_set,
                    *kpi_config,
                ) && crate::global_kpi::spec_kpi_snapshot_wf(out) && !spec_kpi_missing(
                    mission_info.player_info@,
                    *character_id_to_game_id,
                    *player_id_to_name,
                ),
                Err(_) => spec_kpi_missing(
                    mission_info.player_info@,
                    *character_id_to_game_id,
                    *player_id_to_name,
                ),
            },
    {
        proof {
            assert forall|j: int|
                0 <= j < mission_info.kill_info.val_seq().len() implies (
            #[trigger] mission_info.kill_info.val_seq()[j]).wf() by {
                mission_info.kill_info.lemma_get_at_index(j);
            }
            assert forall|j: int|
                0 <= j < mission_info.damage_info.val_seq().len() implies (
            #[trigger] mission_info.damage_info.val_seq()[j]).wf() by {
                mission_info.damage_info.lemma_get_at_index(j);
            }
            assert forall|j: int|
                0 <= j < mission_info.resource_info.val_seq().len() implies (
            #[trigger] mission_info.resource_info.val_seq()[j]).wf() by {
                mission_info.resource_info.lemma_get_at_index(j);
            }
        }
        let kill_map = kill_map_of(&mission_info.kill_info);
        let damage_map = damage_map_of(&mission_info.damage_info);
        let resource_map = resource_map_of(&mission_info.resource_info);
        let total_kill_map = MissionCachedInfo::combine_kill_info(&mission_info.kill_info);
        let total_damage_map = MissionCachedInfo::combine_damage_info(&mission_info.damage_info);
        let total_resource_map = MissionCachedInfo::combine_resource_info(&mission_info.resource_info);

        // non-negativity of everything the weighted sums consume
        proof {
            assert forall|pid: i16|
                match #[trigger] kill_map.spec_get(pid) {
                    Some(im) => im.wf() && nonneg_vals(im),
                    None => true,
                } by {
                if kill_map.spec_get(pid) is Some {
                    let im = kill_map.spec_get(pid)->Some_0;
                    let o = mission_info.kill_info.spec_get(pid)->Some_0;
                    assert forall|k: Seq<char>|
                        match #[trigger] im.spec_get(k) {
                            Some(v) => v >= 0,
                            None => true,
                        } by {
                        if im.spec_get(k) is Some {
                            let p = o.spec_get(k)->Some_0;
                            assert(0 <= p.total_amount as int * FX_SCALE as int <= i64::MAX as int)
                                by (nonlinear_arith)
                                requires 0 <= p.total_amount <= i32::MAX;
                        }
                    }
                    crate::types::lemma_nonneg_vals_from_get(im);
                }
            }
            assert forall|pid: i16|
                match #[trigger] damage_map.spec_get(pid) {
                    Some(im) => im.wf() && nonneg_vals(im),
                    None => true,
                } by {
                if damage_map.spec_get(pid) is Some {
                    let im = damage_map.spec_get(pid)->Some_0;
                    crate::types::lemma_nonneg_vals_from_get(im);
                }
            }
            assert forall|pid: i16|
                match #[trigger] resource_map.spec_get(pid) {
                    Some(im) => im.wf() && nonneg_vals(im),
                    None => true,
                } by {
                if resource_map.spec_get(pid) is Some {
                    let im = resource_map.spec_get(pid)->Some_0;
                    crate::types::lemma_nonneg_vals_from_get(im);
                }
            }
            assert forall|j: int|
                0 <= j < mission_info.kill_info.val_seq().len() implies (
            #[trigger] mission_info.kill_info.val_seq()[j]).wf() && (forall|k2: Seq<char>|
                match #[trigger] mission_info.kill_info.val_seq()[j].spec_get(k2) {
                    Some(p) => p.total_amount >= 0,
                    None => true,
                }) by {
                mission_info.kill_info.lemma_get_at_index(j);
            }
            assert forall|j: int|
                0 <= j < mission_info.damage_info.val_seq().len() implies (
            #[trigger] mission_info.damage_info.val_seq()[j]).wf() && (forall|k2: Seq<char>|
                match #[trigger] mission_info.damage_info.val_seq()[j].spec_get(k2) {
                    Some(p) => p.total_amount >= 0,
                    None => true,
                }) by {
                mission_info.damage_info.lemma_get_at_index(j);
            }
            assert forall|j: int|
                0 <= j < mission_info.resource_info.val_seq().len() implies (
            #[trigger] mission_info.resource_info.val_seq()[j]).wf() && (forall|k2: Seq<char>|
                match #[trigger] mission_info.resource_info.val_seq()[j].spec_get(k2) {
                    Some(v) => v >= 0,
                    None => true,
                }) by {
                mission_info.resource_info.lemma_get_at_index(j);
            }
            assert forall|k: Seq<char>|
                match #[trigger] total_kill_map.spec_get(k) {
                    Some(v) => v >= 0,
                    None => true,
                } by {
                lemma_combine_kill_nonneg_rec(mission_info.kill_info.val_seq(), k);
                assert(total_kill_map.get_or_zero(k) as int == spec_combine_kill(mission_info.kill_info.val_seq(), k));
            }
            crate::types::lemma_nonneg_vals_from_get(total_kill_map);
            assert forall|k: Seq<char>|
                match #[trigger] total_damage_map.spec_get(k) {
                    Some(v) => v >= 0,
                    None => true,
                } by {
                lemma_combine_dmg_nonneg_rec(mission_info.damage_info.val_seq(), k);
                assert(total_damage_map.get_or_zero(k) as int == spec_combine_dmg(mission_info.damage_info.val_seq(), k));
            }
            crate::types::lemma_nonneg_vals_from_get(total_damage_map);
            assert forall|k: Seq<char>|
                match #[trigger] total_resource_map.spec_get(k) {
                    Some(v) => v >= 0,
                    None => true,
                } by {
                lemma_combine_res_nonneg_rec(mission_info.resource_info.val_seq(), k);
                assert(total_resource_map.get_or_zero(k) as int == spec_combine_res(mission_info.resource_info.val_seq(), k));
            }
            crate::types::lemma_nonneg_vals_from_get(total_resource_map);
        }

        let t_revive = revive_total(&mission_info.player_info);
        let t_death = death_total(&mission_info.player_info);
        let t_supply = supply_total(&mission_info.supply_info);
        proof {
            lemma_revive_total_nonneg(mission_info.player_info@);
            lemma_death_total_nonneg(mission_info.player_info@);
            lemma_supply_total_nonneg(mission_info.supply_info.val_seq());
        }

        // manual adjustments
        let assigned_players = scan_assigned_rows(mission_assigned_kpi_info);
        let mut assigned_kpi_info: KMap<i16, PlayerAssignedKPIInfo> = KMap::empty();
        let an = assigned_players.len();
        let mut j: usize = 0;
        while j < an
            invariant
                an == assigned_players@.len(),
                0 <= j <= an,
                forall|a: int, b: int|
                    0 <= a < b < assigned_players@.len() ==> assigned_players@[a]
                        != assigned_players@[b],
                assigned_kpi_info.wf(),
                forall|pid: i16|
                    match #[trigger] assigned_kpi_info.spec_get(pid) {
                        Some(info) => (exists|m: int|
                            0 <= m < j && assigned_players@[m] == pid) && info.by_component.wf()
                            && (forall|c: KPIComponent|
                            #[trigger] info.by_component.spec_get(c) == spec_assigned_delta(
                                mission_assigned_kpi_info@,
                                pid,
                                c,
                            )) && info.overall == spec_assigned_overall(
                            mission_assigned_kpi_info@,
                            pid,
                        ) && info.note@ == spec_assigned_note(mission_assigned_kpi_info@, pid),
                        None => !exists|m: int| 0 <= m < j && assigned_players@[m] == pid,
                    },
            decreases an - j,
        {
            let pid = assigned_players[j];
            let info = build_assigned_for_player(mission_assigned_kpi_info, pid);
            proof {
                assigned_kpi_info.lemma_get_is_contains(pid);
                if assigned_kpi_info.spec_get(pid) is Some {
                    let m = choose|m: int| 0 <= m < j && assigned_players@[m] == pid;
                    assert(false);
                }
            }
            assigned_kpi_info.set(&pid, info);
            proof {
                assert forall|pid2: i16|
                    match #[trigger] assigned_kpi_info.spec_get(pid2) {
                        Some(info2) => (exists|m: int|
                            0 <= m < j + 1 && assigned_players@[m] == pid2)
                            && info2.by_component.wf() && (forall|c: KPIComponent|
                            #[trigger] info2.by_component.spec_get(c) == spec_assigned_delta(
                                mission_assigned_kpi_info@,
                                pid2,
                                c,
                            )) && info2.overall == spec_assigned_overall(
                            mission_assigned_kpi_info@,
                            pid2,
                        ) && info2.note@ == spec_assigned_note(mission_assigned_kpi_info@, pid2),
                        None => !exists|m: int| 0 <= m < j + 1 && assigned_players@[m] == pid2,
                    } by {
                    if pid2 == pid {
                        assert(assigned_players@[j as int] == pid2);
                    } else {
                        if assigned_kpi_info.spec_get(pid2) is None {
                            if exists|m: int| 0 <= m < j + 1 && assigned_players@[m] == pid2 {
                                let m = choose|m: int|
                                    0 <= m < j + 1 && assigned_players@[m] == pid2;
                                assert(m < j);
                            }
                        }
                    }
                }
            }
            j += 1;
        }
        proof {
            assert forall|pid: i16|
                match #[trigger] assigned_kpi_info.spec_get(pid) {
                    Some(info) => spec_assigned_present(mission_assigned_kpi_info@, pid)
                        && info.by_component.wf() && (forall|c: KPIComponent|
                        #[trigger] info.by_component.spec_get(c) == spec_assigned_delta(
                            mission_assigned_kpi_info@,
                            pid,
                            c,
                        )) && info.overall == spec_assigned_overall(mission_assigned_kpi_info@, pid)
                        && info.note@ == spec_assigned_note(mission_assigned_kpi_info@, pid),
                    None => !spec_assigned_present(mission_assigned_kpi_info@, pid),
                } by {
                if assigned_kpi_info.spec_get(pid) is Some {
                    let m = choose|m: int| 0 <= m < an && assigned_players@[m] == pid;
                    assert(assigned_players@.contains(pid));
                } else {
                    if spec_assigned_present(mission_assigned_kpi_info@, pid) {
                        assert(assigned_players@.contains(pid));
                        let m = choose|m: int|
                            0 <= m < assigned_players@.len() && assigned_players@[m] == pid;
                        assert(false);
                    }
                }
            }
        }

        // per-player roles and component records
        let mut player_id_to_kpi_character: KMap<i16, CharacterKPIType> = KMap::empty();
        let mut raw_kpi_data: KMap<i16, KMap<KPIComponent, PlayerRawKPIData>> = KMap::empty();
        let pn = mission_info.player_info.len();
        let mut i: usize = 0;
        while i < pn
            invariant
                crate::mission_cache::spec_summary_wf(*mission_info),
                forall|t: int|
                    0 <= t < mission_info.player_info@.len() ==> (#[trigger] mission_info.player_info@[t]).revive_num
                        >= 0 && mission_info.player_info@[t].death_num >= 0,
                character_id_to_game_id.wf(),
                player_id_to_name.wf(),
                scout_special_player_set.wf(),
                kpi_config.wf(),
                pn == mission_info.player_info@.len(),
                0 <= i <= pn,
                kill_map.wf(),
                damage_map.wf(),
                resource_map.wf(),
                total_kill_map.wf(),
                total_damage_map.wf(),
                total_resource_map.wf(),
                nonneg_vals(total_kill_map),
                nonneg_vals(total_damage_map),
                nonneg_vals(total_resource_map),
                forall|pid: i16|
                    match #[trigger] kill_map.spec_get(pid) {
                        Some(im) => im.wf() && nonneg_vals(im),
                        None => true,
                    },
                forall|pid: i16|
                    match #[trigger] damage_map.spec_get(pid) {
                        Some(im) => im.wf() && nonneg_vals(im),
                        None => true,
                    },
                forall|pid: i16|
                    match #[trigger] resource_map.spec_get(pid) {
                        Some(im) => im.wf() && nonneg_vals(im),
                        None => true,
                    },
                t_revive as int == spec_revive_total(mission_info.player_info@),
                t_death as int == spec_death_total(mission_info.player_info@),
                t_supply as int == spec_supply_total(mission_info.supply_info.val_seq()),
                t_revive >= 0,
                t_death >= 0,
                t_supply >= 0,
                forall|t: int|
                    0 <= t < i ==> !spec_player_row_missing(
                        #[trigger] mission_info.player_info@[t],
                        *character_id_to_game_id,
                        *player_id_to_name,
                    ),
                player_id_to_kpi_character.wf(),
                forall|pid: i16|
                    match #[trigger] player_id_to_kpi_character.spec_get(pid) {
                        Some(role) => match spec_last_player_row(
                            mission_info.player_info@.take(i as int),
                            pid,
                        ) {
                            Some(row) => role == spec_role_of(
                                row,
                                *character_id_to_game_id,
                                *player_id_to_name,
                                *scout_special_player_set,
                            ),
                            None => false,
                        },
                        None => spec_last_player_row(mission_info.player_info@.take(i as int), pid) is None,
                    },
                raw_kpi_data.wf(),
                forall|pid: i16|
                    match #[trigger] raw_kpi_data.spec_get(pid) {
                        Some(cm) => match spec_last_player_row(
                            mission_info.player_info@.take(i as int),
                            pid,
                        ) {
                            Some(row) => cm.wf() && forall|c: KPIComponent|
                                #[trigger] cm.spec_get(c) == Some(
                                    spec_raw_kpi_for(
                                        *mission_info,
                                        kill_map,
                                        damage_map,
                                        resource_map,
                                        total_kill_map,
                                        total_damage_map,
                                        total_resource_map,
                                        *kpi_config,
                                        row,
                                        spec_role_of(
                                            row,
                                            *character_id_to_game_id,
                                            *player_id_to_name,
                                            *scout_special_player_set,
                                        ),
                                        c,
                                    ),
                                ),
                            None => false,
                        },
                        None => spec_last_player_row(mission_info.player_info@.take(i as int), pid) is None,
                    },
            decreases pn - i,
        {
            proof {
                assert(mission_info.player_info@.take(i as int + 1).drop_last() =~= mission_info.player_info@.take(
                    i as int,
                ));
                assert(mission_info.player_info@.take(i as int + 1).last() == mission_info.player_info@[i as int]);
            }
            let row = &mission_info.player_info[i];
            let pid = row.player_id;
            let pname = match player_id_to_name.get(&pid) {
                Some(n) => n,
                None => {
                    proof {
                        assert(spec_player_row_missing(
                            mission_info.player_info@[i as int],
                            *character_id_to_game_id,
                            *player_id_to_name,
                        ));
                        assert(spec_kpi_missing(
                            mission_info.player_info@,
                            *character_id_to_game_id,
                            *player_id_to_name,
                        ));
                    }
                    return Err("player row references an unknown player id".to_owned());
                },
            };
            let cname = match character_id_to_game_id.get(&row.character_id) {
                Some(n) => n,
                None => {
                    proof {
                        assert(spec_player_row_missing(
                            mission_info.player_info@[i as int],
                            *character_id_to_game_id,
                            *player_id_to_name,
                        ));
                        assert(spec_kpi_missing(
                            mission_info.player_info@,
                            *character_id_to_game_id,
                            *player_id_to_name,
                        ));
                    }
                    return Err("player row references an unknown character id".to_owned());
                },
            };
            let known = crate::text::str_eq(cname.as_str(), "DRILLER") || crate::text::str_eq(
                cname.as_str(),
                "ENGINEER",
            ) || crate::text::str_eq(cname.as_str(), "GUNNER") || crate::text::str_eq(
                cname.as_str(),
                "SCOUT",
            );
            if !known {
                proof {
                    assert(spec_player_row_missing(
                        mission_info.player_info@[i as int],
                        *character_id_to_game_id,
                        *player_id_to_name,
                    ));
                    assert(spec_kpi_missing(
                        mission_info.player_info@,
                        *character_id_to_game_id,
                        *player_id_to_name,
                    ));
                }
                return Err("player row carries an unknown character".to_owned());
            }
            let role = CharacterKPIType::from_player(
                cname.as_str(),
                pname.as_str(),
                scout_special_player_set,
            );
            let ghost spec_role = spec_role_of(
                mission_info.player_info@[i as int],
                *character_id_to_game_id,
                *player_id_to_name,
                *scout_special_player_set,
            );
            proof {
                assert(role == spec_role);
            }
            let ctab_opt = kpi_config.character_weight_table.get(&role);
            proof {
                if ctab_opt is Some {
                    kpi_config.character_weight_table.lemma_get_is_contains(role);
                    let m = choose|m: int|
                        0 <= m < kpi_config.character_weight_table.spec_len()
                            && kpi_config.character_weight_table.key_seq()[m] == role
                            && kpi_config.character_weight_table.spec_get(role) == Some(
                            kpi_config.character_weight_table.val_seq()[m],
                        );
                }
            }
            let km_p = kill_map.get(&pid);
            let dm_p = damage_map.get(&pid);
            let rm_p = resource_map.get(&pid);

            // Kill
            let s_kill = sum_opt(km_p);
            let w_kill = wsum_opt_t_exec(km_p, ctab_opt);
            let t_kill = wsum_opt_t_exec(Some(&total_kill_map), ctab_opt);
            let d_kill = ratio_data(s_kill, w_kill, t_kill, 0);

            // Damage
            let s_dmg = sum_opt(dm_p);
            let w_dmg = wsum_opt_t_exec(dm_p, ctab_opt);
            let t_dmg = wsum_opt_t_exec(Some(&total_damage_map), ctab_opt);
            let d_dmg = ratio_data(s_dmg, w_dmg, t_dmg, 0);

            // Priority
            let w_pri = wsum_opt_exec(dm_p, &kpi_config.priority_table);
            let t_pri = weighted_total(&total_damage_map, &kpi_config.priority_table);
            let d_pri = ratio_data(s_dmg, w_pri, t_pri, 0);

            // Revive
            let s_rev: i64 = row.revive_num as i64 * FX_SCALE;
            proof {
                assert(0 <= row.revive_num as int * FX_SCALE as int <= i64::MAX as int)
                    by (nonlinear_arith)
                    requires 0 <= row.revive_num <= i16::MAX;
            }
            let d_rev = ratio_data(s_rev, s_rev, t_revive, crate::FX_SCALE);
            let d_rev = PlayerRawKPIData {
                source_value: s_rev,
                weighted_value: s_rev,
                mission_total_weighted_value: t_revive,
                raw_index: d_rev.raw_index,
            };

            // Death
            let s_death: i64 = row.death_num as i64 * FX_SCALE;
            proof {
                assert(0 <= row.death_num as int * FX_SCALE as int <= i64::MAX as int)
                    by (nonlinear_arith)
                    requires 0 <= row.death_num <= i16::MAX;
            }
            let d_death = neg_ratio_data(s_death, t_death);

            // FriendlyFire
            let ff: i64 = match mission_info.damage_info.get(&pid) {
                Some(inner) => {
                    proof {
                        assert forall|t: int|
                            0 <= t < inner.val_seq().len() implies (
                        #[trigger] inner.val_seq()[t]).total_amount >= 0 by {
                            inner.lemma_get_at_index(t);
                        }
                        lemma_ff_sum_bounds(inner.val_seq(), pid);
                    }
                    ff_sum_of(inner, pid)
                },
                None => 0,
            };
            proof {
                match dm_p {
                    Some(x) => {
                        crate::kmap::lemma_sat_sum_nonneg(x.val_seq());
                    },
                    None => {},
                }
                assert(s_dmg >= 0);
                assert(ff >= 0);
            }
            let overall = sat_add(s_dmg, ff);
            let ff_idx: i64 = if overall < crate::FX_EPSILON {
                if ff > 0 {
                    crate::kpi::friendly_fire_index(crate::FX_SCALE)
                } else {
                    crate::FX_SCALE
                }
            } else {
                let rate = crate::fx::fx_div(ff, overall);
                proof {
                    assert(ff <= overall);
                    assert((ff as int * FX_SCALE as int) / (overall as int) <= FX_SCALE as int)
                        by (nonlinear_arith)
                        requires 0 <= ff <= overall && overall >= 1;
                }
                crate::kpi::friendly_fire_index(rate)
            };
            let d_ff = PlayerRawKPIData {
                source_value: ff,
                weighted_value: ff_idx,
                mission_total_weighted_value: 0,
                raw_index: ff_idx,
            };

            // Nitra
            let nitra_key: String = "RES_VEIN_Nitra".to_owned();
            let nv: i64 = match rm_p {
                Some(m) => {
                    proof {
                        if m.spec_get(nitra_key@) is Some {
                            m.lemma_get_is_contains(nitra_key@);
                            let t = choose|t: int|
                                0 <= t < m.spec_len() && m.key_seq()[t] == nitra_key@
                                    && m.spec_get(nitra_key@) == Some(m.val_seq()[t]);
                        }
                    }
                    match m.get(&nitra_key) {
                        Some(v) => *v,
                        None => 0,
                    }
                },
                None => 0,
            };
            let tn: i64 = match total_resource_map.get(&nitra_key) {
                Some(v) => *v,
                None => 0,
            };
            proof {
                if total_resource_map.spec_get(nitra_key@) is Some {
                    total_resource_map.lemma_get_is_contains(nitra_key@);
                    let t = choose|t: int|
                        0 <= t < total_resource_map.spec_len() && total_resource_map.key_seq()[t]
                            == nitra_key@ && total_resource_map.spec_get(nitra_key@) == Some(
                            total_resource_map.val_seq()[t],
                        );
                }
            }
            let d_nitra = ratio_data(nv, nv, tn, 0);

            // Supply
            let s_sup: i64 = match mission_info.supply_info.get(&pid) {
                Some(list) => supply_count_fx(list),
                None => 0,
            };
            let d_sup = neg_ratio_data(s_sup, t_supply);

            // Minerals
            let s_min = sum_opt(rm_p);
            let w_min = wsum_opt_exec(rm_p, &kpi_config.resource_weight_table);
            let t_min = weighted_total(&total_resource_map, &kpi_config.resource_weight_table);
            let d_min = ratio_data(s_min, w_min, t_min, 0);

            let mut cm: KMap<KPIComponent, PlayerRawKPIData> = KMap::empty();
            cm.set(&KPIComponent::Kill, d_kill);
            cm.set(&KPIComponent::Damage, d_dmg);
            cm.set(&KPIComponent::Priority, d_pri);
            cm.set(&KPIComponent::Revive, d_rev);
            cm.set(&KPIComponent::Death, d_death);
            cm.set(&KPIComponent::FriendlyFire, d_ff);
            cm.set(&KPIComponent::Nitra, d_nitra);
            cm.set(&KPIComponent::Supply, d_sup);
            cm.set(&KPIComponent::Minerals, d_min);
            proof {
                let ghost rrow = mission_info.player_info@[i as int];
                assert forall|c: KPIComponent|
                    #[trigger] cm.spec_get(c) == Some(
                        spec_raw_kpi_for(
                            *mission_info,
                            kill_map,
                            damage_map,
                            resource_map,
                            total_kill_map,
                            total_damage_map,
                            total_resource_map,
                            *kpi_config,
                            rrow,
                            spec_role,
                            c,
                        ),
                    ) by {
                    let d = spec_raw_kpi_for(
                        *mission_info,
                        kill_map,
                        damage_map,
                        resource_map,
                        total_kill_map,
                        total_damage_map,
                        total_resource_map,
                        *kpi_config,
                        rrow,
                        spec_role,
                        c,
                    );
                    match c {
                        KPIComponent::Kill => {
                            assert(cm.spec_get(KPIComponent::Kill) == Some(d_kill));
                        },
                        KPIComponent::Damage => {
                            assert(cm.spec_get(KPIComponent::Damage) == Some(d_dmg));
                        },
                        KPIComponent::Priority => {
                            assert(cm.spec_get(KPIComponent::Priority) == Some(d_pri));
                        },
                        KPIComponent::Revive => {
                            assert(cm.spec_get(KPIComponent::Revive) == Some(d_rev));
                        },
                        KPIComponent::Death => {
                            assert(cm.spec_get(KPIComponent::Death) == Some(d_death));
                        },
                        KPIComponent::FriendlyFire => {
                            assert(cm.spec_get(KPIComponent::FriendlyFire) == Some(d_ff));
                        },
                        KPIComponent::Nitra => {
                            assert(cm.spec_get(KPIComponent::Nitra) == Some(d_nitra));
                        },
                        KPIComponent::Supply => {
                            assert(cm.spec_get(KPIComponent::Supply) == Some(d_sup));
                        },
                        KPIComponent::Minerals => {
                            assert(cm.spec_get(KPIComponent::Minerals) == Some(d_min));
                        },
                    }
                }
            }

            player_id_to_kpi_character.set(&pid, role);
            raw_kpi_data.set(&pid, cm);
            i += 1;
        }
        proof {
            assert(mission_info.player_info@.take(pn as int) =~= mission_info.player_info@);
        }

        proof {
            assert forall|pid: i16|
                match #[trigger] raw_kpi_data.spec_get(pid) {
                    Some(cm) => cm.wf() && forall|c: KPIComponent|
                        match #[trigger] cm.spec_get(c) {
                            Some(d) => crate::global_kpi::spec_is_correction_comp(c)
                                ==> d.raw_index >= 0,
                            None => true,
                        },
                    None => true,
                } by {
                if raw_kpi_data.spec_get(pid) is Some {
                    let cm = raw_kpi_data.spec_get(pid)->Some_0;
                    let lrow = spec_last_player_row(mission_info.player_info@, pid)->Some_0;
                    let lrole = spec_role_of(
                        lrow,
                        *character_id_to_game_id,
                        *player_id_to_name,
                        *scout_special_player_set,
                    );
                    assert forall|c: KPIComponent|
                        match #[trigger] cm.spec_get(c) {
                            Some(d) => crate::global_kpi::spec_is_correction_comp(c)
                                ==> d.raw_index >= 0,
                            None => true,
                        } by {
                        if cm.spec_get(c) is Some && crate::global_kpi::spec_is_correction_comp(
                            c,
                        ) {
                            lemma_raw_kpi_nonneg(
                                *mission_info,
                                kill_map,
                                damage_map,
                                resource_map,
                                total_kill_map,
                                total_damage_map,
                                total_resource_map,
                                *kpi_config,
                                lrow,
                                lrole,
                                c,
                            );
                        }
                    }
                }
            }
        }
        Ok(
            MissionKPICachedInfo {
                mission_id: mission_info.mission_info.id,
                damage_map,
                kill_map,
                resource_map,
                total_damage_map,
                total_kill_map,
                total_resource_map,
                player_id_to_kpi_character,
                raw_kpi_data,
                assigned_kpi_info,
            },
        )
    }
}

// ---------------------------------------------------------------------------
// Stated properties
// ---------------------------------------------------------------------------
proof fn lemma_last_row_some(rows: Seq<PlayerInfo>, pid: i16)
    requires
        exists|i: int| 0 <= i < rows.len() && (#[trigger] rows[i]).player_id == pid,
    ensures
        spec_last_player_row(rows, pid) is Some,
    decreases rows.len(),
{
    if rows.len() > 0 && rows.last().player_id != pid {
        let i = choose|i: int| 0 <= i < rows.len() && (#[trigger] rows[i]).player_id == pid;
        assert(i < rows.len() - 1);
        assert(rows.drop_last()[i] == rows[i]);
        lemma_last_row_some(rows.drop_last(), pid);
    }
}

/// Every player listed in the summary's roster has a complete record of
/// all nine components in the derived KPI snapshot: no partial records.
pub proof fn lemma_kpi_components_complete(
    out: MissionKPICachedInfo,
    mi: MissionCachedInfo,
    arows: Seq<AssignedKPI>,
    characters: KMap<i16, String>,
    names: KMap<i16, String>,
    allow: StrSet,
    cfg: KPIConfig,
)
    requires
        spec_kpi_models(out, mi, arows, characters, names, allow, cfg),
    ensures
        forall|i: int|
            0 <= i < mi.player_info@.len() ==> {
                let pid = (#[trigger] mi.player_info@[i]).player_id;
                match out.raw_kpi_data.spec_get(pid) {
                    Some(cm) => forall|c: KPIComponent| (#[trigger] cm.spec_get(c)) is Some,
                    None => false,
                }
            },
{
    assert forall|i: int|
        0 <= i < mi.player_info@.len() implies {
        let pid = (#[trigger] mi.player_info@[i]).player_id;
        match out.raw_kpi_data.spec_get(pid) {
            Some(cm) => forall|c: KPIComponent| (#[trigger] cm.spec_get(c)) is Some,
            None => false,
        }
    } by {
        let pid = mi.player_info@[i].player_id;
        lemma_last_row_some(mi.player_info@, pid);
        assert(out.raw_kpi_data.spec_get(pid) is Some);
    }
}

/// A mission-relative ratio index stays in `[0, 1]` whenever the player's
/// weighted value does not exceed the mission total, for any in-range
/// fallback.
pub proof fn lemma_ratio_index_bounds(w: int, t: int, fb: int)
    requires
        0 <= w <= t,
        0 <= fb <= FX_SCALE as int,
    ensures
        0 <= spec_ratio_or(w, t, fb) <= FX_SCALE as int,
{
    if t >= FX_EPSILON as int {
        assert(0 <= (w * FX_SCALE as int) / t <= FX_SCALE as int) by (nonlinear_arith)
            requires 0 <= w <= t && t >= 1;
    }
}

/// The friendly-fire component's index never leaves `[-1000, 1]`: the one
/// component that is unbounded below by design stops at the penalty floor.
pub proof fn lemma_ff_raw_index_bounds(ff: int, sd: int)
    requires
        0 <= ff,
        0 <= sd,
        ff <= i64::MAX as int,
        sd <= i64::MAX as int,
    ensures
        ({
            let overall = spec_sat_add(sd, ff);
            let idx = if overall < FX_EPSILON as int {
                if ff > 0 {
                    spec_ff_index(FX_SCALE as int)
                } else {
                    FX_SCALE as int
                }
            } else {
                spec_ff_index(spec_fx_div(ff, overall))
            };
            -1_000_000_000 <= idx <= FX_SCALE as int
        }),
{
    let overall = spec_sat_add(sd, ff);
    if overall < FX_EPSILON as int {
        crate::kpi::lemma_ff_index_range(FX_SCALE as int);
    }
    if overall >= FX_EPSILON as int {
        assert(ff <= overall);
        assert(0 <= (ff * FX_SCALE as int) / overall <= FX_SCALE as int) by (nonlinear_arith)
            requires 0 <= ff <= overall && overall >= 1;
        crate::kpi::lemma_ff_index_range(spec_fx_div(ff, overall));
    }
}

/// A negated ratio index (deaths, supply use) stays in `[-1, 0]` whenever
/// the player's count does not exceed the mission total.
pub proof fn lemma_neg_ratio_index_bounds(s: int, t: int)
    requires
        0 <= s <= t,
    ensures
        ({
            let idx = if t < FX_EPSILON as int {
                0
            } else {
                -spec_fx_div(s, t)
            };
            -(FX_SCALE as int) <= idx <= 0
        }),
{
    if t >= FX_EPSILON as int {
        assert(0 <= (s * FX_SCALE as int) / t <= FX_SCALE as int) by (nonlinear_arith)
            requires 0 <= s <= t && t >= 1;
    }
}

/// One player's revive count never exceeds the mission's revive total.
pub proof fn lemma_revive_member_le(rows: Seq<PlayerInfo>, i: int)
    requires
        forall|m: int| 0 <= m < rows.len() ==> (#[trigger] rows[m]).revive_num >= 0,
        0 <= i < rows.len(),
    ensures
        rows[i].revive_num as int * FX_SCALE as int <= spec_revive_total(rows),
    decreases rows.len(),
{
    lemma_revive_total_nonneg(rows);
    if i == rows.len() - 1 {
        assert(forall|m: int| 0 <= m < rows.drop_last().len() ==> (#[trigger] rows.drop_last()[m]).revive_num >= 0);
        lemma_revive_total_nonneg(rows.drop_last());
    } else {
        assert(forall|m: int| 0 <= m < rows.drop_last().len() ==> (#[trigger] rows.drop_last()[m]).revive_num >= 0);
        lemma_revive_member_le(rows.drop_last(), i);
        assert(rows.last().revive_num as int * FX_SCALE as int >= 0) by (nonlinear_arith)
            requires rows.last().revive_num >= 0;
    }
}

/// One player's death count never exceeds the mission's death total.
pub proof fn lemma_death_member_le(rows: Seq<PlayerInfo>, i: int)
    requires
        forall|m: int| 0 <= m < rows.len() ==> (#[trigger] rows[m]).death_num >= 0,
        0 <= i < rows.len(),
    ensures
        rows[i].death_num as int * FX_SCALE as int <= spec_death_total(rows),
    decreases rows.len(),
{
    lemma_death_total_nonneg(rows);
    if i == rows.len() - 1 {
        assert(forall|m: int| 0 <= m < rows.drop_last().len() ==> (#[trigger] rows.drop_last()[m]).death_num >= 0);
        lemma_death_total_nonneg(rows.drop_last());
    } else {
        assert(forall|m: int| 0 <= m < rows.drop_last().len() ==> (#[trigger] rows.drop_last()[m]).death_num >= 0);
        lemma_death_member_le(rows.drop_last(), i);
        assert(rows.last().death_num as int * FX_SCALE as int >= 0) by (nonlinear_arith)
            requires rows.last().death_num >= 0;
    }
}

/// One player's supply-use count never exceeds the mission's supply total.
pub proof fn lemma_supply_member_le(lists: Seq<Vec<SupplyPack>>, i: int)
    requires
        0 <= i < lists.len(),
    ensures
        spec_supply_count(lists[i]@) <= spec_supply_total(lists),
    decreases lists.len(),
{
    lemma_supply_total_nonneg(lists);
    if i == lists.len() - 1 {
        lemma_supply_total_nonneg(lists.drop_last());
    } else {
        lemma_supply_member_le(lists.drop_last(), i);
    }
}

} // verus!
