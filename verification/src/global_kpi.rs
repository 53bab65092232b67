//! The global correction engine: consumes every cached mission summary and
//! KPI snapshot and produces the process-wide correction factors and
//! percentile transform curves that make scores comparable across roles.
use vstd::prelude::*;
use crate::kmap::{KMap, MapKey};
use crate::kpi::spec_weighted_val;
use crate::fx::{sat_add, spec_sat_add, spec_clamp};
use crate::mission_cache::MissionCachedInfo;
use crate::mission_kpi::MissionKPICachedInfo;
use crate::types::{
    CharacterKPIType, DamagePack, KPIComponent, KPIConfig, PlayerInfo, StrSet,
};
use crate::{FX_EPSILON, FX_SCALE};

verus! {

/// One (valid mission, player) pair flattened for the cross-mission
/// statistics: the player's role, presence, stage-one quantities, and the
/// raw indexes of the five correctable components.
#[derive(Clone, Copy)]
pub struct GlobalEntry {
    pub mission_id: i32,
    pub player_id: i16,
    pub role: CharacterKPIType,
    pub player_index: i64,
    pub damage: i64,
    pub priority: i64,
    pub kill: i64,
    pub nitra: i64,
    pub resource: i64,
    pub raw_damage: i64,
    pub raw_priority: i64,
    pub raw_kill: i64,
    pub raw_nitra: i64,
    pub raw_minerals: i64,
}

// ---------------------------------------------------------------------------
// Per-entry quantities
// ---------------------------------------------------------------------------
/// The fixed-point kill count sum of one player's kill table.
pub open spec fn spec_kill_sum(vals: Seq<crate::types::KillPack>) -> int
    decreases vals.len(),
{
    if vals.len() == 0 {
        0
    } else {
        spec_sat_add(
            spec_kill_sum(vals.drop_last()),
            vals.last().total_amount as int * FX_SCALE as int,
        )
    }
}

/// The non-friendly-fire damage sum of one player's damage table.
pub open spec fn spec_dmg_sum(vals: Seq<DamagePack>) -> int
    decreases vals.len(),
{
    if vals.len() == 0 {
        0
    } else {
        let prev = spec_dmg_sum(vals.drop_last());
        let p = vals.last();
        if p.taker_type == 1 {
            prev
        } else {
            spec_sat_add(prev, p.total_amount as int)
        }
    }
}

/// The priority-weighted non-friendly-fire damage sum of one player's
/// damage table.
pub open spec fn spec_priority_sum(
    keys: Seq<Seq<char>>,
    vals: Seq<DamagePack>,
    ptab: KMap<String, i64>,
) -> int
    decreases vals.len(),
{
    if vals.len() == 0 || keys.len() != vals.len() {
        0
    } else {
        let prev = spec_priority_sum(keys.drop_last(), vals.drop_last(), ptab);
        let p = vals.last();
        if p.taker_type == 1 {
            prev
        } else {
            spec_sat_add(
                prev,
                spec_weighted_val(p.total_amount, ptab.spec_get(keys.last())) as int,
            )
        }
    }
}

/// The plain value sum of one player's resource table.
pub open spec fn spec_val_sum(vals: Seq<i64>) -> int
    decreases vals.len(),
{
    if vals.len() == 0 {
        0
    } else {
        spec_sat_add(spec_val_sum(vals.drop_last()), vals.last() as int)
    }
}

fn kill_sum_of(inner: &KMap<String, crate::types::KillPack>) -> (r: i64)
    requires
        inner.wf(),
    ensures
        r as int == spec_kill_sum(inner.val_seq()),
{
    let n = inner.len();
    let mut acc: i64 = 0;
    let mut i: usize = 0;
    while i < n
        invariant
            inner.wf(),
            n == inner.spec_len(),
            0 <= i <= n,
            acc as int == spec_kill_sum(inner.val_seq().take(i as int)),
        decreases n - i,
    {
        proof {
            assert(inner.val_seq().take(i as int + 1).drop_last() =~= inner.val_seq().take(
                i as int,
            ));
            assert(inner.val_seq().take(i as int + 1).last() == inner.val_seq()[i as int]);
        }
        let pack = inner.val_at(i);
        let fx: i64 = (pack.total_amount as i64) * FX_SCALE;
        acc = sat_add(acc, fx);
        i += 1;
    }
    proof {
        assert(inner.val_seq().take(n as int) =~= inner.val_seq());
    }
    acc
}

fn dmg_sum_of(inner: &KMap<String, DamagePack>) -> (r: i64)
    requires
        inner.wf(),
    ensures
        r as int == spec_dmg_sum(inner.val_seq()),
{
    let n = inner.len();
    let mut acc: i64 = 0;
    let mut i: usize = 0;
    while i < n
        invariant
            inner.wf(),
            n == inner.spec_len(),
            0 <= i <= n,
            acc as int == spec_dmg_sum(inner.val_seq().take(i as int)),
        decreases n - i,
    {
        proof {
            assert(inner.val_seq().take(i as int + 1).drop_last() =~= inner.val_seq().take(
                i as int,
            ));
            assert(inner.val_seq().take(i as int + 1).last() == inner.val_seq()[i as int]);
        }
        let p = inner.val_at(i);
        if p.taker_type != 1 {
            acc = sat_add(acc, p.total_amount);
        }
        i += 1;
    }
    proof {
        assert(inner.val_seq().take(n as int) =~= inner.val_seq());
    }
    acc
}

fn priority_sum_of(inner: &KMap<String, DamagePack>, ptab: &KMap<String, i64>) -> (r: i64)
    requires
        inner.wf(),
        ptab.wf(),
        crate::types::nonneg_vals(*ptab),
        forall|k: Seq<char>|
            match #[trigger] inner.spec_get(k) {
                Some(p) => p.total_amount >= 0,
                None => true,
            },
    ensures
        r as int == spec_priority_sum(inner.key_seq(), inner.val_seq(), *ptab),
{
    let n = inner.len();
    let mut acc: i64 = 0;
    let mut i: usize = 0;
    while i < n
        invariant
            inner.wf(),
            ptab.wf(),
            crate::types::nonneg_vals(*ptab),
            forall|k: Seq<char>|
                match #[trigger] inner.spec_get(k) {
                    Some(p) => p.total_amount >= 0,
                    None => true,
                },
            n == inner.spec_len(),
            0 <= i <= n,
            acc as int == spec_priority_sum(
                inner.key_seq().take(i as int),
                inner.val_seq().take(i as int),
                *ptab,
            ),
        decreases n - i,
    {
        proof {
            assert(inner.key_seq().take(i as int + 1).drop_last() =~= inner.key_seq().take(
                i as int,
            ));
            assert(inner.val_seq().take(i as int + 1).drop_last() =~= inner.val_seq().take(
                i as int,
            ));
            assert(inner.val_seq().take(i as int + 1).last() == inner.val_seq()[i as int]);
            assert(inner.key_seq().take(i as int + 1).last() == inner.key_seq()[i as int]);
        }
        let key = inner.key_at(i);
        let p = inner.val_at(i);
        if p.taker_type != 1 {
            proof {
                if ptab.spec_get(key@) is Some {
                    ptab.lemma_get_is_contains(key@);
                    let m = choose|m: int|
                        0 <= m < ptab.spec_len() && ptab.key_seq()[m] == key@ && ptab.spec_get(
                            key@,
                        ) == Some(ptab.val_seq()[m]);
                }
            }
            let weighted: i64 = match ptab.get(key) {
                Some(w) => crate::fx::fx_mul(p.total_amount, *w),
                None => p.total_amount,
            };
            acc = sat_add(acc, weighted);
        }
        i += 1;
    }
    proof {
        assert(inner.key_seq().take(n as int) =~= inner.key_seq());
        assert(inner.val_seq().take(n as int) =~= inner.val_seq());
    }
    acc
}

fn val_sum_of(inner: &KMap<String, i64>) -> (r: i64)
    requires
        inner.wf(),
    ensures
        r as int == spec_val_sum(inner.val_seq()),
{
    let n = inner.len();
    let mut acc: i64 = 0;
    let mut i: usize = 0;
    while i < n
        invariant
            inner.wf(),
            n == inner.spec_len(),
            0 <= i <= n,
            acc as int == spec_val_sum(inner.val_seq().take(i as int)),
        decreases n - i,
    {
        proof {
            assert(inner.val_seq().take(i as int + 1).drop_last() =~= inner.val_seq().take(
                i as int,
            ));
            assert(inner.val_seq().take(i as int + 1).last() == inner.val_seq()[i as int]);
        }
        acc = sat_add(acc, *inner.val_at(i));
        i += 1;
    }
    proof {
        assert(inner.val_seq().take(n as int) =~= inner.val_seq());
    }
    acc
}

// ---------------------------------------------------------------------------
// Flattening missions into entries
// ---------------------------------------------------------------------------
/// The last KPI snapshot in the list for a mission id: the one that wins
/// when duplicates exist.
pub open spec fn spec_find_kpi(kpis: Seq<MissionKPICachedInfo>, mid: i32) -> Option<
    MissionKPICachedInfo,
>
    decreases kpis.len(),
{
    if kpis.len() == 0 {
        None
    } else if kpis.last().mission_id == mid {
        Some(kpis.last())
    } else {
        spec_find_kpi(kpis.drop_last(), mid)
    }
}

/// The raw index a KPI snapshot records for one player and component, or
/// zero where the record is absent (absence is rejected separately).
pub open spec fn spec_raw_of(k: MissionKPICachedInfo, pid: i16, c: KPIComponent) -> i64 {
    match k.raw_kpi_data.spec_get(pid) {
        Some(cm) => match cm.spec_get(c) {
            Some(d) => d.raw_index,
            None => 0,
        },
        None => 0,
    }
}

/// One flattened entry, as a mathematical function of the mission summary,
/// its KPI snapshot, the lookup tables and the priority table.
pub open spec fn spec_entry_of(
    m: MissionCachedInfo,
    k: MissionKPICachedInfo,
    chars: KMap<i16, String>,
    names: KMap<i16, String>,
    allow: StrSet,
    ptab: KMap<String, i64>,
    row: PlayerInfo,
) -> GlobalEntry {
    let pid = row.player_id;
    GlobalEntry {
        mission_id: m.mission_info.id,
        player_id: pid,
        role: crate::mission_kpi::spec_role_of(row, chars, names, allow),
        player_index: match m.player_index.spec_get(pid) {
            Some(v) => v,
            None => 0,
        },
        damage: match m.damage_info.spec_get(pid) {
            Some(im) => spec_dmg_sum(im.val_seq()) as i64,
            None => 0,
        },
        priority: match m.damage_info.spec_get(pid) {
            Some(im) => spec_priority_sum(im.key_seq(), im.val_seq(), ptab) as i64,
            None => 0,
        },
        kill: match m.kill_info.spec_get(pid) {
            Some(im) => spec_kill_sum(im.val_seq()) as i64,
            None => 0,
        },
        nitra: match m.resource_info.spec_get(pid) {
            Some(im) => match im.spec_get(crate::mission_kpi::spec_nitra_key()) {
                Some(v) => v,
                None => 0,
            },
            None => 0,
        },
        resource: match m.resource_info.spec_get(pid) {
            Some(im) => spec_val_sum(im.val_seq()) as i64,
            None => 0,
        },
        raw_damage: spec_raw_of(k, pid, KPIComponent::Damage),
        raw_priority: spec_raw_of(k, pid, KPIComponent::Priority),
        raw_kill: spec_raw_of(k, pid, KPIComponent::Kill),
        raw_nitra: spec_raw_of(k, pid, KPIComponent::Nitra),
        raw_minerals: spec_raw_of(k, pid, KPIComponent::Minerals),
    }
}

/// A player row of a valid mission that the statistics cannot use: unknown
/// name or character, no presence ratio, or an incomplete KPI record.
pub open spec fn spec_g_row_missing(
    m: MissionCachedInfo,
    k: MissionKPICachedInfo,
    chars: KMap<i16, String>,
    names: KMap<i16, String>,
    row: PlayerInfo,
) -> bool {
    ||| crate::mission_kpi::spec_player_row_missing(row, chars, names)
    ||| m.player_index.spec_get(row.player_id) is None
    ||| match k.raw_kpi_data.spec_get(row.player_id) {
        None => true,
        Some(cm) => cm.spec_get(KPIComponent::Damage) is None || cm.spec_get(
            KPIComponent::Priority,
        ) is None || cm.spec_get(KPIComponent::Kill) is None || cm.spec_get(
            KPIComponent::Nitra,
        ) is None || cm.spec_get(KPIComponent::Minerals) is None,
    }
}

/// A valid mission the derivation must reject: no KPI snapshot, or an
/// unusable player row.
pub open spec fn spec_g_mission_missing(
    m: MissionCachedInfo,
    kpis: Seq<MissionKPICachedInfo>,
    chars: KMap<i16, String>,
    names: KMap<i16, String>,
) -> bool {
    match spec_find_kpi(kpis, m.mission_info.id) {
        None => true,
        Some(k) => exists|j: int|
            0 <= j < m.player_info@.len() && spec_g_row_missing(
                m,
                k,
                chars,
                names,
                #[trigger] m.player_info@[j],
            ),
    }
}

/// Some valid mission cannot be used.
pub open spec fn spec_global_missing(
    missions: Seq<MissionCachedInfo>,
    kpis: Seq<MissionKPICachedInfo>,
    invalid: Seq<i32>,
    chars: KMap<i16, String>,
    names: KMap<i16, String>,
) -> bool {
    exists|i: int|
        0 <= i < missions.len() && !invalid.contains((#[trigger] missions[i]).mission_info.id)
            && spec_g_mission_missing(missions[i], kpis, chars, names)
}

/// The entries of one mission, in player-row order.
pub open spec fn spec_mission_entries(
    m: MissionCachedInfo,
    k: MissionKPICachedInfo,
    chars: KMap<i16, String>,
    names: KMap<i16, String>,
    allow: StrSet,
    ptab: KMap<String, i64>,
    rows: Seq<PlayerInfo>,
) -> Seq<GlobalEntry>
    decreases rows.len(),
{
    if rows.len() == 0 {
        Seq::empty()
    } else {
        spec_mission_entries(m, k, chars, names, allow, ptab, rows.drop_last()).push(
            spec_entry_of(m, k, chars, names, allow, ptab, rows.last()),
        )
    }
}

/// The flattened entries of every valid mission, in list order.
pub open spec fn spec_all_entries(
    missions: Seq<MissionCachedInfo>,
    kpis: Seq<MissionKPICachedInfo>,
    invalid: Seq<i32>,
    chars: KMap<i16, String>,
    names: KMap<i16, String>,
    allow: StrSet,
    ptab: KMap<String, i64>,
) -> Seq<GlobalEntry>
    decreases missions.len(),
{
    if missions.len() == 0 {
        Seq::empty()
    } else {
        let prev = spec_all_entries(
            missions.drop_last(),
            kpis,
            invalid,
            chars,
            names,
            allow,
            ptab,
        );
        let m = missions.last();
        if invalid.contains(m.mission_info.id) {
            prev
        } else {
            match spec_find_kpi(kpis, m.mission_info.id) {
                Some(k) => prev + spec_mission_entries(
                    m,
                    k,
                    chars,
                    names,
                    allow,
                    ptab,
                    m.player_info@,
                ),
                None => prev,
            }
        }
    }
}

/// Linear membership test over the invalid mission ids.
fn contains_i32(v: &Vec<i32>, x: i32) -> (r: bool)
    ensures
        r == v@.contains(x),
{
    let n = v.len();
    let mut i: usize = 0;
    while i < n
        invariant
            n == v@.len(),
            0 <= i <= n,
            forall|m: int| 0 <= m < i ==> v@[m] != x,
        decreases n - i,
    {
        if v[i] == x {
            assert(v@[i as int] == x);
            return true;
        }
        i += 1;
    }
    proof {
        if v@.contains(x) {
            let m = choose|m: int| 0 <= m < v@.len() && v@[m] == x;
        }
    }
    false
}

/// Find the winning KPI snapshot for a mission id.
fn find_kpi<'a>(kpis: &'a Vec<MissionKPICachedInfo>, mid: i32) -> (r: Option<
    &'a MissionKPICachedInfo,
>)
    ensures
        match r {
            Some(k) => spec_find_kpi(kpis@, mid) == Some(*k),
            None => spec_find_kpi(kpis@, mid) is None,
        },
{
    let n = kpis.len();
    let mut found: Option<&MissionKPICachedInfo> = None;
    let mut i: usize = 0;
    while i < n
        invariant
            n == kpis@.len(),
            0 <= i <= n,
            match found {
                Some(k) => spec_find_kpi(kpis@.take(i as int), mid) == Some(*k),
                None => spec_find_kpi(kpis@.take(i as int), mid) is None,
            },
        decreases n - i,
    {
        proof {
            assert(kpis@.take(i as int + 1).drop_last() =~= kpis@.take(i as int));
            assert(kpis@.take(i as int + 1).last() == kpis@[i as int]);
        }
        if kpis[i].mission_id == mid {
            found = Some(&kpis[i]);
        }
        i += 1;
    }
    proof {
        assert(kpis@.take(n as int) =~= kpis@);
    }
    found
}

// ---------------------------------------------------------------------------
// Stage one: correction factors
// ---------------------------------------------------------------------------
/// The stage-one quantity of an entry for a correctable component.
pub open spec fn spec_stage_field(e: GlobalEntry, c: KPIComponent) -> i64 {
    match c {
        KPIComponent::Damage => e.damage,
        KPIComponent::Priority => e.priority,
        KPIComponent::Kill => e.kill,
        KPIComponent::Nitra => e.nitra,
        KPIComponent::Minerals => e.resource,
        _ => 0,
    }
}

/// The raw index of an entry for a correctable component.
pub open spec fn spec_raw_field(e: GlobalEntry, c: KPIComponent) -> i64 {
    match c {
        KPIComponent::Damage => e.raw_damage,
        KPIComponent::Priority => e.raw_priority,
        KPIComponent::Kill => e.raw_kill,
        KPIComponent::Nitra => e.raw_nitra,
        KPIComponent::Minerals => e.raw_minerals,
        _ => 0,
    }
}

/// A component the correction stage covers.
pub open spec fn spec_is_correction_comp(c: KPIComponent) -> bool {
    c == KPIComponent::Damage || c == KPIComponent::Priority || c == KPIComponent::Kill || c
        == KPIComponent::Nitra || c == KPIComponent::Minerals
}

/// The presence-weight sum of a role over the entries.
pub open spec fn spec_role_pi_sum(entries: Seq<GlobalEntry>, role: CharacterKPIType) -> int
    decreases entries.len(),
{
    if entries.len() == 0 {
        0
    } else {
        let prev = spec_role_pi_sum(entries.drop_last(), role);
        if entries.last().role == role {
            spec_sat_add(prev, entries.last().player_index as int)
        } else {
            prev
        }
    }
}

/// The stage-one quantity sum of a role over the entries.
pub open spec fn spec_role_comp_sum(
    entries: Seq<GlobalEntry>,
    role: CharacterKPIType,
    c: KPIComponent,
) -> int
    decreases entries.len(),
{
    if entries.len() == 0 {
        0
    } else {
        let prev = spec_role_comp_sum(entries.drop_last(), role, c);
        if entries.last().role == role {
            spec_sat_add(prev, spec_stage_field(entries.last(), c) as int)
        } else {
            prev
        }
    }
}

/// Some entry carries this role.
pub open spec fn spec_role_present(entries: Seq<GlobalEntry>, role: CharacterKPIType) -> bool {
    exists|i: int| 0 <= i < entries.len() && (#[trigger] entries[i]).role == role
}

/// The presence-weighted average of a role's stage-one quantity; zero when
/// the role carries no presence weight.
pub open spec fn spec_role_avg(
    entries: Seq<GlobalEntry>,
    role: CharacterKPIType,
    c: KPIComponent,
) -> int {
    let pi = spec_role_pi_sum(entries, role);
    if pi < 1 {
        0
    } else {
        crate::fx::spec_fx_div(spec_role_comp_sum(entries, role, c), pi)
    }
}

/// The five roles in their fixed enumeration order.
pub open spec fn spec_all_roles() -> Seq<CharacterKPIType> {
    seq![
        CharacterKPIType::Driller,
        CharacterKPIType::Engineer,
        CharacterKPIType::Gunner,
        CharacterKPIType::Scout,
        CharacterKPIType::ScoutSpecial,
    ]
}

/// The minimum average over the roles of `roles` that occur in the entries;
/// negative when none occurs.
pub open spec fn spec_min_over(
    entries: Seq<GlobalEntry>,
    c: KPIComponent,
    roles: Seq<CharacterKPIType>,
) -> int
    decreases roles.len(),
{
    if roles.len() == 0 {
        -1
    } else {
        let rest = spec_min_over(entries, c, roles.drop_last());
        if spec_role_present(entries, roles.last()) {
            let a = spec_role_avg(entries, roles.last(), c);
            if rest < 0 || a < rest {
                a
            } else {
                rest
            }
        } else {
            rest
        }
    }
}

/// The minimum average over all occurring roles.
pub open spec fn spec_min_avg(entries: Seq<GlobalEntry>, c: KPIComponent) -> int {
    spec_min_over(entries, c, spec_all_roles())
}

/// A role's correction factor: its average divided by the minimum average,
/// one whenever the minimum is effectively zero.
pub open spec fn spec_factor(
    entries: Seq<GlobalEntry>,
    role: CharacterKPIType,
    c: KPIComponent,
) -> int {
    let min = spec_min_avg(entries, c);
    if min < 1 {
        FX_SCALE as int
    } else {
        crate::fx::spec_fx_div(spec_role_avg(entries, role, c), min)
    }
}

/// The sum of the four standard roles' factors: the normalization
/// denominator.
pub open spec fn spec_ssum(entries: Seq<GlobalEntry>, c: KPIComponent) -> int {
    spec_sat_add(
        spec_sat_add(
            spec_sat_add(
                spec_factor(entries, CharacterKPIType::Driller, c),
                spec_factor(entries, CharacterKPIType::Engineer, c),
            ),
            spec_factor(entries, CharacterKPIType::Gunner, c),
        ),
        spec_factor(entries, CharacterKPIType::Scout, c),
    )
}

// ---------------------------------------------------------------------------
// Stage two: per-mission corrected indexes
// ---------------------------------------------------------------------------
/// The sum of the factors of the roles present in one mission, counted per
/// player.
pub open spec fn spec_msum(
    all: Seq<GlobalEntry>,
    sub: Seq<GlobalEntry>,
    mid: i32,
    c: KPIComponent,
) -> int
    decreases sub.len(),
{
    if sub.len() == 0 {
        0
    } else {
        let prev = spec_msum(all, sub.drop_last(), mid, c);
        if sub.last().mission_id == mid {
            spec_sat_add(prev, spec_factor(all, sub.last().role, c))
        } else {
            prev
        }
    }
}

/// The corrected index of one entry for one component.
pub open spec fn spec_ci(all: Seq<GlobalEntry>, e: GlobalEntry, c: KPIComponent) -> int {
    let ssum = spec_ssum(all, c);
    if ssum < 1 {
        0
    } else {
        spec_clamp(
            (spec_raw_field(e, c) as int * spec_msum(all, all, e.mission_id, c)) / ssum,
        )
    }
}

// ---------------------------------------------------------------------------
// Stage three: percentile transform
// ---------------------------------------------------------------------------
/// The distinct players of a role with enough presence, in first-occurrence
/// order.
pub open spec fn spec_dist_pids(entries: Seq<GlobalEntry>, role: CharacterKPIType) -> Seq<i16>
    decreases entries.len(),
{
    if entries.len() == 0 {
        Seq::empty()
    } else {
        let prev = spec_dist_pids(entries.drop_last(), role);
        let e = entries.last();
        if e.role == role && e.player_index >= crate::KPI_CALCULATION_PLAYER_INDEX && !prev.contains(
            e.player_id,
        ) {
            prev.push(e.player_id)
        } else {
            prev
        }
    }
}

/// One eligible player's presence sum under a role.
pub open spec fn spec_player_pi_sum(
    entries: Seq<GlobalEntry>,
    role: CharacterKPIType,
    pid: i16,
) -> int
    decreases entries.len(),
{
    if entries.len() == 0 {
        0
    } else {
        let prev = spec_player_pi_sum(entries.drop_last(), role, pid);
        let e = entries.last();
        if e.role == role && e.player_id == pid && e.player_index
            >= crate::KPI_CALCULATION_PLAYER_INDEX {
            spec_sat_add(prev, e.player_index as int)
        } else {
            prev
        }
    }
}

/// One eligible player's presence-weighted corrected-index sum.
pub open spec fn spec_player_wsum(
    all: Seq<GlobalEntry>,
    sub: Seq<GlobalEntry>,
    role: CharacterKPIType,
    pid: i16,
    c: KPIComponent,
) -> int
    decreases sub.len(),
{
    if sub.len() == 0 {
        0
    } else {
        let prev = spec_player_wsum(all, sub.drop_last(), role, pid, c);
        let e = sub.last();
        if e.role == role && e.player_id == pid && e.player_index
            >= crate::KPI_CALCULATION_PLAYER_INDEX {
            spec_sat_add(prev, crate::fx::spec_fx_mul(e.player_index as int, spec_ci(all, e, c)))
        } else {
            prev
        }
    }
}

/// One player's per-mission-weighted average corrected index.
pub open spec fn spec_player_avg(
    all: Seq<GlobalEntry>,
    role: CharacterKPIType,
    pid: i16,
    c: KPIComponent,
) -> int {
    let pi = spec_player_pi_sum(all, role, pid);
    if pi < 1 {
        0
    } else {
        crate::fx::spec_fx_div(spec_player_wsum(all, all, role, pid, c), pi)
    }
}

/// The unsorted distribution of a role and component: one value per
/// distinct eligible player.
pub open spec fn spec_distribution(
    all: Seq<GlobalEntry>,
    role: CharacterKPIType,
    c: KPIComponent,
) -> Seq<i64> {
    Seq::new(
        spec_dist_pids(all, role).len(),
        |i: int| spec_player_avg(all, role, spec_dist_pids(all, role)[i], c) as i64,
    )
}

/// Insert a value into a sorted sequence, keeping it sorted.
pub open spec fn spec_insert_sorted(s: Seq<i64>, v: i64) -> Seq<i64>
    decreases s.len(),
{
    if s.len() == 0 {
        seq![v]
    } else if v >= s.last() {
        s.push(v)
    } else {
        spec_insert_sorted(s.drop_last(), v).push(s.last())
    }
}

/// Sort a sequence ascending by repeated insertion.
pub open spec fn spec_sort(s: Seq<i64>) -> Seq<i64>
    decreases s.len(),
{
    if s.len() == 0 {
        Seq::empty()
    } else {
        spec_insert_sorted(spec_sort(s.drop_last()), s.last())
    }
}

/// Insertion keeps length plus one.
pub proof fn lemma_insert_sorted_len(s: Seq<i64>, v: i64)
    ensures
        spec_insert_sorted(s, v).len() == s.len() + 1,
    decreases s.len(),
{
    if s.len() > 0 && !(v >= s.last()) {
        lemma_insert_sorted_len(s.drop_last(), v);
    }
}

/// Sorting keeps the length.
pub proof fn lemma_sort_len(s: Seq<i64>)
    ensures
        spec_sort(s).len() == s.len(),
    decreases s.len(),
{
    if s.len() > 0 {
        lemma_sort_len(s.drop_last());
        lemma_insert_sorted_len(spec_sort(s.drop_last()), s.last());
    }
}

/// Ascending order of a sequence.
pub open spec fn spec_sorted(s: Seq<i64>) -> bool {
    forall|i: int, j: int| 0 <= i <= j < s.len() ==> s[i] <= s[j]
}

/// Inserting into a sorted sequence keeps it sorted.
pub proof fn lemma_insert_sorted_sorted(s: Seq<i64>, v: i64)
    requires
        spec_sorted(s),
    ensures
        spec_sorted(spec_insert_sorted(s, v)),
    decreases s.len(),
{
    if s.len() == 0 {
    } else if v >= s.last() {
        let r = s.push(v);
        assert forall|i: int, j: int| 0 <= i <= j < r.len() implies r[i] <= r[j] by {
            if j == r.len() - 1 {
                if i < j {
                    assert(s[i] <= s[s.len() - 1]);
                }
            }
        }
    } else {
        assert(spec_sorted(s.drop_last()));
        lemma_insert_sorted_sorted(s.drop_last(), v);
        lemma_insert_sorted_len(s.drop_last(), v);
        let inner = spec_insert_sorted(s.drop_last(), v);
        let r = inner.push(s.last());
        lemma_insert_sorted_le(s.drop_last(), v, s.last());
        assert forall|i: int, j: int| 0 <= i <= j < r.len() implies r[i] <= r[j] by {
            if j == r.len() - 1 {
                if i < j {
                    assert(inner[i] <= s.last());
                }
            }
        }
    }
}

/// Every element of an insertion into a sorted sequence is bounded by any
/// bound on the sequence and the inserted value.
proof fn lemma_insert_sorted_le(s: Seq<i64>, v: i64, bound: i64)
    requires
        forall|i: int| 0 <= i < s.len() ==> s[i] <= bound,
        v <= bound,
    ensures
        forall|i: int|
            0 <= i < spec_insert_sorted(s, v).len() ==> spec_insert_sorted(s, v)[i] <= bound,
    decreases s.len(),
{
    lemma_insert_sorted_len(s, v);
    if s.len() == 0 {
    } else if v >= s.last() {
    } else {
        assert(forall|i: int| 0 <= i < s.drop_last().len() ==> s.drop_last()[i] <= bound);
        lemma_insert_sorted_le(s.drop_last(), v, bound);
        lemma_insert_sorted_len(s.drop_last(), v);
    }
}

/// The sorted form of any sequence is ascending.
pub proof fn lemma_sort_sorted(s: Seq<i64>)
    ensures
        spec_sorted(spec_sort(s)),
    decreases s.len(),
{
    if s.len() > 0 {
        lemma_sort_sorted(s.drop_last());
        lemma_insert_sorted_sorted(spec_sort(s.drop_last()), s.last());
    }
}

/// Insert into a sorted vector.
fn insert_sorted(s: Vec<i64>, v: i64) -> (r: Vec<i64>)
    ensures
        r@ == spec_insert_sorted(s@, v),
    decreases s@.len(),
{
    let mut s = s;
    let ghost s0 = s@;
    match s.pop() {
        None => {
            s.push(v);
            proof {
                assert(s@ =~= seq![v]);
            }
            s
        },
        Some(last) => {
            if v >= last {
                s.push(last);
                s.push(v);
                proof {
                    assert(s@ =~= s0.push(v));
                }
                s
            } else {
                let mut r = insert_sorted(s, v);
                r.push(last);
                r
            }
        },
    }
}

/// Sort a vector ascending.
fn sort_vec(s: &Vec<i64>) -> (r: Vec<i64>)
    ensures
        r@ == spec_sort(s@),
{
    let n = s.len();
    let mut acc: Vec<i64> = Vec::new();
    let mut i: usize = 0;
    while i < n
        invariant
            n == s@.len(),
            0 <= i <= n,
            acc@ == spec_sort(s@.take(i as int)),
        decreases n - i,
    {
        proof {
            assert(s@.take(i as int + 1).drop_last() =~= s@.take(i as int));
            assert(s@.take(i as int + 1).last() == s@[i as int]);
        }
        acc = insert_sorted(acc, s[i]);
        i += 1;
    }
    proof {
        assert(s@.take(n as int) =~= s@);
    }
    acc
}

// ---------------------------------------------------------------------------
// Segments
// ---------------------------------------------------------------------------
/// One derived percentile segment over a sorted distribution.
pub open spec fn spec_segment(sorted: Seq<i64>, rc: crate::types::IndexTransformRangeConfig) -> crate::types::IndexTransformRange {
    let len = sorted.len() as int;
    let b = (len * rc.rank_range.0 as int) / (FX_SCALE as int);
    let e = (len * rc.rank_range.1 as int) / (FX_SCALE as int);
    let smin: int = if b == 0 {
        0
    } else {
        sorted[b] as int
    };
    let smax: int = if e < len {
        sorted[e] as int
    } else {
        FX_SCALE as int
    };
    let tmin = rc.transform_range.0 as int;
    let tmax = rc.transform_range.1 as int;
    let delta = smax - smin;
    let a: int = if delta <= 0 {
        0
    } else {
        spec_clamp(((tmax - tmin) * FX_SCALE as int) / delta)
    };
    let bb: int = if delta <= 0 {
        (tmin + tmax) / 2
    } else {
        spec_clamp(tmin - spec_clamp((a * smin) / (FX_SCALE as int)))
    };
    crate::types::IndexTransformRange {
        rank_range: rc.rank_range,
        source_range: (smin as i64, smax as i64),
        transform_range: rc.transform_range,
        transform_coefficient: (a as i64, bb as i64),
        player_count: spec_clamp_i32(e - b) as i32,
    }
}

/// Clamp into the `i32` range.
pub open spec fn spec_clamp_i32(v: int) -> int {
    if v > i32::MAX as int {
        i32::MAX as int
    } else if v < i32::MIN as int {
        i32::MIN as int
    } else {
        v
    }
}

// ---------------------------------------------------------------------------
// Stage executables
// ---------------------------------------------------------------------------
/// Every quantity of every entry is non-negative.
pub open spec fn spec_entries_nonneg(entries: Seq<GlobalEntry>) -> bool {
    forall|i: int|
        0 <= i < entries.len() ==> {
            let e = #[trigger] entries[i];
            e.player_index >= 0 && e.damage >= 0 && e.priority >= 0 && e.kill >= 0 && e.nitra >= 0
                && e.resource >= 0 && e.raw_damage >= 0 && e.raw_priority >= 0 && e.raw_kill >= 0
                && e.raw_nitra >= 0 && e.raw_minerals >= 0
        }
}

proof fn lemma_role_pi_sum_nonneg(entries: Seq<GlobalEntry>, role: CharacterKPIType)
    requires
        spec_entries_nonneg(entries),
    ensures
        0 <= spec_role_pi_sum(entries, role) <= i64::MAX as int,
    decreases entries.len(),
{
    if entries.len() > 0 {
        assert(spec_entries_nonneg(entries.drop_last()));
        lemma_role_pi_sum_nonneg(entries.drop_last(), role);
    }
}

proof fn lemma_role_comp_sum_nonneg(entries: Seq<GlobalEntry>, role: CharacterKPIType, c: KPIComponent)
    requires
        spec_entries_nonneg(entries),
    ensures
        0 <= spec_role_comp_sum(entries, role, c) <= i64::MAX as int,
    decreases entries.len(),
{
    if entries.len() > 0 {
        assert(spec_entries_nonneg(entries.drop_last()));
        lemma_role_comp_sum_nonneg(entries.drop_last(), role, c);
    }
}

/// The factor of any role is non-negative.
pub proof fn lemma_factor_nonneg(entries: Seq<GlobalEntry>, role: CharacterKPIType, c: KPIComponent)
    requires
        spec_entries_nonneg(entries),
    ensures
        0 <= spec_factor(entries, role, c) <= i64::MAX as int,
{
    lemma_role_pi_sum_nonneg(entries, role);
    lemma_role_comp_sum_nonneg(entries, role, c);
}

proof fn lemma_msum_nonneg(all: Seq<GlobalEntry>, sub: Seq<GlobalEntry>, mid: i32, c: KPIComponent)
    requires
        spec_entries_nonneg(all),
    ensures
        0 <= spec_msum(all, sub, mid, c) <= i64::MAX as int,
    decreases sub.len(),
{
    if sub.len() > 0 {
        lemma_msum_nonneg(all, sub.drop_last(), mid, c);
        lemma_factor_nonneg(all, sub.last().role, c);
    }
}

/// The corrected index of any entry is non-negative.
pub proof fn lemma_ci_nonneg(all: Seq<GlobalEntry>, e: GlobalEntry, c: KPIComponent)
    requires
        spec_entries_nonneg(all),
        spec_raw_field(e, c) >= 0,
    ensures
        0 <= spec_ci(all, e, c) <= i64::MAX as int,
{
    if spec_ssum(all, c) >= 1 {
        lemma_msum_nonneg(all, all, e.mission_id, c);
        assert((spec_raw_field(e, c) as int * spec_msum(all, all, e.mission_id, c)) / spec_ssum(
            all,
            c,
        ) >= 0) by (nonlinear_arith)
            requires
                spec_raw_field(e, c) >= 0,
                spec_msum(all, all, e.mission_id, c) >= 0,
                spec_ssum(all, c) >= 1,
        ;
    }
}

fn role_pi_sum_exec(entries: &Vec<GlobalEntry>, role: CharacterKPIType) -> (r: i64)
    ensures
        r as int == spec_role_pi_sum(entries@, role),
{
    let n = entries.len();
    let mut acc: i64 = 0;
    let mut i: usize = 0;
    while i < n
        invariant
            n == entries@.len(),
            0 <= i <= n,
            acc as int == spec_role_pi_sum(entries@.take(i as int), role),
        decreases n - i,
    {
        proof {
            assert(entries@.take(i as int + 1).drop_last() =~= entries@.take(i as int));
            assert(entries@.take(i as int + 1).last() == entries@[i as int]);
        }
        let e = &entries[i];
        if e.role.key_eq(&role) {
            acc = sat_add(acc, e.player_index);
        }
        i += 1;
    }
    proof {
        assert(entries@.take(n as int) =~= entries@);
    }
    acc
}

/// The stage-one quantity of an entry.
fn stage_field_exec(e: &GlobalEntry, c: KPIComponent) -> (r: i64)
    ensures
        r == spec_stage_field(*e, c),
{
    match c {
        KPIComponent::Damage => e.damage,
        KPIComponent::Priority => e.priority,
        KPIComponent::Kill => e.kill,
        KPIComponent::Nitra => e.nitra,
        KPIComponent::Minerals => e.resource,
        _ => 0,
    }
}

/// The raw index of an entry.
fn raw_field_exec(e: &GlobalEntry, c: KPIComponent) -> (r: i64)
    ensures
        r == spec_raw_field(*e, c),
{
    match c {
        KPIComponent::Damage => e.raw_damage,
        KPIComponent::Priority => e.raw_priority,
        KPIComponent::Kill => e.raw_kill,
        KPIComponent::Nitra => e.raw_nitra,
        KPIComponent::Minerals => e.raw_minerals,
        _ => 0,
    }
}

fn role_comp_sum_exec(entries: &Vec<GlobalEntry>, role: CharacterKPIType, c: KPIComponent) -> (r:
    i64)
    ensures
        r as int == spec_role_comp_sum(entries@, role, c),
{
    let n = entries.len();
    let mut acc: i64 = 0;
    let mut i: usize = 0;
    while i < n
        invariant
            n == entries@.len(),
            0 <= i <= n,
            acc as int == spec_role_comp_sum(entries@.take(i as int), role, c),
        decreases n - i,
    {
        proof {
            assert(entries@.take(i as int + 1).drop_last() =~= entries@.take(i as int));
            assert(entries@.take(i as int + 1).last() == entries@[i as int]);
        }
        let e = &entries[i];
        if e.role.key_eq(&role) {
            let f = stage_field_exec(e, c);
            acc = sat_add(acc, f);
        }
        i += 1;
    }
    proof {
        assert(entries@.take(n as int) =~= entries@);
    }
    acc
}

fn role_present_exec(entries: &Vec<GlobalEntry>, role: CharacterKPIType) -> (r: bool)
    ensures
        r == spec_role_present(entries@, role),
{
    let n = entries.len();
    let mut i: usize = 0;
    while i < n
        invariant
            n == entries@.len(),
            0 <= i <= n,
            forall|m: int| 0 <= m < i ==> (#[trigger] entries@[m]).role != role,
        decreases n - i,
    {
        if entries[i].role.key_eq(&role) {
            assert(entries@[i as int].role == role);
            return true;
        }
        i += 1;
    }
    proof {
        if spec_role_present(entries@, role) {
            let m = choose|m: int| 0 <= m < entries@.len() && (#[trigger] entries@[m]).role == role;
        }
    }
    false
}

fn role_avg_exec(entries: &Vec<GlobalEntry>, role: CharacterKPIType, c: KPIComponent) -> (r: i64)
    requires
        spec_entries_nonneg(entries@),
    ensures
        r as int == spec_role_avg(entries@, role, c),
        r >= 0,
{
    let pi = role_pi_sum_exec(entries, role);
    proof {
        lemma_role_pi_sum_nonneg(entries@, role);
        lemma_role_comp_sum_nonneg(entries@, role, c);
    }
    if pi < 1 {
        0
    } else {
        let s = role_comp_sum_exec(entries, role, c);
        crate::fx::fx_div(s, pi)
    }
}

/// The five roles, in order.
fn all_roles_vec() -> (r: Vec<CharacterKPIType>)
    ensures
        r@ == spec_all_roles(),
{
    let mut v: Vec<CharacterKPIType> = Vec::new();
    v.push(CharacterKPIType::Driller);
    v.push(CharacterKPIType::Engineer);
    v.push(CharacterKPIType::Gunner);
    v.push(CharacterKPIType::Scout);
    v.push(CharacterKPIType::ScoutSpecial);
    proof {
        assert(v@ =~= spec_all_roles());
    }
    v
}

fn min_avg_exec(entries: &Vec<GlobalEntry>, c: KPIComponent) -> (r: i64)
    requires
        spec_entries_nonneg(entries@),
    ensures
        r as int == spec_min_avg(entries@, c),
{
    let roles = all_roles_vec();
    let mut min: i64 = -1;
    let mut i: usize = 0;
    while i < 5
        invariant
            spec_entries_nonneg(entries@),
            roles@ == spec_all_roles(),
            0 <= i <= 5,
            min as int == spec_min_over(entries@, c, spec_all_roles().take(i as int)),
        decreases 5 - i,
    {
        proof {
            assert(spec_all_roles().take(i as int + 1).drop_last() =~= spec_all_roles().take(
                i as int,
            ));
            assert(spec_all_roles().take(i as int + 1).last() == spec_all_roles()[i as int]);
        }
        let role = roles[i];
        if role_present_exec(entries, role) {
            let a = role_avg_exec(entries, role, c);
            if min < 0 || a < min {
                min = a;
            }
        }
        i += 1;
    }
    proof {
        assert(spec_all_roles().take(5) =~= spec_all_roles());
    }
    min
}

fn factor_exec(entries: &Vec<GlobalEntry>, role: CharacterKPIType, c: KPIComponent) -> (r: i64)
    requires
        spec_entries_nonneg(entries@),
    ensures
        r as int == spec_factor(entries@, role, c),
        r >= 0,
{
    let min = min_avg_exec(entries, c);
    proof {
        lemma_factor_nonneg(entries@, role, c);
    }
    if min < 1 {
        FX_SCALE
    } else {
        let avg = role_avg_exec(entries, role, c);
        crate::fx::fx_div(avg, min)
    }
}

fn ssum_exec(entries: &Vec<GlobalEntry>, c: KPIComponent) -> (r: i64)
    requires
        spec_entries_nonneg(entries@),
    ensures
        r as int == spec_ssum(entries@, c),
{
    let f1 = factor_exec(entries, CharacterKPIType::Driller, c);
    let f2 = factor_exec(entries, CharacterKPIType::Engineer, c);
    let f3 = factor_exec(entries, CharacterKPIType::Gunner, c);
    let f4 = factor_exec(entries, CharacterKPIType::Scout, c);
    sat_add(sat_add(sat_add(f1, f2), f3), f4)
}

fn msum_exec(entries: &Vec<GlobalEntry>, mid: i32, c: KPIComponent) -> (r: i64)
    requires
        spec_entries_nonneg(entries@),
    ensures
        r as int == spec_msum(entries@, entries@, mid, c),
        r >= 0,
{
    let n = entries.len();
    let mut acc: i64 = 0;
    let mut i: usize = 0;
    while i < n
        invariant
            spec_entries_nonneg(entries@),
            n == entries@.len(),
            0 <= i <= n,
            acc as int == spec_msum(entries@, entries@.take(i as int), mid, c),
            acc >= 0,
        decreases n - i,
    {
        proof {
            assert(entries@.take(i as int + 1).drop_last() =~= entries@.take(i as int));
            assert(entries@.take(i as int + 1).last() == entries@[i as int]);
        }
        if entries[i].mission_id == mid {
            let f = factor_exec(entries, entries[i].role, c);
            acc = sat_add(acc, f);
        }
        i += 1;
    }
    proof {
        assert(entries@.take(n as int) =~= entries@);
    }
    acc
}

/// The corrected index of the entry at `idx`.
fn ci_exec(entries: &Vec<GlobalEntry>, idx: usize, c: KPIComponent) -> (r: i64)
    requires
        spec_entries_nonneg(entries@),
        idx < entries@.len(),
    ensures
        r as int == spec_ci(entries@, entries@[idx as int], c),
        r >= 0,
{
    let e = entries[idx];
    let ssum = ssum_exec(entries, c);
    if ssum < 1 {
        0
    } else {
        let msum = msum_exec(entries, e.mission_id, c);
        let raw = raw_field_exec(&e, c);
        proof {
            assert(raw >= 0);
            assert(0 <= raw as int * msum as int <= i64::MAX as int * i64::MAX as int)
                by (nonlinear_arith)
                requires 0 <= raw <= i64::MAX && 0 <= msum <= i64::MAX;
            assert(0 <= (raw as int * msum as int) / (ssum as int) <= raw as int * msum as int)
                by (nonlinear_arith)
                requires raw as int * msum as int >= 0 && ssum >= 1;
        }
        let wide: i128 = (raw as i128 * msum as i128) / (ssum as i128);
        if wide > i64::MAX as i128 {
            i64::MAX
        } else {
            wide as i64
        }
    }
}

// ---------------------------------------------------------------------------
// Flattening, distributions, segments: executables
// ---------------------------------------------------------------------------
/// What the engine assumes of each KPI snapshot it reads: well-formed maps,
/// and non-negative raw indexes for the five correctable components.
pub open spec fn spec_kpi_snapshot_wf(k: MissionKPICachedInfo) -> bool {
    &&& k.raw_kpi_data.wf()
    &&& forall|pid: i16|
        match #[trigger] k.raw_kpi_data.spec_get(pid) {
            Some(cm) => cm.wf() && forall|c: KPIComponent|
                match #[trigger] cm.spec_get(c) {
                    Some(d) => spec_is_correction_comp(c) ==> d.raw_index >= 0,
                    None => true,
                },
            None => true,
        }
}

proof fn lemma_kill_sum_nonneg(vals: Seq<crate::types::KillPack>)
    requires
        forall|i: int| 0 <= i < vals.len() ==> (#[trigger] vals[i]).total_amount >= 0,
    ensures
        0 <= spec_kill_sum(vals) <= i64::MAX as int,
    decreases vals.len(),
{
    if vals.len() > 0 {
        lemma_kill_sum_nonneg(vals.drop_last());
        assert(vals.last().total_amount as int * FX_SCALE as int >= 0) by (nonlinear_arith)
            requires vals.last().total_amount >= 0;
    }
}

proof fn lemma_dmg_sum_nonneg(vals: Seq<DamagePack>)
    requires
        forall|i: int| 0 <= i < vals.len() ==> (#[trigger] vals[i]).total_amount >= 0,
    ensures
        0 <= spec_dmg_sum(vals) <= i64::MAX as int,
    decreases vals.len(),
{
    if vals.len() > 0 {
        lemma_dmg_sum_nonneg(vals.drop_last());
    }
}

proof fn lemma_priority_sum_nonneg(keys: Seq<Seq<char>>, vals: Seq<DamagePack>, ptab: KMap<String, i64>)
    requires
        forall|i: int| 0 <= i < vals.len() ==> (#[trigger] vals[i]).total_amount >= 0,
        ptab.wf(),
        crate::types::nonneg_vals(ptab),
    ensures
        0 <= spec_priority_sum(keys, vals, ptab) <= i64::MAX as int,
    decreases vals.len(),
{
    if vals.len() > 0 && keys.len() == vals.len() {
        lemma_priority_sum_nonneg(keys.drop_last(), vals.drop_last(), ptab);
        let w = ptab.spec_get(keys.last());
        if w is Some {
            ptab.lemma_get_is_contains(keys.last());
            let m = choose|m: int|
                0 <= m < ptab.spec_len() && ptab.key_seq()[m] == keys.last() && ptab.spec_get(
                    keys.last(),
                ) == Some(ptab.val_seq()[m]);
            assert(ptab.val_seq()[m] >= 0);
        }
        assert(spec_weighted_val(vals.last().total_amount, w) >= 0);
    }
}

proof fn lemma_val_sum_nonneg(vals: Seq<i64>)
    requires
        forall|i: int| 0 <= i < vals.len() ==> (#[trigger] vals[i]) >= 0,
    ensures
        0 <= spec_val_sum(vals) <= i64::MAX as int,
    decreases vals.len(),
{
    if vals.len() > 0 {
        lemma_val_sum_nonneg(vals.drop_last());
    }
}

/// Build one flattened entry; fail exactly when the row cannot be used.
fn entry_of_exec(
    m: &MissionCachedInfo,
    k: &MissionKPICachedInfo,
    row: &PlayerInfo,
    chars: &KMap<i16, String>,
    names: &KMap<i16, String>,
    allow: &StrSet,
    ptab: &KMap<String, i64>,
) -> (r: Result<GlobalEntry, String>)
    requires
        crate::mission_cache::spec_summary_wf(*m),
        spec_kpi_snapshot_wf(*k),
        chars.wf(),
        names.wf(),
        allow.wf(),
        ptab.wf(),
        crate::types::nonneg_vals(*ptab),
    ensures
        match r {
            Ok(e) => e == spec_entry_of(*m, *k, *chars, *names, *allow, *ptab, *row)
                && !spec_g_row_missing(*m, *k, *chars, *names, *row) && e.player_index >= 0
                && e.damage >= 0 && e.priority >= 0 && e.kill >= 0 && e.nitra >= 0 && e.resource
                >= 0 && e.raw_damage >= 0 && e.raw_priority >= 0 && e.raw_kill >= 0 && e.raw_nitra
                >= 0 && e.raw_minerals >= 0,
            Err(_) => spec_g_row_missing(*m, *k, *chars, *names, *row),
        },
{
    let pid = row.player_id;
    let pname = match names.get(&pid) {
        Some(n) => n,
        None => {
            return Err("player row references an unknown player id".to_owned());
        },
    };
    let cname = match chars.get(&row.character_id) {
        Some(n) => n,
        None => {
            return Err("player row references an unknown character id".to_owned());
        },
    };
    let known = crate::text::str_eq(cname.as_str(), "DRILLER") || crate::text::str_eq(
        cname.as_str(),
        "ENGINEER",
    ) || crate::text::str_eq(cname.as_str(), "GUNNER") || crate::text::str_eq(
        cname.as_str(),
        "SCOUT",
    );
    if !known {
        return Err("player row carries an unknown character".to_owned());
    }
    let role = crate::types::CharacterKPIType::from_player(cname.as_str(), pname.as_str(), allow);
    let pi: i64 = match m.player_index.get(&pid) {
        Some(v) => *v,
        None => {
            return Err("player has no presence ratio in the summary".to_owned());
        },
    };
    proof {
        assert(m.player_index.spec_get(pid) == Some(pi));
    }
    let (damage, priority): (i64, i64) = match m.damage_info.get(&pid) {
        Some(inner) => {
            proof {
                assert forall|t: int|
                    0 <= t < inner.val_seq().len() implies (
                #[trigger] inner.val_seq()[t]).total_amount >= 0 by {
                    inner.lemma_get_at_index(t);
                }
                lemma_dmg_sum_nonneg(inner.val_seq());
                lemma_priority_sum_nonneg(inner.key_seq(), inner.val_seq(), *ptab);
            }
            (dmg_sum_of(inner), priority_sum_of(inner, ptab))
        },
        None => (0, 0),
    };
    let kill: i64 = match m.kill_info.get(&pid) {
        Some(inner) => {
            proof {
                assert forall|t: int|
                    0 <= t < inner.val_seq().len() implies (
                #[trigger] inner.val_seq()[t]).total_amount >= 0 by {
                    inner.lemma_get_at_index(t);
                }
                lemma_kill_sum_nonneg(inner.val_seq());
            }
            kill_sum_of(inner)
        },
        None => 0,
    };
    let nitra_key: String = "RES_VEIN_Nitra".to_owned();
    let (nitra, resource): (i64, i64) = match m.resource_info.get(&pid) {
        Some(inner) => {
            proof {
                assert forall|t: int|
                    0 <= t < inner.val_seq().len() implies (#[trigger] inner.val_seq()[t]) >= 0 by {
                    inner.lemma_get_at_index(t);
                }
                lemma_val_sum_nonneg(inner.val_seq());
                if inner.spec_get(nitra_key@) is Some {
                    inner.lemma_get_is_contains(nitra_key@);
                    let t = choose|t: int|
                        0 <= t < inner.spec_len() && inner.key_seq()[t] == nitra_key@
                            && inner.spec_get(nitra_key@) == Some(inner.val_seq()[t]);
                }
            }
            let nv = match inner.get(&nitra_key) {
                Some(v) => *v,
                None => 0,
            };
            (nv, val_sum_of(inner))
        },
        None => (0, 0),
    };
    let cm = match k.raw_kpi_data.get(&pid) {
        Some(cm) => cm,
        None => {
            return Err("player has no KPI record".to_owned());
        },
    };
    let raw_damage = match cm.get(&KPIComponent::Damage) {
        Some(d) => d.raw_index,
        None => {
            return Err("player KPI record lacks the damage component".to_owned());
        },
    };
    let raw_priority = match cm.get(&KPIComponent::Priority) {
        Some(d) => d.raw_index,
        None => {
            return Err("player KPI record lacks the priority component".to_owned());
        },
    };
    let raw_kill = match cm.get(&KPIComponent::Kill) {
        Some(d) => d.raw_index,
        None => {
            return Err("player KPI record lacks the kill component".to_owned());
        },
    };
    let raw_nitra = match cm.get(&KPIComponent::Nitra) {
        Some(d) => d.raw_index,
        None => {
            return Err("player KPI record lacks the nitra component".to_owned());
        },
    };
    let raw_minerals = match cm.get(&KPIComponent::Minerals) {
        Some(d) => d.raw_index,
        None => {
            return Err("player KPI record lacks the minerals component".to_owned());
        },
    };
    Ok(
        GlobalEntry {
            mission_id: m.mission_info.id,
            player_id: pid,
            role,
            player_index: pi,
            damage,
            priority,
            kill,
            nitra,
            resource,
            raw_damage,
            raw_priority,
            raw_kill,
            raw_nitra,
            raw_minerals,
        },
    )
}

proof fn lemma_player_wsum_nonneg(
    all: Seq<GlobalEntry>,
    sub: Seq<GlobalEntry>,
    role: CharacterKPIType,
    pid: i16,
    c: KPIComponent,
)
    requires
        spec_entries_nonneg(all),
        forall|i: int| 0 <= i < sub.len() ==> (#[trigger] sub[i]).player_index >= 0,
        forall|i: int| 0 <= i < sub.len() ==> spec_raw_field(#[trigger] sub[i], c) >= 0,
    ensures
        0 <= spec_player_wsum(all, sub, role, pid, c) <= i64::MAX as int,
    decreases sub.len(),
{
    if sub.len() > 0 {
        lemma_player_wsum_nonneg(all, sub.drop_last(), role, pid, c);
        lemma_ci_nonneg(all, sub.last(), c);
    }
}

proof fn lemma_player_pi_sum_nonneg(entries: Seq<GlobalEntry>, role: CharacterKPIType, pid: i16)
    requires
        spec_entries_nonneg(entries),
    ensures
        0 <= spec_player_pi_sum(entries, role, pid) <= i64::MAX as int,
    decreases entries.len(),
{
    if entries.len() > 0 {
        assert(spec_entries_nonneg(entries.drop_last()));
        lemma_player_pi_sum_nonneg(entries.drop_last(), role, pid);
    }
}

/// One eligible player's average corrected index.
fn player_avg_exec(entries: &Vec<GlobalEntry>, role: CharacterKPIType, pid: i16, c: KPIComponent) -> (r: i64)
    requires
        spec_entries_nonneg(entries@),
    ensures
        r as int == spec_player_avg(entries@, role, pid, c),
        r >= 0,
{
    let n = entries.len();
    let mut pi_sum: i64 = 0;
    let mut wsum: i64 = 0;
    let mut i: usize = 0;
    while i < n
        invariant
            spec_entries_nonneg(entries@),
            n == entries@.len(),
            0 <= i <= n,
            pi_sum as int == spec_player_pi_sum(entries@.take(i as int), role, pid),
            wsum as int == spec_player_wsum(entries@, entries@.take(i as int), role, pid, c),
            pi_sum >= 0,
            wsum >= 0,
        decreases n - i,
    {
        proof {
            assert(entries@.take(i as int + 1).drop_last() =~= entries@.take(i as int));
            assert(entries@.take(i as int + 1).last() == entries@[i as int]);
        }
        let e = &entries[i];
        if e.role.key_eq(&role) && e.player_id == pid && e.player_index
            >= crate::KPI_CALCULATION_PLAYER_INDEX {
            let ci = ci_exec(entries, i, c);
            let weighted = crate::fx::fx_mul(e.player_index, ci);
            pi_sum = sat_add(pi_sum, e.player_index);
            wsum = sat_add(wsum, weighted);
        }
        i += 1;
    }
    proof {
        assert(entries@.take(n as int) =~= entries@);
    }
    if pi_sum < 1 {
        0
    } else {
        crate::fx::fx_div(wsum, pi_sum)
    }
}

/// The distinct eligible players of a role, in first-occurrence order.
fn dist_pids_exec(entries: &Vec<GlobalEntry>, role: CharacterKPIType) -> (r: Vec<i16>)
    ensures
        r@ == spec_dist_pids(entries@, role),
{
    let n = entries.len();
    let mut pids: Vec<i16> = Vec::new();
    let mut i: usize = 0;
    while i < n
        invariant
            n == entries@.len(),
            0 <= i <= n,
            pids@ == spec_dist_pids(entries@.take(i as int), role),
        decreases n - i,
    {
        proof {
            assert(entries@.take(i as int + 1).drop_last() =~= entries@.take(i as int));
            assert(entries@.take(i as int + 1).last() == entries@[i as int]);
        }
        let e = &entries[i];
        if e.role.key_eq(&role) && e.player_index >= crate::KPI_CALCULATION_PLAYER_INDEX {
            crate::mission_cache::distinct_push(&mut pids, e.player_id);
        }
        i += 1;
    }
    proof {
        assert(entries@.take(n as int) =~= entries@);
    }
    pids
}

/// The distribution of a role and component, in player order.
fn distribution_exec(entries: &Vec<GlobalEntry>, role: CharacterKPIType, c: KPIComponent) -> (r:
    Vec<i64>)
    requires
        spec_entries_nonneg(entries@),
    ensures
        r@ == spec_distribution(entries@, role, c),
        forall|i: int| 0 <= i < r@.len() ==> (#[trigger] r@[i]) >= 0,
{
    let pids = dist_pids_exec(entries, role);
    let n = pids.len();
    let mut out: Vec<i64> = Vec::new();
    let mut i: usize = 0;
    while i < n
        invariant
            spec_entries_nonneg(entries@),
            pids@ == spec_dist_pids(entries@, role),
            n == pids@.len(),
            0 <= i <= n,
            out@.len() == i,
            forall|m: int|
                0 <= m < i ==> (#[trigger] out@[m]) as int == spec_player_avg(
                    entries@,
                    role,
                    pids@[m],
                    c,
                ),
            forall|m: int| 0 <= m < i ==> (#[trigger] out@[m]) >= 0,
        decreases n - i,
    {
        let v = player_avg_exec(entries, role, pids[i], c);
        out.push(v);
        i += 1;
    }
    proof {
        assert(out@ =~= spec_distribution(entries@, role, c));
    }
    out
}

/// Derive one percentile segment over the sorted distribution.
fn segment_exec(sorted: &Vec<i64>, rc: &crate::types::IndexTransformRangeConfig) -> (r:
    crate::types::IndexTransformRange)
    requires
        0 <= rc.rank_range.0 < crate::FX_SCALE,
        rc.rank_range.0 <= rc.rank_range.1 <= crate::FX_SCALE,
        0 <= rc.transform_range.0 <= rc.transform_range.1,
        forall|i: int| 0 <= i < sorted@.len() ==> (#[trigger] sorted@[i]) >= 0,
    ensures
        r == spec_segment(sorted@, *rc),
{
    let len = sorted.len();
    proof {
        assert(0 <= len as int * rc.rank_range.0 as int <= len as int * (FX_SCALE as int)
            && 0 <= len as int * rc.rank_range.1 as int <= len as int * (FX_SCALE as int))
            by (nonlinear_arith)
            requires
                0 <= rc.rank_range.0 <= FX_SCALE,
                0 <= rc.rank_range.1 <= FX_SCALE,
                len as int >= 0,
        ;
        assert(len as int * (FX_SCALE as int) < i128::MAX as int) by (nonlinear_arith)
            requires 0 <= len as int <= usize::MAX as int && FX_SCALE == 1_000_000;
        if len >= 1 {
            assert((len as int * rc.rank_range.0 as int) / (FX_SCALE as int) < len as int)
                by (nonlinear_arith)
                requires 0 <= rc.rank_range.0 < FX_SCALE && len as int >= 1 && FX_SCALE
                    == 1_000_000;
        }
        assert((len as int * rc.rank_range.0 as int) / (FX_SCALE as int) <= (len as int
            * rc.rank_range.1 as int) / (FX_SCALE as int)) by (nonlinear_arith)
            requires
                0 <= rc.rank_range.0 <= rc.rank_range.1,
                len as int >= 0,
                FX_SCALE == 1_000_000,
        ;
        assert((len as int * rc.rank_range.0 as int) / (FX_SCALE as int) >= 0
            && (len as int * rc.rank_range.1 as int) / (FX_SCALE as int) >= 0)
            by (nonlinear_arith)
            requires 0 <= rc.rank_range.0 && 0 <= rc.rank_range.1 && len as int >= 0 && FX_SCALE == 1_000_000;
    }
    let b_wide: i128 = (len as i128 * rc.rank_range.0 as i128) / (FX_SCALE as i128);
    let e_wide: i128 = (len as i128 * rc.rank_range.1 as i128) / (FX_SCALE as i128);
    let b: usize = b_wide as usize;
    let smin: i64 = if b == 0 {
        0
    } else {
        proof {
            assert(b_wide < len as i128);
        }
        sorted[b]
    };
    let smax: i64 = if e_wide < len as i128 {
        sorted[e_wide as usize]
    } else {
        crate::FX_SCALE
    };
    let tmin = rc.transform_range.0;
    let tmax = rc.transform_range.1;
    let delta: i64 = crate::fx::sat_sub(smax, smin);
    proof {
        assert(spec_clamp(smax as int - smin as int) <= 0 <==> smax as int - smin as int <= 0);
    }
    let (a, bb): (i64, i64) = if delta <= 0 {
        let mid_wide: i128 = (tmin as i128 + tmax as i128) / 2;
        proof {
            assert(0 <= (tmin as int + tmax as int) / 2 <= tmax as int) by (nonlinear_arith)
                requires 0 <= tmin <= tmax;
        }
        (0, mid_wide as i64)
    } else {
        let a = crate::fx::fx_div(crate::fx::sat_sub(tmax, tmin), delta);
        proof {
            assert(spec_clamp(tmax as int - tmin as int) == tmax as int - tmin as int);
        }
        let bb = crate::fx::sat_sub(tmin, crate::fx::fx_mul(a, smin));
        (a, bb)
    };
    let count_wide: i128 = e_wide - b_wide;
    let player_count: i32 = if count_wide > i32::MAX as i128 {
        i32::MAX
    } else {
        count_wide as i32
    };
    crate::types::IndexTransformRange {
        rank_range: rc.rank_range,
        source_range: (smin, smax),
        transform_range: rc.transform_range,
        transform_coefficient: (a, bb),
        player_count,
    }
}

// ---------------------------------------------------------------------------
// The global state
// ---------------------------------------------------------------------------
/// One role/component correction record: the role's presence weight, its
/// average value, and the derived factor.
#[derive(Clone, Copy, PartialEq, Eq, Structural, Debug)]
pub struct CorrectionFactorInfo {
    pub player_index: i64,
    pub value: i64,
    pub correction_factor: i64,
}

/// The process-wide correction state, regenerated wholesale.
pub struct CachedGlobalKPIState {
    pub character_correction_factor: KMap<CharacterKPIType, KMap<KPIComponent, CorrectionFactorInfo>>,
    pub standard_correction_sum: KMap<KPIComponent, i64>,
    pub transform_range: KMap<CharacterKPIType, KMap<KPIComponent, Vec<crate::types::IndexTransformRange>>>,
}

/// Some mission is not flagged invalid.
pub open spec fn spec_valid_present(missions: Seq<MissionCachedInfo>, invalid: Seq<i32>) -> bool {
    exists|i: int|
        0 <= i < missions.len() && !invalid.contains((#[trigger] missions[i]).mission_info.id)
}

/// All four standard roles occur in the entries.
pub open spec fn spec_standard_present(entries: Seq<GlobalEntry>) -> bool {
    &&& spec_role_present(entries, CharacterKPIType::Driller)
    &&& spec_role_present(entries, CharacterKPIType::Engineer)
    &&& spec_role_present(entries, CharacterKPIType::Gunner)
    &&& spec_role_present(entries, CharacterKPIType::Scout)
}

/// What the engine promises of a non-empty global state: factors, sums and
/// transform curves all equal their defining statistics over the entries.
pub open spec fn spec_global_models(
    out: CachedGlobalKPIState,
    entries: Seq<GlobalEntry>,
    cfg: KPIConfig,
) -> bool {
    &&& out.character_correction_factor.wf()
    &&& forall|role: CharacterKPIType|
        match #[trigger] out.character_correction_factor.spec_get(role) {
            Some(cm) => spec_role_present(entries, role) && cm.wf() && forall|c: KPIComponent|
                #[trigger] cm.spec_get(c) == if spec_is_correction_comp(c) {
                    Some(
                        CorrectionFactorInfo {
                            player_index: spec_role_pi_sum(entries, role) as i64,
                            value: spec_role_avg(entries, role, c) as i64,
                            correction_factor: spec_factor(entries, role, c) as i64,
                        },
                    )
                } else {
                    None
                },
            None => !spec_role_present(entries, role),
        }
    &&& out.standard_correction_sum.wf()
    &&& forall|c: KPIComponent|
        #[trigger] out.standard_correction_sum.spec_get(c) == if spec_is_correction_comp(c) {
            Some(spec_ssum(entries, c) as i64)
        } else {
            None
        }
    &&& out.transform_range.wf()
    &&& forall|role: CharacterKPIType|
        match #[trigger] out.transform_range.spec_get(role) {
            Some(cm) => spec_dist_pids(entries, role).len() > 0 && cm.wf() && forall|
                c: KPIComponent,
            |
                match #[trigger] cm.spec_get(c) {
                    Some(v) => spec_is_correction_comp(c) && v@.len() == cfg.transform_range@.len()
                        && forall|t: int|
                        0 <= t < v@.len() ==> #[trigger] v@[t] == spec_segment(
                            spec_sort(spec_distribution(entries, role, c)),
                            cfg.transform_range@[t],
                        ),
                    None => !spec_is_correction_comp(c),
                },
            None => spec_dist_pids(entries, role).len() == 0,
        }
}

/// The found snapshot is one of the list.
proof fn lemma_find_kpi_in_list(kpis: Seq<MissionKPICachedInfo>, mid: i32)
    ensures
        match spec_find_kpi(kpis, mid) {
            Some(k) => exists|j: int| 0 <= j < kpis.len() && kpis[j] == k,
            None => true,
        },
    decreases kpis.len(),
{
    if kpis.len() > 0 {
        if kpis.last().mission_id == mid {
            assert(kpis[kpis.len() - 1] == kpis.last());
        } else {
            lemma_find_kpi_in_list(kpis.drop_last(), mid);
            if spec_find_kpi(kpis.drop_last(), mid) is Some {
                let k = spec_find_kpi(kpis.drop_last(), mid)->Some_0;
                let j = choose|j: int| 0 <= j < kpis.drop_last().len() && kpis.drop_last()[j] == k;
                assert(kpis[j] == k);
            }
        }
    }
}

/// Elements at or above a bound stay at or above it through insertion.
proof fn lemma_insert_sorted_ge(s: Seq<i64>, v: i64, bound: i64)
    requires
        forall|i: int| 0 <= i < s.len() ==> s[i] >= bound,
        v >= bound,
    ensures
        forall|i: int|
            0 <= i < spec_insert_sorted(s, v).len() ==> spec_insert_sorted(s, v)[i] >= bound,
    decreases s.len(),
{
    lemma_insert_sorted_len(s, v);
    if s.len() == 0 {
    } else if v >= s.last() {
    } else {
        assert(forall|i: int| 0 <= i < s.drop_last().len() ==> s.drop_last()[i] >= bound);
        lemma_insert_sorted_ge(s.drop_last(), v, bound);
        lemma_insert_sorted_len(s.drop_last(), v);
    }
}

/// Sorting keeps a lower bound on the elements.
proof fn lemma_sort_ge(s: Seq<i64>, bound: i64)
    requires
        forall|i: int| 0 <= i < s.len() ==> s[i] >= bound,
    ensures
        forall|i: int| 0 <= i < spec_sort(s).len() ==> spec_sort(s)[i] >= bound,
    decreases s.len(),
{
    if s.len() > 0 {
        assert(forall|i: int| 0 <= i < s.drop_last().len() ==> s.drop_last()[i] >= bound);
        lemma_sort_ge(s.drop_last(), bound);
        lemma_insert_sorted_ge(spec_sort(s.drop_last()), s.last(), bound);
    }
}

/// Every role value occurs in the fixed enumeration.
pub proof fn lemma_role_enumerated(role: CharacterKPIType)
    ensures
        exists|u: int| 0 <= u < 5 && spec_all_roles()[u] == role,
{
    match role {
        CharacterKPIType::Driller => assert(spec_all_roles()[0] == role),
        CharacterKPIType::Engineer => assert(spec_all_roles()[1] == role),
        CharacterKPIType::Gunner => assert(spec_all_roles()[2] == role),
        CharacterKPIType::Scout => assert(spec_all_roles()[3] == role),
        CharacterKPIType::ScoutSpecial => assert(spec_all_roles()[4] == role),
    }
}

impl CachedGlobalKPIState {
    /// Regenerate the global correction state from every cached mission
    /// summary and KPI snapshot, excluding missions flagged invalid. With
    /// no valid mission the result is the empty-but-valid state. Fails
    /// exactly when a valid mission cannot be used, or a standard role
    /// never occurs.
    #[verifier::rlimit(100)]
    pub fn generate(
        cached_mission_list: &Vec<MissionCachedInfo>,
        cached_mission_kpi_list: &Vec<MissionKPICachedInfo>,
        invalid_mission_id_list: &Vec<i32>,
        kpi_config: &KPIConfig,
        player_id_to_name: &KMap<i16, String>,
        character_id_to_game_id: &KMap<i16, String>,
        scout_special_player_set: &StrSet,
    ) -> (r: Result<CachedGlobalKPIState, String>)
        requires
            forall|i: int|
                0 <= i < cached_mission_list@.len()
                    ==> crate::mission_cache::spec_summary_wf(#[trigger] cached_mission_list@[i]),
            forall|i: int|
                0 <= i < cached_mission_kpi_list@.len() ==> spec_kpi_snapshot_wf(
                    #[trigger] cached_mission_kpi_list@[i],
                ),
            kpi_config.wf(),
            player_id_to_name.wf(),
            character_id_to_game_id.wf(),
            scout_special_player_set.wf(),
        ensures
            ({
                let entries = spec_all_entries(
                    cached_mission_list@,
                    cached_mission_kpi_list@,
                    invalid_mission_id_list@,
                    *character_id_to_game_id,
                    *player_id_to_name,
                    *scout_special_player_set,
                    kpi_config.priority_table,
                );
                match r {
                    Ok(out) => if !spec_valid_present(
                        cached_mission_list@,
                        invalid_mission_id_list@,
                    ) {
                        out.character_correction_factor.spec_len() == 0
                            && out.standard_correction_sum.spec_len() == 0
                            && out.transform_range.spec_len() == 0
                    } else {
                        spec_global_models(out, entries, *kpi_config) && !spec_global_missing(
                            cached_mission_list@,
                            cached_mission_kpi_list@,
                            invalid_mission_id_list@,
                            *character_id_to_game_id,
                            *player_id_to_name,
                        ) && spec_standard_present(entries)
                    },
                    Err(_) => spec_valid_present(cached_mission_list@, invalid_mission_id_list@)
                        && (spec_global_missing(
                        cached_mission_list@,
                        cached_mission_kpi_list@,
                        invalid_mission_id_list@,
                        *character_id_to_game_id,
                        *player_id_to_name,
                    ) || !spec_standard_present(entries)),
                }
            }),
    {
        let ghost g_entries = spec_all_entries(
            cached_mission_list@,
            cached_mission_kpi_list@,
            invalid_mission_id_list@,
            *character_id_to_game_id,
            *player_id_to_name,
            *scout_special_player_set,
            kpi_config.priority_table,
        );
        // is any mission valid at all?
        let mn = cached_mission_list.len();
        let mut any_valid = false;
        let mut i: usize = 0;
        while i < mn && !any_valid
            invariant
                mn == cached_mission_list@.len(),
                0 <= i <= mn,
                any_valid ==> spec_valid_present(cached_mission_list@, invalid_mission_id_list@),
                !any_valid ==> forall|m: int|
                    0 <= m < i ==> invalid_mission_id_list@.contains(
                        (#[trigger] cached_mission_list@[m]).mission_info.id,
                    ),
            decreases mn - i,
        {
            if !contains_i32(invalid_mission_id_list, cached_mission_list[i].mission_info.id) {
                assert(!invalid_mission_id_list@.contains(
                    cached_mission_list@[i as int].mission_info.id,
                ));
                any_valid = true;
            }
            i += 1;
        }
        proof {
            if !any_valid && spec_valid_present(cached_mission_list@, invalid_mission_id_list@) {
                let m = choose|m: int|
                    0 <= m < cached_mission_list@.len() && !invalid_mission_id_list@.contains(
                        (#[trigger] cached_mission_list@[m]).mission_info.id,
                    );
                assert(false);
            }
        }
        if !any_valid {
            return Ok(
                CachedGlobalKPIState {
                    character_correction_factor: KMap::empty(),
                    standard_correction_sum: KMap::empty(),
                    transform_range: KMap::empty(),
                },
            );
        }

        // flatten the valid missions
        let mut entries: Vec<GlobalEntry> = Vec::new();
        let mut i: usize = 0;
        while i < mn
            invariant
                forall|t: int|
                    0 <= t < cached_mission_list@.len() ==> crate::mission_cache::spec_summary_wf(
                        #[trigger] cached_mission_list@[t],
                    ),
                forall|t: int|
                    0 <= t < cached_mission_kpi_list@.len() ==> spec_kpi_snapshot_wf(
                        #[trigger] cached_mission_kpi_list@[t],
                    ),
                kpi_config.wf(),
                player_id_to_name.wf(),
                character_id_to_game_id.wf(),
                scout_special_player_set.wf(),
                mn == cached_mission_list@.len(),
                0 <= i <= mn,
                entries@ == spec_all_entries(
                    cached_mission_list@.take(i as int),
                    cached_mission_kpi_list@,
                    invalid_mission_id_list@,
                    *character_id_to_game_id,
                    *player_id_to_name,
                    *scout_special_player_set,
                    kpi_config.priority_table,
                ),
                spec_entries_nonneg(entries@),
                forall|t: int|
                    0 <= t < i && !invalid_mission_id_list@.contains(
                        (#[trigger] cached_mission_list@[t]).mission_info.id,
                    ) ==> !spec_g_mission_missing(
                        cached_mission_list@[t],
                        cached_mission_kpi_list@,
                        *character_id_to_game_id,
                        *player_id_to_name,
                    ),
            decreases mn - i,
        {
            proof {
                assert(cached_mission_list@.take(i as int + 1).drop_last()
                    =~= cached_mission_list@.take(i as int));
                assert(cached_mission_list@.take(i as int + 1).last()
                    == cached_mission_list@[i as int]);
            }
            let m = &cached_mission_list[i];
            if !contains_i32(invalid_mission_id_list, m.mission_info.id) {
                let k = match find_kpi(cached_mission_kpi_list, m.mission_info.id) {
                    Some(k) => k,
                    None => {
                        proof {
                            assert(*m == cached_mission_list@[i as int]);
                            assert(!invalid_mission_id_list@.contains(
                                cached_mission_list@[i as int].mission_info.id,
                            ));
                            assert(spec_g_mission_missing(
                                cached_mission_list@[i as int],
                                cached_mission_kpi_list@,
                                *character_id_to_game_id,
                                *player_id_to_name,
                            ));
                            assert(spec_global_missing(
                                cached_mission_list@,
                                cached_mission_kpi_list@,
                                invalid_mission_id_list@,
                                *character_id_to_game_id,
                                *player_id_to_name,
                            ));
                        }
                        return Err("a valid mission has no KPI snapshot".to_owned());
                    },
                };
                proof {
                    lemma_find_kpi_in_list(cached_mission_kpi_list@, m.mission_info.id);
                }
                let rn = m.player_info.len();
                let mut t: usize = 0;
                while t < rn
                    invariant
                        crate::mission_cache::spec_summary_wf(*m),
                        spec_kpi_snapshot_wf(*k),
                        mn == cached_mission_list@.len(),
                        0 <= i < mn,
                        *m == cached_mission_list@[i as int],
                        !invalid_mission_id_list@.contains(
                            cached_mission_list@[i as int].mission_info.id,
                        ),
                        spec_find_kpi(cached_mission_kpi_list@, m.mission_info.id) == Some(*k),
                        kpi_config.wf(),
                        player_id_to_name.wf(),
                        character_id_to_game_id.wf(),
                        scout_special_player_set.wf(),
                        rn == m.player_info@.len(),
                        0 <= t <= rn,
                        entries@ == spec_all_entries(
                            cached_mission_list@.take(i as int),
                            cached_mission_kpi_list@,
                            invalid_mission_id_list@,
                            *character_id_to_game_id,
                            *player_id_to_name,
                            *scout_special_player_set,
                            kpi_config.priority_table,
                        ) + spec_mission_entries(
                            *m,
                            *k,
                            *character_id_to_game_id,
                            *player_id_to_name,
                            *scout_special_player_set,
                            kpi_config.priority_table,
                            m.player_info@.take(t as int),
                        ),
                        spec_entries_nonneg(entries@),
                        forall|u: int|
                            0 <= u < t ==> !spec_g_row_missing(
                                *m,
                                *k,
                                *character_id_to_game_id,
                                *player_id_to_name,
                                #[trigger] m.player_info@[u],
                            ),
                    decreases rn - t,
                {
                    proof {
                        assert(m.player_info@.take(t as int + 1).drop_last()
                            =~= m.player_info@.take(t as int));
                        assert(m.player_info@.take(t as int + 1).last()
                            == m.player_info@[t as int]);
                    }
                    let row = &m.player_info[t];
                    match entry_of_exec(
                        m,
                        k,
                        row,
                        character_id_to_game_id,
                        player_id_to_name,
                        scout_special_player_set,
                        &kpi_config.priority_table,
                    ) {
                        Ok(e) => {
                            entries.push(e);
                        },
                        Err(msg) => {
                            proof {
                                assert(*m == cached_mission_list@[i as int]);
                                assert(!invalid_mission_id_list@.contains(
                                    cached_mission_list@[i as int].mission_info.id,
                                ));
                                assert(spec_g_row_missing(
                                    *m,
                                    *k,
                                    *character_id_to_game_id,
                                    *player_id_to_name,
                                    m.player_info@[t as int],
                                ));
                                assert(cached_mission_list@[i as int].player_info@[t as int]
                                    == m.player_info@[t as int]);
                                assert(spec_find_kpi(
                                    cached_mission_kpi_list@,
                                    cached_mission_list@[i as int].mission_info.id,
                                ) == Some(*k));
                                assert(spec_g_mission_missing(
                                    cached_mission_list@[i as int],
                                    cached_mission_kpi_list@,
                                    *character_id_to_game_id,
                                    *player_id_to_name,
                                ));
                                assert(spec_global_missing(
                                    cached_mission_list@,
                                    cached_mission_kpi_list@,
                                    invalid_mission_id_list@,
                                    *character_id_to_game_id,
                                    *player_id_to_name,
                                ));
                            }
                            return Err(msg);
                        },
                    }
                    t += 1;
                }
                proof {
                    assert(m.player_info@.take(rn as int) =~= m.player_info@);
                    assert(!spec_g_mission_missing(
                        cached_mission_list@[i as int],
                        cached_mission_kpi_list@,
                        *character_id_to_game_id,
                        *player_id_to_name,
                    ));
                }
            }
            i += 1;
        }
        proof {
            assert(cached_mission_list@.take(mn as int) =~= cached_mission_list@);
            assert(entries@ == g_entries);
            assert(!spec_global_missing(
                cached_mission_list@,
                cached_mission_kpi_list@,
                invalid_mission_id_list@,
                *character_id_to_game_id,
                *player_id_to_name,
            )) by {
                if spec_global_missing(
                    cached_mission_list@,
                    cached_mission_kpi_list@,
                    invalid_mission_id_list@,
                    *character_id_to_game_id,
                    *player_id_to_name,
                ) {
                    let t = choose|t: int|
                        0 <= t < cached_mission_list@.len() && !invalid_mission_id_list@.contains(
                            (#[trigger] cached_mission_list@[t]).mission_info.id,
                        ) && spec_g_mission_missing(
                            cached_mission_list@[t],
                            cached_mission_kpi_list@,
                            *character_id_to_game_id,
                            *player_id_to_name,
                        );
                }
            }
        }

        // the four standard roles must occur
        if !role_present_exec(&entries, CharacterKPIType::Driller) || !role_present_exec(
            &entries,
            CharacterKPIType::Engineer,
        ) || !role_present_exec(&entries, CharacterKPIType::Gunner) || !role_present_exec(
            &entries,
            CharacterKPIType::Scout,
        ) {
            return Err("a standard role never occurs in the valid missions".to_owned());
        }

        let roles = all_roles_vec();
        let comps: [KPIComponent; 5] = [
            KPIComponent::Damage,
            KPIComponent::Priority,
            KPIComponent::Kill,
            KPIComponent::Nitra,
            KPIComponent::Minerals,
        ];

        // correction factors
        let mut cc: KMap<CharacterKPIType, KMap<KPIComponent, CorrectionFactorInfo>> =
            KMap::empty();
        let mut j: usize = 0;
        while j < 5
            invariant
                spec_entries_nonneg(entries@),
                roles@ == spec_all_roles(),
                comps@ =~= seq![
                    KPIComponent::Damage,
                    KPIComponent::Priority,
                    KPIComponent::Kill,
                    KPIComponent::Nitra,
                    KPIComponent::Minerals,
                ],
                0 <= j <= 5,
                cc.wf(),
                forall|role: CharacterKPIType|
                    match #[trigger] cc.spec_get(role) {
                        Some(cm) => (exists|u: int| 0 <= u < j && spec_all_roles()[u] == role)
                            && spec_role_present(entries@, role) && cm.wf() && forall|
                            c: KPIComponent,
                        |
                            #[trigger] cm.spec_get(c) == if spec_is_correction_comp(c) {
                                Some(
                                    CorrectionFactorInfo {
                                        player_index: spec_role_pi_sum(entries@, role) as i64,
                                        value: spec_role_avg(entries@, role, c) as i64,
                                        correction_factor: spec_factor(entries@, role, c) as i64,
                                    },
                                )
                            } else {
                                None
                            },
                        None => !((exists|u: int| 0 <= u < j && spec_all_roles()[u] == role)
                            && spec_role_present(entries@, role)),
                    },
            decreases 5 - j,
        {
            let role = roles[j];
            if role_present_exec(&entries, role) {
                let mut cm: KMap<KPIComponent, CorrectionFactorInfo> = KMap::empty();
                let pi = role_pi_sum_exec(&entries, role);
                let mut u: usize = 0;
                while u < 5
                    invariant
                        spec_entries_nonneg(entries@),
                        comps@ =~= seq![
                            KPIComponent::Damage,
                            KPIComponent::Priority,
                            KPIComponent::Kill,
                            KPIComponent::Nitra,
                            KPIComponent::Minerals,
                        ],
                        0 <= u <= 5,
                        pi as int == spec_role_pi_sum(entries@, role),
                        cm.wf(),
                        forall|c: KPIComponent|
                            #[trigger] cm.spec_get(c) == if exists|w: int|
                                0 <= w < u && comps@[w] == c {
                                Some(
                                    CorrectionFactorInfo {
                                        player_index: spec_role_pi_sum(entries@, role) as i64,
                                        value: spec_role_avg(entries@, role, c) as i64,
                                        correction_factor: spec_factor(entries@, role, c) as i64,
                                    },
                                )
                            } else {
                                None
                            },
                    decreases 5 - u,
                {
                    let c = comps[u];
                    let info = CorrectionFactorInfo {
                        player_index: pi,
                        value: role_avg_exec(&entries, role, c),
                        correction_factor: factor_exec(&entries, role, c),
                    };
                    proof {
                        cm.lemma_get_is_contains(c);
                    }
                    cm.set(&c, info);
                    proof {
                        assert forall|c2: KPIComponent|
                            #[trigger] cm.spec_get(c2) == if exists|w: int|
                                0 <= w < u + 1 && comps@[w] == c2 {
                                Some(
                                    CorrectionFactorInfo {
                                        player_index: spec_role_pi_sum(entries@, role) as i64,
                                        value: spec_role_avg(entries@, role, c2) as i64,
                                        correction_factor: spec_factor(entries@, role, c2) as i64,
                                    },
                                )
                            } else {
                                None
                            } by {
                            if c2 == c {
                                assert(comps@[u as int] == c2);
                            } else {
                                if exists|w: int| 0 <= w < u + 1 && comps@[w] == c2 {
                                    let w = choose|w: int| 0 <= w < u + 1 && comps@[w] == c2;
                                    assert(w < u);
                                } else {
                                    if exists|w: int| 0 <= w < u && comps@[w] == c2 {
                                        let w = choose|w: int| 0 <= w < u && comps@[w] == c2;
                                        assert(0 <= w < u + 1 && comps@[w] == c2);
                                    }
                                }
                            }
                        }
                    }
                    u += 1;
                }
                proof {
                    cc.lemma_get_is_contains(role);
                    if cc.spec_get(role) is Some {
                        let w = choose|w: int| 0 <= w < j && spec_all_roles()[w] == role;
                        assert(spec_all_roles()[w] == spec_all_roles()[j as int]);
                        assert(false);
                    }
                    assert forall|c: KPIComponent|
                        spec_is_correction_comp(c) implies (exists|w: int|
                        0 <= w < 5 && comps@[w] == c) by {
                        if c == KPIComponent::Damage {
                            assert(comps@[0] == c);
                        } else if c == KPIComponent::Priority {
                            assert(comps@[1] == c);
                        } else if c == KPIComponent::Kill {
                            assert(comps@[2] == c);
                        } else if c == KPIComponent::Nitra {
                            assert(comps@[3] == c);
                        } else {
                            assert(comps@[4] == c);
                        }
                    }
                    assert forall|w: int| 0 <= w < 5 implies spec_is_correction_comp(comps@[w]) by {
                    }
                }
                cc.set(&role, cm);
                proof {
                    assert forall|role2: CharacterKPIType|
                        match #[trigger] cc.spec_get(role2) {
                            Some(cm2) => (exists|u2: int|
                                0 <= u2 < j + 1 && spec_all_roles()[u2] == role2)
                                && spec_role_present(entries@, role2) && cm2.wf() && forall|
                                c: KPIComponent,
                            |
                                #[trigger] cm2.spec_get(c) == if spec_is_correction_comp(c) {
                                    Some(
                                        CorrectionFactorInfo {
                                            player_index: spec_role_pi_sum(entries@, role2) as i64,
                                            value: spec_role_avg(entries@, role2, c) as i64,
                                            correction_factor: spec_factor(entries@, role2, c) as i64,
                                        },
                                    )
                                } else {
                                    None
                                },
                            None => !((exists|u2: int|
                                0 <= u2 < j + 1 && spec_all_roles()[u2] == role2)
                                && spec_role_present(entries@, role2)),
                        } by {
                        if role2 == role {
                            assert(spec_all_roles()[j as int] == role2);
                        } else {
                            if cc.spec_get(role2) is None {
                                if exists|u2: int| 0 <= u2 < j + 1 && spec_all_roles()[u2] == role2 {
                                    let u2 = choose|u2: int|
                                        0 <= u2 < j + 1 && spec_all_roles()[u2] == role2;
                                    assert(u2 < j);
                                }
                            }
                        }
                    }
                }
            } else {
                proof {
                    assert forall|role2: CharacterKPIType|
                        match #[trigger] cc.spec_get(role2) {
                            Some(cm2) => (exists|u2: int|
                                0 <= u2 < j + 1 && spec_all_roles()[u2] == role2)
                                && spec_role_present(entries@, role2) && cm2.wf() && forall|
                                c: KPIComponent,
                            |
                                #[trigger] cm2.spec_get(c) == if spec_is_correction_comp(c) {
                                    Some(
                                        CorrectionFactorInfo {
                                            player_index: spec_role_pi_sum(entries@, role2) as i64,
                                            value: spec_role_avg(entries@, role2, c) as i64,
                                            correction_factor: spec_factor(entries@, role2, c) as i64,
                                        },
                                    )
                                } else {
                                    None
                                },
                            None => !((exists|u2: int|
                                0 <= u2 < j + 1 && spec_all_roles()[u2] == role2)
                                && spec_role_present(entries@, role2)),
                        } by {
                        if cc.spec_get(role2) is None {
                            if (exists|u2: int| 0 <= u2 < j + 1 && spec_all_roles()[u2] == role2)
                                && spec_role_present(entries@, role2) {
                                let u2 = choose|u2: int|
                                    0 <= u2 < j + 1 && spec_all_roles()[u2] == role2;
                                if u2 == j {
                                    assert(role2 == role);
                                    assert(false);
                                } else {
                                    assert(u2 < j);
                                }
                            }
                        }
                    }
                }
            }
            j += 1;
        }
        proof {
            assert forall|role: CharacterKPIType|
                match #[trigger] cc.spec_get(role) {
                    Some(cm) => spec_role_present(entries@, role) && cm.wf() && forall|
                        c: KPIComponent,
                    |
                        #[trigger] cm.spec_get(c) == if spec_is_correction_comp(c) {
                            Some(
                                CorrectionFactorInfo {
                                    player_index: spec_role_pi_sum(entries@, role) as i64,
                                    value: spec_role_avg(entries@, role, c) as i64,
                                    correction_factor: spec_factor(entries@, role, c) as i64,
                                },
                            )
                        } else {
                            None
                        },
                    None => !spec_role_present(entries@, role),
                } by {
                lemma_role_enumerated(role);
            }
        }

        // normalization denominators
        let mut sc: KMap<KPIComponent, i64> = KMap::empty();
        let mut u: usize = 0;
        while u < 5
            invariant
                spec_entries_nonneg(entries@),
                comps@ =~= seq![
                    KPIComponent::Damage,
                    KPIComponent::Priority,
                    KPIComponent::Kill,
                    KPIComponent::Nitra,
                    KPIComponent::Minerals,
                ],
                0 <= u <= 5,
                sc.wf(),
                forall|c: KPIComponent|
                    #[trigger] sc.spec_get(c) == if exists|w: int| 0 <= w < u && comps@[w] == c {
                        Some(spec_ssum(entries@, c) as i64)
                    } else {
                        None
                    },
            decreases 5 - u,
        {
            let c = comps[u];
            let v = ssum_exec(&entries, c);
            proof {
                sc.lemma_get_is_contains(c);
            }
            sc.set(&c, v);
            proof {
                assert forall|c2: KPIComponent|
                    #[trigger] sc.spec_get(c2) == if exists|w: int|
                        0 <= w < u + 1 && comps@[w] == c2 {
                        Some(spec_ssum(entries@, c2) as i64)
                    } else {
                        None
                    } by {
                    if c2 == c {
                        assert(comps@[u as int] == c2);
                    } else {
                        if exists|w: int| 0 <= w < u + 1 && comps@[w] == c2 {
                            let w = choose|w: int| 0 <= w < u + 1 && comps@[w] == c2;
                            assert(w < u);
                        } else {
                            if exists|w: int| 0 <= w < u && comps@[w] == c2 {
                                let w = choose|w: int| 0 <= w < u && comps@[w] == c2;
                                assert(0 <= w < u + 1 && comps@[w] == c2);
                            }
                        }
                    }
                }
            }
            u += 1;
        }
        proof {
            assert forall|c: KPIComponent|
                spec_is_correction_comp(c) <==> (exists|w: int| 0 <= w < 5 && comps@[w] == c) by {
                if spec_is_correction_comp(c) {
                    if c == KPIComponent::Damage {
                        assert(comps@[0] == c);
                    } else if c == KPIComponent::Priority {
                        assert(comps@[1] == c);
                    } else if c == KPIComponent::Kill {
                        assert(comps@[2] == c);
                    } else if c == KPIComponent::Nitra {
                        assert(comps@[3] == c);
                    } else {
                        assert(comps@[4] == c);
                    }
                }
                if exists|w: int| 0 <= w < 5 && comps@[w] == c {
                    let w = choose|w: int| 0 <= w < 5 && comps@[w] == c;
                }
            }
        }

        // percentile transform curves
        let mut tr: KMap<CharacterKPIType, KMap<KPIComponent, Vec<crate::types::IndexTransformRange>>> =
            KMap::empty();
        let mut j: usize = 0;
        while j < 5
            invariant
                spec_entries_nonneg(entries@),
                kpi_config.wf(),
                roles@ == spec_all_roles(),
                comps@ =~= seq![
                    KPIComponent::Damage,
                    KPIComponent::Priority,
                    KPIComponent::Kill,
                    KPIComponent::Nitra,
                    KPIComponent::Minerals,
                ],
                0 <= j <= 5,
                tr.wf(),
                forall|role: CharacterKPIType|
                    match #[trigger] tr.spec_get(role) {
                        Some(cm) => (exists|u2: int| 0 <= u2 < j && spec_all_roles()[u2] == role)
                            && spec_dist_pids(entries@, role).len() > 0 && cm.wf() && forall|
                            c: KPIComponent,
                        |
                            match #[trigger] cm.spec_get(c) {
                                Some(v) => spec_is_correction_comp(c) && v@.len()
                                    == kpi_config.transform_range@.len() && forall|t: int|
                                    0 <= t < v@.len() ==> #[trigger] v@[t] == spec_segment(
                                        spec_sort(spec_distribution(entries@, role, c)),
                                        kpi_config.transform_range@[t],
                                    ),
                                None => !spec_is_correction_comp(c),
                            },
                        None => !((exists|u2: int| 0 <= u2 < j && spec_all_roles()[u2] == role)
                            && spec_dist_pids(entries@, role).len() > 0),
                    },
            decreases 5 - j,
        {
            let role = roles[j];
            let pids = dist_pids_exec(&entries, role);
            if pids.len() > 0 {
                let mut cm: KMap<KPIComponent, Vec<crate::types::IndexTransformRange>> =
                    KMap::empty();
                let mut u: usize = 0;
                while u < 5
                    invariant
                        spec_entries_nonneg(entries@),
                        kpi_config.wf(),
                        comps@ =~= seq![
                            KPIComponent::Damage,
                            KPIComponent::Priority,
                            KPIComponent::Kill,
                            KPIComponent::Nitra,
                            KPIComponent::Minerals,
                        ],
                        0 <= u <= 5,
                        cm.wf(),
                        forall|c: KPIComponent|
                            match #[trigger] cm.spec_get(c) {
                                Some(v) => (exists|w: int| 0 <= w < u && comps@[w] == c) && v@.len()
                                    == kpi_config.transform_range@.len() && forall|t: int|
                                    0 <= t < v@.len() ==> #[trigger] v@[t] == spec_segment(
                                        spec_sort(spec_distribution(entries@, role, c)),
                                        kpi_config.transform_range@[t],
                                    ),
                                None => !exists|w: int| 0 <= w < u && comps@[w] == c,
                            },
                    decreases 5 - u,
                {
                    let c = comps[u];
                    let dist = distribution_exec(&entries, role, c);
                    let sorted = sort_vec(&dist);
                    proof {
                        lemma_sort_ge(dist@, 0);
                    }
                    let cn = kpi_config.transform_range.len();
                    let mut segs: Vec<crate::types::IndexTransformRange> = Vec::new();
                    let mut t: usize = 0;
                    while t < cn
                        invariant
                            kpi_config.wf(),
                            sorted@ == spec_sort(spec_distribution(entries@, role, c)),
                            forall|w: int| 0 <= w < sorted@.len() ==> (#[trigger] sorted@[w]) >= 0,
                            cn == kpi_config.transform_range@.len(),
                            0 <= t <= cn,
                            segs@.len() == t,
                            forall|w: int|
                                0 <= w < t ==> #[trigger] segs@[w] == spec_segment(
                                    spec_sort(spec_distribution(entries@, role, c)),
                                    kpi_config.transform_range@[w],
                                ),
                        decreases cn - t,
                    {
                        let seg = segment_exec(&sorted, &kpi_config.transform_range[t]);
                        segs.push(seg);
                        t += 1;
                    }
                    proof {
                        cm.lemma_get_is_contains(c);
                        if cm.spec_get(c) is Some {
                            let w = choose|w: int| 0 <= w < u && comps@[w] == c;
                            assert(comps@[w] == comps@[u as int]);
                            assert(false);
                        }
                    }
                    cm.set(&c, segs);
                    proof {
                        assert forall|c2: KPIComponent|
                            match #[trigger] cm.spec_get(c2) {
                                Some(v) => (exists|w: int| 0 <= w < u + 1 && comps@[w] == c2)
                                    && v@.len() == kpi_config.transform_range@.len() && forall|
                                    t2: int,
                                |
                                    0 <= t2 < v@.len() ==> #[trigger] v@[t2] == spec_segment(
                                        spec_sort(spec_distribution(entries@, role, c2)),
                                        kpi_config.transform_range@[t2],
                                    ),
                                None => !exists|w: int| 0 <= w < u + 1 && comps@[w] == c2,
                            } by {
                            if c2 == c {
                                assert(comps@[u as int] == c2);
                            } else {
                                if cm.spec_get(c2) is None {
                                    if exists|w: int| 0 <= w < u + 1 && comps@[w] == c2 {
                                        let w = choose|w: int| 0 <= w < u + 1 && comps@[w] == c2;
                                        assert(w < u);
                                    }
                                } else {
                                    if exists|w: int| 0 <= w < u && comps@[w] == c2 {
                                        let w = choose|w: int| 0 <= w < u && comps@[w] == c2;
                                        assert(0 <= w < u + 1 && comps@[w] == c2);
                                    }
                                }
                            }
                        }
                    }
                    u += 1;
                }
                proof {
                    tr.lemma_get_is_contains(role);
                    if tr.spec_get(role) is Some {
                        let w = choose|w: int| 0 <= w < j && spec_all_roles()[w] == role;
                        assert(spec_all_roles()[w] == spec_all_roles()[j as int]);
                        assert(false);
                    }
                    assert forall|c: KPIComponent|
                        spec_is_correction_comp(c) <==> (exists|w: int|
                        0 <= w < 5 && comps@[w] == c) by {
                        if spec_is_correction_comp(c) {
                            if c == KPIComponent::Damage {
                                assert(comps@[0] == c);
                            } else if c == KPIComponent::Priority {
                                assert(comps@[1] == c);
                            } else if c == KPIComponent::Kill {
                                assert(comps@[2] == c);
                            } else if c == KPIComponent::Nitra {
                                assert(comps@[3] == c);
                            } else {
                                assert(comps@[4] == c);
                            }
                        }
                        if exists|w: int| 0 <= w < 5 && comps@[w] == c {
                            let w = choose|w: int| 0 <= w < 5 && comps@[w] == c;
                        }
                    }
                }
                tr.set(&role, cm);
                proof {
                    assert forall|role2: CharacterKPIType|
                        match #[trigger] tr.spec_get(role2) {
                            Some(cm2) => (exists|u2: int|
                                0 <= u2 < j + 1 && spec_all_roles()[u2] == role2)
                                && spec_dist_pids(entries@, role2).len() > 0 && cm2.wf() && forall|
                                c: KPIComponent,
                            |
                                match #[trigger] cm2.spec_get(c) {
                                    Some(v) => spec_is_correction_comp(c) && v@.len()
                                        == kpi_config.transform_range@.len() && forall|t2: int|
                                        0 <= t2 < v@.len() ==> #[trigger] v@[t2] == spec_segment(
                                            spec_sort(spec_distribution(entries@, role2, c)),
                                            kpi_config.transform_range@[t2],
                                        ),
                                    None => !spec_is_correction_comp(c),
                                },
                            None => !((exists|u2: int|
                                0 <= u2 < j + 1 && spec_all_roles()[u2] == role2)
                                && spec_dist_pids(entries@, role2).len() > 0),
                        } by {
                        if role2 == role {
                            assert(spec_all_roles()[j as int] == role2);
                        } else {
                            if tr.spec_get(role2) is None {
                                if exists|u2: int| 0 <= u2 < j + 1 && spec_all_roles()[u2] == role2 {
                                    let u2 = choose|u2: int|
                                        0 <= u2 < j + 1 && spec_all_roles()[u2] == role2;
                                    assert(u2 < j);
                                }
                            }
                        }
                    }
                }
            } else {
                proof {
                    assert forall|role2: CharacterKPIType|
                        match #[trigger] tr.spec_get(role2) {
                            Some(cm2) => (exists|u2: int|
                                0 <= u2 < j + 1 && spec_all_roles()[u2] == role2)
                                && spec_dist_pids(entries@, role2).len() > 0 && cm2.wf() && forall|
                                c: KPIComponent,
                            |
                                match #[trigger] cm2.spec_get(c) {
                                    Some(v) => spec_is_correction_comp(c) && v@.len()
                                        == kpi_config.transform_range@.len() && forall|t2: int|
                                        0 <= t2 < v@.len() ==> #[trigger] v@[t2] == spec_segment(
                                            spec_sort(spec_distribution(entries@, role2, c)),
                                            kpi_config.transform_range@[t2],
                                        ),
                                    None => !spec_is_correction_comp(c),
                                },
                            None => !((exists|u2: int|
                                0 <= u2 < j + 1 && spec_all_roles()[u2] == role2)
                                && spec_dist_pids(entries@, role2).len() > 0),
                        } by {
                        if tr.spec_get(role2) is None {
                            if (exists|u2: int| 0 <= u2 < j + 1 && spec_all_roles()[u2] == role2)
                                && spec_dist_pids(entries@, role2).len() > 0 {
                                let u2 = choose|u2: int|
                                    0 <= u2 < j + 1 && spec_all_roles()[u2] == role2;
                                if u2 == j {
                                    assert(role2 == role);
                                    assert(false);
                                } else {
                                    assert(u2 < j);
                                }
                            }
                        }
                    }
                }
            }
            j += 1;
        }

        proof {
            assert forall|role: CharacterKPIType|
                match #[trigger] tr.spec_get(role) {
                    Some(cm) => spec_dist_pids(entries@, role).len() > 0 && cm.wf() && forall|
                        c: KPIComponent,
                    |
                        match #[trigger] cm.spec_get(c) {
                            Some(v) => spec_is_correction_comp(c) && v@.len()
                                == kpi_config.transform_range@.len() && forall|t: int|
                                0 <= t < v@.len() ==> #[trigger] v@[t] == spec_segment(
                                    spec_sort(spec_distribution(entries@, role, c)),
                                    kpi_config.transform_range@[t],
                                ),
                            None => !spec_is_correction_comp(c),
                        },
                    None => spec_dist_pids(entries@, role).len() == 0,
                } by {
                lemma_role_enumerated(role);
            }
        }
        Ok(
            CachedGlobalKPIState {
                character_correction_factor: cc,
                standard_correction_sum: sc,
                transform_range: tr,
            },
        )
    }
}

// ---------------------------------------------------------------------------
// Stated properties
// ---------------------------------------------------------------------------
proof fn lemma_min_over_le(
    entries: Seq<GlobalEntry>,
    c: KPIComponent,
    roles: Seq<CharacterKPIType>,
    j: int,
)
    requires
        spec_entries_nonneg(entries),
        0 <= j < roles.len(),
        spec_role_present(entries, roles[j]),
    ensures
        0 <= spec_min_over(entries, c, roles) <= spec_role_avg(entries, roles[j], c),
    decreases roles.len(),
{
    lemma_role_pi_sum_nonneg(entries, roles.last());
    lemma_role_comp_sum_nonneg(entries, roles.last(), c);
    if j == roles.len() - 1 {
        if roles.len() > 1 {
            lemma_min_over_nonneg(entries, c, roles.drop_last());
        }
    } else {
        assert(roles.drop_last()[j] == roles[j]);
        lemma_min_over_le(entries, c, roles.drop_last(), j);
    }
}

proof fn lemma_min_over_nonneg(entries: Seq<GlobalEntry>, c: KPIComponent, roles: Seq<CharacterKPIType>)
    requires
        spec_entries_nonneg(entries),
    ensures
        spec_min_over(entries, c, roles) >= -1,
        spec_min_over(entries, c, roles) == -1 || spec_min_over(entries, c, roles) >= 0,
    decreases roles.len(),
{
    if roles.len() > 0 {
        lemma_min_over_nonneg(entries, c, roles.drop_last());
        lemma_role_pi_sum_nonneg(entries, roles.last());
        lemma_role_comp_sum_nonneg(entries, roles.last(), c);
    }
}

proof fn lemma_min_over_achieved(
    entries: Seq<GlobalEntry>,
    c: KPIComponent,
    roles: Seq<CharacterKPIType>,
)
    requires
        spec_entries_nonneg(entries),
        spec_min_over(entries, c, roles) >= 0,
    ensures
        exists|j: int|
            0 <= j < roles.len() && spec_role_present(entries, #[trigger] roles[j])
                && spec_role_avg(entries, roles[j], c) == spec_min_over(entries, c, roles),
    decreases roles.len(),
{
    if roles.len() > 0 {
        let rest = spec_min_over(entries, c, roles.drop_last());
        if spec_role_present(entries, roles.last()) {
            let a = spec_role_avg(entries, roles.last(), c);
            if rest < 0 || a < rest {
                assert(roles[roles.len() - 1] == roles.last());
            } else {
                lemma_min_over_achieved(entries, c, roles.drop_last());
                let j = choose|j: int|
                    0 <= j < roles.drop_last().len() && spec_role_present(
                        entries,
                        #[trigger] roles.drop_last()[j],
                    ) && spec_role_avg(entries, roles.drop_last()[j], c) == rest;
                assert(roles[j] == roles.drop_last()[j]);
            }
        } else {
            lemma_min_over_achieved(entries, c, roles.drop_last());
            let j = choose|j: int|
                0 <= j < roles.drop_last().len() && spec_role_present(
                    entries,
                    #[trigger] roles.drop_last()[j],
                ) && spec_role_avg(entries, roles.drop_last()[j], c) == rest;
            assert(roles[j] == roles.drop_last()[j]);
        }
    }
}

/// Every occurring role's correction factor is at least one.
pub proof fn lemma_factor_at_least_one(
    entries: Seq<GlobalEntry>,
    role: CharacterKPIType,
    c: KPIComponent,
)
    requires
        spec_entries_nonneg(entries),
        spec_role_present(entries, role),
    ensures
        spec_factor(entries, role, c) >= FX_SCALE as int,
{
    let min = spec_min_avg(entries, c);
    if min >= 1 {
        lemma_role_enumerated(role);
        let u = choose|u: int| 0 <= u < 5 && spec_all_roles()[u] == role;
        lemma_min_over_le(entries, c, spec_all_roles(), u);
        crate::fx::lemma_fx_div_ge_one(spec_role_avg(entries, role, c), min);
    }
}

/// Some occurring role's factor is exactly one: the component-minimal role
/// sits at the baseline, and every other role scales up from it.
pub proof fn lemma_minimal_factor_exactly_one(entries: Seq<GlobalEntry>, c: KPIComponent)
    requires
        spec_entries_nonneg(entries),
        entries.len() > 0,
    ensures
        exists|role: CharacterKPIType|
            #[trigger] spec_role_present(entries, role) && spec_factor(entries, role, c)
                == FX_SCALE as int,
{
    let some_role = entries[0].role;
    assert(entries[0].role == some_role);
    assert(spec_role_present(entries, some_role));
    let min = spec_min_avg(entries, c);
    if min < 1 {
        if min < 0 {
            lemma_role_enumerated(some_role);
            let u = choose|u: int| 0 <= u < 5 && spec_all_roles()[u] == some_role;
            lemma_min_over_le(entries, c, spec_all_roles(), u);
            assert(false);
        }
        assert(spec_factor(entries, some_role, c) == FX_SCALE as int);
    } else {
        lemma_min_over_achieved(entries, c, spec_all_roles());
        let j = choose|j: int|
            0 <= j < spec_all_roles().len() && spec_role_present(
                entries,
                #[trigger] spec_all_roles()[j],
            ) && spec_role_avg(entries, spec_all_roles()[j], c) == min;
        let role = spec_all_roles()[j];
        crate::fx::lemma_fx_div_self(min);
        assert(spec_factor(entries, role, c) == FX_SCALE as int);
    }
}

/// Every value of a role/component distribution is non-negative, so a
/// sorted distribution meets the segment-endpoint lemma's lower bound.
pub proof fn lemma_distribution_nonneg(
    entries: Seq<GlobalEntry>,
    role: CharacterKPIType,
    c: KPIComponent,
)
    requires
        spec_entries_nonneg(entries),
    ensures
        forall|i: int|
            0 <= i < spec_distribution(entries, role, c).len() ==> #[trigger] spec_distribution(
                entries,
                role,
                c,
            )[i] >= 0,
{
    assert forall|i: int|
        0 <= i < spec_distribution(entries, role, c).len() implies #[trigger] spec_distribution(
        entries,
        role,
        c,
    )[i] >= 0 by {
        let pid = spec_dist_pids(entries, role)[i];
        let pi = spec_player_pi_sum(entries, role, pid);
        lemma_player_pi_sum_nonneg(entries, role, pid);
        if pi >= 1 {
            assert forall|t: int|
                0 <= t < entries.len() implies (#[trigger] entries[t]).player_index >= 0
                    && spec_raw_field(entries[t], c) >= 0 by {}
            lemma_player_wsum_nonneg(entries, entries, role, pid, c);
            let w = spec_player_wsum(entries, entries, role, pid, c);
            assert((w * FX_SCALE as int) / pi >= 0) by (nonlinear_arith)
                requires w >= 0 && pi >= 1;
        }
    }
}

/// Evaluate a transform segment's line at a source value.
pub open spec fn spec_transform_eval(seg: crate::types::IndexTransformRange, x: i64) -> int {
    spec_sat_add(
        spec_clamp(
            (seg.transform_coefficient.0 as int * x as int) / (FX_SCALE as int),
        ),
        seg.transform_coefficient.1 as int,
    )
}

/// Evaluate a transform segment at a source value.
pub fn transform_eval(seg: &crate::types::IndexTransformRange, x: i64) -> (r: i64)
    requires
        seg.transform_coefficient.0 >= 0,
        x >= 0,
    ensures
        r as int == spec_transform_eval(*seg, x),
{
    let a = seg.transform_coefficient.0;
    let b = seg.transform_coefficient.1;
    let scaled = crate::fx::fx_mul(a, x);
    sat_add(scaled, b)
}

/// Within the design's value ranges (source values in `[0, 1]`, target
/// scores up to `1000`), a derived segment maps its source minimum exactly
/// to its target minimum, its source maximum to within a few scale steps of
/// its target maximum, and degenerates to the flat midpoint function when
/// its source range is empty.
pub proof fn lemma_segment_endpoints(sorted: Seq<i64>, rc: crate::types::IndexTransformRangeConfig)
    requires
        0 <= rc.rank_range.0 < FX_SCALE,
        rc.rank_range.0 <= rc.rank_range.1 <= FX_SCALE,
        0 <= rc.transform_range.0 <= rc.transform_range.1 <= 1_000_000_000,
        spec_sorted(sorted),
        forall|i: int| 0 <= i < sorted.len() ==> 0 <= #[trigger] sorted[i] <= FX_SCALE,
    ensures
        ({
            let seg = spec_segment(sorted, rc);
            let smin = seg.source_range.0 as int;
            let smax = seg.source_range.1 as int;
            let tmin = rc.transform_range.0 as int;
            let tmax = rc.transform_range.1 as int;
            &&& 0 <= smin <= FX_SCALE as int
            &&& smin <= smax <= FX_SCALE as int
            &&& (smax > smin ==> spec_transform_eval(seg, seg.source_range.0) == tmin)
            &&& (smax > smin ==> tmax - (smax - smin) / (FX_SCALE as int) - 2
                <= spec_transform_eval(seg, seg.source_range.1) <= tmax + 1)
            &&& (smax <= smin ==> forall|x: i64|
                x >= 0 ==> #[trigger] spec_transform_eval(seg, x) == (tmin + tmax) / 2)
        }),
{
    let seg = spec_segment(sorted, rc);
    let len = sorted.len() as int;
    let b = (len * rc.rank_range.0 as int) / (FX_SCALE as int);
    let e = (len * rc.rank_range.1 as int) / (FX_SCALE as int);
    if len >= 1 {
        assert(0 <= b < len) by (nonlinear_arith)
            requires
                b == (len * rc.rank_range.0 as int) / (FX_SCALE as int),
                0 <= rc.rank_range.0 < FX_SCALE,
                len >= 1,
                FX_SCALE == 1_000_000,
        ;
    } else {
        assert(len * rc.rank_range.0 as int == 0 && len * rc.rank_range.1 as int == 0)
            by (nonlinear_arith)
            requires len == 0;
        assert(b == 0);
    }
    assert(b <= e) by (nonlinear_arith)
        requires
            b == (len * rc.rank_range.0 as int) / (FX_SCALE as int),
            e == (len * rc.rank_range.1 as int) / (FX_SCALE as int),
            0 <= rc.rank_range.0 <= rc.rank_range.1,
            len >= 0,
            FX_SCALE == 1_000_000,
    ;
    assert(e >= 0) by (nonlinear_arith)
        requires
            e == (len * rc.rank_range.1 as int) / (FX_SCALE as int),
            0 <= rc.rank_range.1,
            len >= 0,
            FX_SCALE == 1_000_000,
    ;
    let smin: int = seg.source_range.0 as int;
    let smax: int = seg.source_range.1 as int;
    assert(0 <= smin <= FX_SCALE as int);
    assert(smin <= smax <= FX_SCALE as int) by {
        if b > 0 && e < len {
            assert(sorted[b] <= sorted[e]);
        }
    }
    let tmin = rc.transform_range.0 as int;
    let tmax = rc.transform_range.1 as int;
    let delta = smax - smin;
    if delta > 0 {
        let a = ((tmax - tmin) * FX_SCALE as int) / delta;
        assert(0 <= a <= (tmax - tmin) * (FX_SCALE as int)) by (nonlinear_arith)
            requires
                a == ((tmax - tmin) * FX_SCALE as int) / delta,
                0 <= tmax - tmin,
                delta >= 1,
        ;
        assert(a <= 1_000_000_000 * 1_000_000) by (nonlinear_arith)
            requires 0 <= a <= (tmax - tmin) * (FX_SCALE as int) && tmax - tmin <= 1_000_000_000
                && FX_SCALE == 1_000_000;
        assert(spec_clamp(a) == a);
        assert(seg.transform_coefficient.0 as int == a);
        // the offset never clamps: `a * smin / S` is at most `a`
        let q1 = (a * smin) / (FX_SCALE as int);
        let q2 = (a * smax) / (FX_SCALE as int);
        assert(0 <= q1 && q1 * (FX_SCALE as int) <= a * smin && a * smin <= a * (FX_SCALE as int))
            by (nonlinear_arith)
            requires
                q1 == (a * smin) / (FX_SCALE as int),
                0 <= a,
                0 <= smin <= FX_SCALE as int,
                FX_SCALE == 1_000_000,
        ;
        assert(q1 <= a) by (nonlinear_arith)
            requires q1 * (FX_SCALE as int) <= a * (FX_SCALE as int) && FX_SCALE == 1_000_000;
        assert(0 <= q2 && q2 * (FX_SCALE as int) <= a * smax && a * smax <= a * (FX_SCALE as int))
            by (nonlinear_arith)
            requires
                q2 == (a * smax) / (FX_SCALE as int),
                0 <= a,
                0 <= smax <= FX_SCALE as int,
                FX_SCALE == 1_000_000,
        ;
        assert(q2 <= a) by (nonlinear_arith)
            requires q2 * (FX_SCALE as int) <= a * (FX_SCALE as int) && FX_SCALE == 1_000_000;
        assert(spec_clamp(q1) == q1);
        assert(spec_clamp(q2) == q2);
        let off = tmin - q1;
        assert(spec_clamp(off) == off);
        assert(seg.transform_coefficient.1 as int == off);
        // at the source minimum the quotient cancels exactly
        assert(spec_transform_eval(seg, seg.source_range.0) == spec_sat_add(q1, off));
        assert(spec_sat_add(q1, off) == tmin);
        // at the source maximum, both floors lose less than one unit
        assert(q2 - q1 >= (a * delta) / (FX_SCALE as int) - 1 && q2 - q1 <= (a * delta) / (
        FX_SCALE as int) + 1) by (nonlinear_arith)
            requires
                q1 == (a * smin) / (FX_SCALE as int),
                q2 == (a * smax) / (FX_SCALE as int),
                delta == smax - smin,
                0 <= a,
                0 <= smin <= smax,
                FX_SCALE == 1_000_000,
        ;
        assert((tmax - tmin) - delta / (FX_SCALE as int) - 1 <= (a * delta) / (FX_SCALE as int)
            && (a * delta) / (FX_SCALE as int) <= tmax - tmin) by (nonlinear_arith)
            requires
                a == ((tmax - tmin) * (FX_SCALE as int)) / delta,
                delta >= 1,
                0 <= tmax - tmin,
                FX_SCALE == 1_000_000,
        ;
        assert(spec_transform_eval(seg, seg.source_range.1) == spec_sat_add(q2, off));
        assert(spec_sat_add(q2, off) == q2 + off);
    } else {
        assert(seg.transform_coefficient.0 == 0);
        assert(seg.transform_coefficient.1 as int == (tmin + tmax) / 2);
        assert(0 <= (tmin + tmax) / 2 <= tmax) by (nonlinear_arith)
            requires 0 <= tmin <= tmax;
        assert forall|x: i64| x >= 0 implies #[trigger] spec_transform_eval(seg, x) == (tmin
            + tmax) / 2 by {
            assert((0int * x as int) / (FX_SCALE as int) == 0) by (nonlinear_arith)
                requires FX_SCALE == 1_000_000;
        }
    }
}

/// Segments derived from rank ranges that meet end-to-start cover
/// contiguous source ranges: where the shared cut lands strictly inside the
/// distribution, one segment's source maximum is the next one's source
/// minimum.
pub proof fn lemma_segments_contiguous(
    sorted: Seq<i64>,
    rc1: crate::types::IndexTransformRangeConfig,
    rc2: crate::types::IndexTransformRangeConfig,
)
    requires
        rc1.rank_range.1 == rc2.rank_range.0,
        0 < (sorted.len() as int * rc2.rank_range.0 as int) / (FX_SCALE as int) < sorted.len(),
    ensures
        spec_segment(sorted, rc1).source_range.1 == spec_segment(sorted, rc2).source_range.0,
{
}

} // verus!} // verus!
