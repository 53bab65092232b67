//! The mission aggregator: turns one mission's raw telemetry rows into an
//! immutable per-mission summary, applying the entity blacklist and the
//! entity / weapon id-combination tables.
//!
//! A referenced id that is absent from a lookup table that must have it is a
//! data-integrity failure for the whole mission: the aggregator returns an
//! error rather than skipping the row. Blacklist membership and absence from
//! a combine table are the expected no-op cases.
use vstd::prelude::*;
use crate::kmap::KMap;
use crate::types::{
    DamageInfo, DamagePack, KillInfo, KillPack, Mission, PlayerInfo, ResourceInfo, StrLookup,
    StrSet, SupplyInfo, SupplyPack, WeaponPack,
};
use crate::fx::{spec_sat_add, sat_add};

verus! {

/// The id-to-name lookup tables loaded from the relational store.
pub struct IDMapping {
    pub id_to_player_name: KMap<i16, String>,
    pub id_to_entity_game_id: KMap<i16, String>,
    pub id_to_weapon_game_id: KMap<i16, String>,
    pub id_to_resource_game_id: KMap<i16, String>,
}

impl IDMapping {
    pub open spec fn wf(&self) -> bool {
        &&& self.id_to_player_name.wf()
        &&& self.id_to_entity_game_id.wf()
        &&& self.id_to_weapon_game_id.wf()
        &&& self.id_to_resource_game_id.wf()
    }
}

/// One mission's raw rows, as read from the relational store.
pub struct MissionRawInfo {
    pub mission: Mission,
    pub player_info_list: Vec<PlayerInfo>,
    pub raw_kill_info_list: Vec<KillInfo>,
    pub raw_damage_info_list: Vec<DamageInfo>,
    pub raw_resource_info_list: Vec<ResourceInfo>,
    pub raw_supply_info_list: Vec<SupplyInfo>,
}

/// The per-mission summary; never mutated once built.
pub struct MissionCachedInfo {
    pub mission_info: Mission,
    pub player_info: Vec<PlayerInfo>,
    /// Presence ratio per player id, fixed-point.
    pub player_index: KMap<i16, i64>,
    /// Per player, per canonical entity name: kill totals.
    pub kill_info: KMap<i16, KMap<String, KillPack>>,
    /// Per causing player, per taker name: damage totals.
    pub damage_info: KMap<i16, KMap<String, DamagePack>>,
    /// Per canonical weapon name: damage totals with per-taker breakdown.
    pub weapon_damage_info: KMap<String, WeaponPack>,
    /// Per player, per resource name: collected amount, fixed-point.
    pub resource_info: KMap<i16, KMap<String, i64>>,
    pub revive_count: KMap<i16, i16>,
    pub death_count: KMap<i16, i16>,
    /// Per player: supply-use records in event order.
    pub supply_info: KMap<i16, Vec<SupplyPack>>,
}

// ---------------------------------------------------------------------------
// Name lookups as mathematical functions
// ---------------------------------------------------------------------------
/// The canonical form of a name under a combine table: the mapped name where
/// one is configured, the name itself otherwise.
pub open spec fn spec_combined(combine: StrLookup, name: Seq<char>) -> Seq<char> {
    match combine.spec_get(name) {
        Some(s) => s@,
        None => name,
    }
}

/// The name a lookup table gives an id, if any.
pub open spec fn spec_name_of(m: KMap<i16, String>, id: i16) -> Option<Seq<char>> {
    match m.spec_get(id) {
        Some(s) => Some(s@),
        None => None,
    }
}

// ---------------------------------------------------------------------------
// Kill rows
// ---------------------------------------------------------------------------
/// A kill row whose entity id the entity table does not know: a hard failure.
pub open spec fn kill_row_missing(row: KillInfo, idm: IDMapping) -> bool {
    spec_name_of(idm.id_to_entity_game_id, row.entity_id) is None
}

/// A kill row that survives combination and the blacklist.
pub open spec fn kill_row_included(
    row: KillInfo,
    idm: IDMapping,
    combine: StrLookup,
    blacklist: StrSet,
) -> bool {
    match spec_name_of(idm.id_to_entity_game_id, row.entity_id) {
        Some(name) => !blacklist.contains_key(spec_combined(combine, name)),
        None => false,
    }
}

/// The canonical entity name a kill row counts under.
pub open spec fn kill_row_key(row: KillInfo, idm: IDMapping, combine: StrLookup) -> Seq<char> {
    match spec_name_of(idm.id_to_entity_game_id, row.entity_id) {
        Some(name) => spec_combined(combine, name),
        None => Seq::empty(),
    }
}

/// Folding the kill rows for one player and one canonical entity name:
/// the taker id of the first contributing row, and the saturating count.
pub open spec fn spec_kill_fold(
    rows: Seq<KillInfo>,
    player: i16,
    key: Seq<char>,
    idm: IDMapping,
    combine: StrLookup,
    blacklist: StrSet,
) -> Option<(i16, i32)>
    decreases rows.len(),
{
    if rows.len() == 0 {
        None
    } else {
        let prev = spec_kill_fold(rows.drop_last(), player, key, idm, combine, blacklist);
        let row = rows.last();
        if row.player_id == player && kill_row_included(row, idm, combine, blacklist)
            && kill_row_key(row, idm, combine) == key {
            match prev {
                None => Some((row.entity_id, 1i32)),
                Some((tid, c)) => Some(
                    (tid, if c < i32::MAX { (c + 1) as i32 } else { i32::MAX }),
                ),
            }
        } else {
            prev
        }
    }
}

/// Whether some kill row for this player survives filtering.
pub open spec fn kill_player_present(
    rows: Seq<KillInfo>,
    player: i16,
    idm: IDMapping,
    combine: StrLookup,
    blacklist: StrSet,
) -> bool {
    exists|i: int|
        0 <= i < rows.len() && rows[i].player_id == player && kill_row_included(
            rows[i],
            idm,
            combine,
            blacklist,
        )
}

/// The distinct player ids of the rows, in first-occurrence order.
pub open spec fn spec_player_ids_order(rows: Seq<PlayerInfo>) -> Seq<i16>
    decreases rows.len(),
{
    if rows.len() == 0 {
        Seq::empty()
    } else {
        let prev = spec_player_ids_order(rows.drop_last());
        if prev.contains(rows.last().player_id) {
            prev
        } else {
            prev.push(rows.last().player_id)
        }
    }
}

/// The distinct players with a surviving kill row, in first-occurrence
/// order.
pub open spec fn spec_kill_players_order(
    rows: Seq<KillInfo>,
    idm: IDMapping,
    combine: StrLookup,
    blacklist: StrSet,
) -> Seq<i16>
    decreases rows.len(),
{
    if rows.len() == 0 {
        Seq::empty()
    } else {
        let prev = spec_kill_players_order(rows.drop_last(), idm, combine, blacklist);
        if kill_row_included(rows.last(), idm, combine, blacklist) && !prev.contains(
            rows.last().player_id,
        ) {
            prev.push(rows.last().player_id)
        } else {
            prev
        }
    }
}

/// The distinct canonical entity names of one player's surviving kill rows,
/// in first-occurrence order.
pub open spec fn spec_kill_keys_order(
    rows: Seq<KillInfo>,
    pid: i16,
    idm: IDMapping,
    combine: StrLookup,
    blacklist: StrSet,
) -> Seq<Seq<char>>
    decreases rows.len(),
{
    if rows.len() == 0 {
        Seq::empty()
    } else {
        let prev = spec_kill_keys_order(rows.drop_last(), pid, idm, combine, blacklist);
        let row = rows.last();
        if row.player_id == pid && kill_row_included(row, idm, combine, blacklist) && !prev.contains(
            kill_row_key(row, idm, combine),
        ) {
            prev.push(kill_row_key(row, idm, combine))
        } else {
            prev
        }
    }
}

/// The distinct causing players with an accepted damage row, in
/// first-occurrence order.
pub open spec fn spec_dmg_players_order(
    rows: Seq<DamageInfo>,
    idm: IDMapping,
    combine: StrLookup,
    blacklist: StrSet,
) -> Seq<i16>
    decreases rows.len(),
{
    if rows.len() == 0 {
        Seq::empty()
    } else {
        let prev = spec_dmg_players_order(rows.drop_last(), idm, combine, blacklist);
        if dmg_taker_key(rows.last(), idm, combine, blacklist) is Some && !prev.contains(
            rows.last().causer_id,
        ) {
            prev.push(rows.last().causer_id)
        } else {
            prev
        }
    }
}

/// The distinct taker names of one causer's accepted damage rows, in
/// first-occurrence order.
pub open spec fn spec_dmg_keys_order(
    rows: Seq<DamageInfo>,
    pid: i16,
    idm: IDMapping,
    combine: StrLookup,
    blacklist: StrSet,
) -> Seq<Seq<char>>
    decreases rows.len(),
{
    if rows.len() == 0 {
        Seq::empty()
    } else {
        let prev = spec_dmg_keys_order(rows.drop_last(), pid, idm, combine, blacklist);
        let row = rows.last();
        if row.causer_id == pid && dmg_taker_key(row, idm, combine, blacklist) is Some
            && !prev.contains(dmg_taker_key(row, idm, combine, blacklist)->Some_0) {
            prev.push(dmg_taker_key(row, idm, combine, blacklist)->Some_0)
        } else {
            prev
        }
    }
}

/// The distinct canonical weapon names of the accepted damage rows, in
/// first-occurrence order.
pub open spec fn spec_weapon_keys_order(
    rows: Seq<DamageInfo>,
    idm: IDMapping,
    combine: StrLookup,
    blacklist: StrSet,
    weapon_combine: StrLookup,
) -> Seq<Seq<char>>
    decreases rows.len(),
{
    if rows.len() == 0 {
        Seq::empty()
    } else {
        let prev = spec_weapon_keys_order(rows.drop_last(), idm, combine, blacklist, weapon_combine);
        let row = rows.last();
        if dmg_taker_key(row, idm, combine, blacklist) is Some && !prev.contains(
            dmg_weapon_key(row, idm, weapon_combine),
        ) {
            prev.push(dmg_weapon_key(row, idm, weapon_combine))
        } else {
            prev
        }
    }
}

/// The distinct taker names of one weapon's accepted damage rows, in
/// first-occurrence order.
pub open spec fn spec_weapon_detail_keys_order(
    rows: Seq<DamageInfo>,
    wkey: Seq<char>,
    idm: IDMapping,
    combine: StrLookup,
    blacklist: StrSet,
    weapon_combine: StrLookup,
) -> Seq<Seq<char>>
    decreases rows.len(),
{
    if rows.len() == 0 {
        Seq::empty()
    } else {
        let prev = spec_weapon_detail_keys_order(
            rows.drop_last(),
            wkey,
            idm,
            combine,
            blacklist,
            weapon_combine,
        );
        let row = rows.last();
        if dmg_taker_key(row, idm, combine, blacklist) is Some && dmg_weapon_key(
            row,
            idm,
            weapon_combine,
        ) == wkey && !prev.contains(dmg_taker_key(row, idm, combine, blacklist)->Some_0) {
            prev.push(dmg_taker_key(row, idm, combine, blacklist)->Some_0)
        } else {
            prev
        }
    }
}

/// The distinct players of the resource rows, in first-occurrence order.
pub open spec fn spec_res_players_order(rows: Seq<ResourceInfo>) -> Seq<i16>
    decreases rows.len(),
{
    if rows.len() == 0 {
        Seq::empty()
    } else {
        let prev = spec_res_players_order(rows.drop_last());
        if prev.contains(rows.last().player_id) {
            prev
        } else {
            prev.push(rows.last().player_id)
        }
    }
}

/// The distinct resource names of one player's rows, in first-occurrence
/// order.
pub open spec fn spec_res_keys_order(rows: Seq<ResourceInfo>, pid: i16, idm: IDMapping) -> Seq<
    Seq<char>,
>
    decreases rows.len(),
{
    if rows.len() == 0 {
        Seq::empty()
    } else {
        let prev = spec_res_keys_order(rows.drop_last(), pid, idm);
        let row = rows.last();
        if row.player_id == pid && spec_name_of(idm.id_to_resource_game_id, row.resource_id)
            is Some && !prev.contains(
            spec_name_of(idm.id_to_resource_game_id, row.resource_id)->Some_0,
        ) {
            prev.push(spec_name_of(idm.id_to_resource_game_id, row.resource_id)->Some_0)
        } else {
            prev
        }
    }
}

/// The distinct players of the supply rows, in first-occurrence order.
pub open spec fn spec_supply_players_order(rows: Seq<SupplyInfo>) -> Seq<i16>
    decreases rows.len(),
{
    if rows.len() == 0 {
        Seq::empty()
    } else {
        let prev = spec_supply_players_order(rows.drop_last());
        if prev.contains(rows.last().player_id) {
            prev
        } else {
            prev.push(rows.last().player_id)
        }
    }
}

/// Push `x` unless already present.
pub(crate) fn distinct_push(v: &mut Vec<i16>, x: i16)
    ensures
        final(v)@.contains(x),
        forall|y: i16| final(v)@.contains(y) <==> (old(v)@.contains(y) || y == x),
        old(v)@.contains(x) ==> final(v)@ == old(v)@,
        !old(v)@.contains(x) ==> final(v)@ == old(v)@.push(x),
        forall|i: int, j: int|
            0 <= i < j < old(v)@.len() && old(v)@[i] != old(v)@[j] ==> final(v)@[i] != final(v)@[j],
{
    let n = v.len();
    let mut i: usize = 0;
    while i < n
        invariant
            n == v@.len(),
            0 <= i <= n,
            forall|m: int| 0 <= m < i ==> v@[m] != x,
        decreases n - i,
    {
        if v[i] == x {
            assert(v@.contains(x));
            return ;
        }
        i += 1;
    }
    assert(!v@.contains(x)) by {
        if v@.contains(x) {
            let j = choose|j: int| 0 <= j < v@.len() && v@[j] == x;
        }
    }
    v.push(x);
    assert forall|y: i16| v@.contains(y) <==> (old(v)@.contains(y) || y == x) by {
        assert(v@[old(v)@.len() as int] == x);
        if old(v)@.contains(y) {
            let j = choose|j: int| 0 <= j < old(v)@.len() && old(v)@[j] == y;
            assert(v@[j] == y);
        }
        if v@.contains(y) {
            let j = choose|j: int| 0 <= j < v@.len() && v@[j] == y;
            if j < old(v)@.len() {
                assert(old(v)@[j] == y);
            } else {
                assert(v@[j] == x);
            }
        }
    }
}

/// First pass over the kill rows: reject a row whose entity id is unknown,
/// and gather the distinct player ids that keep at least one row.
fn scan_kill_rows(
    rows: &Vec<KillInfo>,
    idm: &IDMapping,
    combine: &StrLookup,
    blacklist: &StrSet,
) -> (r: Result<Vec<i16>, String>)
    requires
        idm.wf(),
        combine.wf(),
        blacklist.wf(),
    ensures
        match r {
            Ok(players) => {
                &&& forall|i: int| 0 <= i < rows@.len() ==> !kill_row_missing(rows@[i], *idm)
                &&& forall|p: i16|
                    players@.contains(p) <==> kill_player_present(
                        rows@,
                        p,
                        *idm,
                        *combine,
                        *blacklist,
                    )
                &&& forall|i: int, j: int| 0 <= i < j < players@.len() ==> players@[i] != players@[j]
                &&& players@ == spec_kill_players_order(rows@, *idm, *combine, *blacklist)
            },
            Err(_) => exists|i: int| 0 <= i < rows@.len() && kill_row_missing(#[trigger] rows@[i], *idm),
        },
{
    let n = rows.len();
    let mut players: Vec<i16> = Vec::new();
    let mut i: usize = 0;
    while i < n
        invariant
            idm.wf(),
            combine.wf(),
            blacklist.wf(),
            n == rows@.len(),
            0 <= i <= n,
            forall|m: int| 0 <= m < i ==> !kill_row_missing(rows@[m], *idm),
            forall|p: i16|
                players@.contains(p) <==> exists|m: int|
                    0 <= m < i && rows@[m].player_id == p && kill_row_included(
                        rows@[m],
                        *idm,
                        *combine,
                        *blacklist,
                    ),
            forall|a: int, b: int| 0 <= a < b < players@.len() ==> players@[a] != players@[b],
            players@ == spec_kill_players_order(rows@.take(i as int), *idm, *combine, *blacklist),
        decreases n - i,
    {
        proof {
            assert(rows@.take(i as int + 1).drop_last() =~= rows@.take(i as int));
            assert(rows@.take(i as int + 1).last() == rows@[i as int]);
        }
        let row = rows[i];
        match idm.id_to_entity_game_id.get(&row.entity_id) {
            None => {
                return Err("kill record references an unknown entity id".to_owned());
            },
            Some(name) => {
                let combined: &String = match combine.get(name) {
                    Some(c) => c,
                    None => name,
                };
                proof {
                    assert(combined@ == spec_combined(*combine, name@));
                }
                if !blacklist.contains(combined) {
                    distinct_push(&mut players, row.player_id);
                    assert(kill_row_included(rows@[i as int], *idm, *combine, *blacklist));
                } else {
                    assert(!kill_row_included(rows@[i as int], *idm, *combine, *blacklist));
                }
            },
        }
        i += 1;
    }
    proof {
        assert(rows@.take(n as int) =~= rows@);
    }
    Ok(players)
}

/// Second pass: the kill totals of one player, keyed by canonical entity
/// name, as `(taker id of first row, saturating count)`.
fn build_kill_for_player(
    rows: &Vec<KillInfo>,
    pid: i16,
    idm: &IDMapping,
    combine: &StrLookup,
    blacklist: &StrSet,
) -> (r: KMap<String, (i16, i32)>)
    requires
        idm.wf(),
        combine.wf(),
        blacklist.wf(),
        forall|i: int| 0 <= i < rows@.len() ==> !kill_row_missing(#[trigger] rows@[i], *idm),
    ensures
        r.wf(),
        forall|k: Seq<char>|
            #[trigger] r.spec_get(k) == spec_kill_fold(rows@, pid, k, *idm, *combine, *blacklist),
        r.key_seq() == spec_kill_keys_order(rows@, pid, *idm, *combine, *blacklist),
{
    let n = rows.len();
    let mut acc: KMap<String, (i16, i32)> = KMap::empty();
    let mut i: usize = 0;
    while i < n
        invariant
            idm.wf(),
            combine.wf(),
            blacklist.wf(),
            forall|m: int| 0 <= m < rows@.len() ==> !kill_row_missing(#[trigger] rows@[m], *idm),
            n == rows@.len(),
            0 <= i <= n,
            acc.wf(),
            forall|k: Seq<char>|
                #[trigger] acc.spec_get(k) == spec_kill_fold(
                    rows@.take(i as int),
                    pid,
                    k,
                    *idm,
                    *combine,
                    *blacklist,
                ),
            acc.key_seq() == spec_kill_keys_order(
                rows@.take(i as int),
                pid,
                *idm,
                *combine,
                *blacklist,
            ),
        decreases n - i,
    {
        proof {
            assert(rows@.take(i as int + 1).drop_last() =~= rows@.take(i as int));
            assert(rows@.take(i as int + 1).last() == rows@[i as int]);
        }
        let row = rows[i];
        if row.player_id == pid {
            let name = match idm.id_to_entity_game_id.get(&row.entity_id) {
                Some(name) => name,
                None => {
                    proof {
                        assert(!kill_row_missing(rows@[i as int], *idm));
                    }
                    proof {
                        assert(false);
                    }
                    return acc;
                },
            };
            let combined: &String = match combine.get(name) {
                Some(c) => c,
                None => name,
            };
            proof {
                assert(combined@ == kill_row_key(rows@[i as int], *idm, *combine));
            }
            if !blacklist.contains(combined) {
                assert(kill_row_included(rows@[i as int], *idm, *combine, *blacklist));
                let key: String = combined.clone();
                proof {
                    acc.lemma_get_is_contains(key@);
                    acc.lemma_contains_iff_key_seq(key@);
                }
                match acc.get(&key) {
                    Some(pair) => {
                        let tid: i16 = pair.0;
                        let c: i32 = pair.1;
                        let bumped: i32 = if c < i32::MAX {
                            c + 1
                        } else {
                            i32::MAX
                        };
                        acc.set(&key, (tid, bumped));
                    },
                    None => {
                        acc.set(&key, (row.entity_id, 1i32));
                    },
                }
            } else {
                assert(!kill_row_included(rows@[i as int], *idm, *combine, *blacklist));
            }
        }
        i += 1;
    }
    proof {
        assert(rows@.take(n as int) =~= rows@);
    }
    acc
}

/// Turn the accumulated `(taker id, count)` pairs into `KillPack`s, keeping
/// the key order.
fn kill_packs_of(acc: &KMap<String, (i16, i32)>) -> (r: KMap<String, KillPack>)
    requires
        acc.wf(),
    ensures
        r.wf(),
        forall|k: Seq<char>|
            match #[trigger] r.spec_get(k) {
                Some(pack) => acc.spec_get(k) == Some((pack.taker_id, pack.total_amount))
                    && pack.taker_name@ == k,
                None => acc.spec_get(k) is None,
            },
        r.key_seq() == acc.key_seq(),
{
    let n = acc.len();
    let mut out: KMap<String, KillPack> = KMap::empty();
    let mut j: usize = 0;
    while j < n
        invariant
            acc.wf(),
            n == acc.spec_len(),
            0 <= j <= n,
            out.wf(),
            forall|k: Seq<char>|
                match #[trigger] out.spec_get(k) {
                    Some(pack) => acc.spec_get(k) == Some((pack.taker_id, pack.total_amount))
                        && pack.taker_name@ == k && exists|m: int|
                        0 <= m < j && acc.key_seq()[m] == k,
                    None => !exists|m: int| 0 <= m < j && acc.key_seq()[m] == k,
                },
            out.key_seq() == acc.key_seq().take(j as int),
        decreases n - j,
    {
        let key: &String = acc.key_at(j);
        let pair = acc.val_at(j);
        let tid: i16 = pair.0;
        let c: i32 = pair.1;
        proof {
            out.lemma_get_is_contains(key@);
            if out.spec_get(key@) is Some {
                // a duplicate would contradict acc's well-formedness
                let m = choose|m: int| 0 <= m < j && acc.key_seq()[m] == key@;
                assert(acc.key_seq()[m] == acc.key_seq()[j as int]);
                assert(false);
            }
        }
        let pack = KillPack { taker_id: tid, taker_name: key.clone(), total_amount: c };
        out.set(key, pack);
        proof {
            assert(out.key_seq() =~= acc.key_seq().take(j as int + 1));
        }
        proof {
            assert forall|k: Seq<char>|
                match #[trigger] out.spec_get(k) {
                    Some(pack2) => acc.spec_get(k) == Some((pack2.taker_id, pack2.total_amount))
                        && pack2.taker_name@ == k && exists|m: int|
                        0 <= m < j + 1 && acc.key_seq()[m] == k,
                    None => !exists|m: int| 0 <= m < j + 1 && acc.key_seq()[m] == k,
                } by {
                if k == key@ {
                    assert(out.spec_get(k) == Some(pack));
                    assert(acc.key_seq()[j as int] == k);
                } else {
                    if out.spec_get(k) is None {
                        if exists|m: int| 0 <= m < j + 1 && acc.key_seq()[m] == k {
                            let m = choose|m: int| 0 <= m < j + 1 && acc.key_seq()[m] == k;
                            assert(m < j);
                        }
                    }
                }
            }
        }
        j += 1;
    }
    proof {
        assert(out.key_seq() =~= acc.key_seq());
        assert forall|k: Seq<char>|
            match #[trigger] out.spec_get(k) {
                Some(pack) => acc.spec_get(k) == Some((pack.taker_id, pack.total_amount))
                    && pack.taker_name@ == k,
                None => acc.spec_get(k) is None,
            } by {
            acc.lemma_get_is_contains(k);
            if out.spec_get(k) is None {
                if acc.spec_get(k) is Some {
                    assert(acc.contains_key(k));
                    let m = choose|m: int|
                        0 <= m < acc.spec_len() && acc.key_seq()[m] == k;
                    assert(false);
                }
            }
        }
    }
    out
}

// ---------------------------------------------------------------------------
// Damage rows
// ---------------------------------------------------------------------------
/// The taker name a damage row accumulates under: `None` for rows that are
/// skipped (non-player causer, blacklisted entity taker) or whose ids are
/// unknown. A player taker counts under the player's name, an entity taker
/// under its canonical entity name.
pub open spec fn dmg_taker_key(
    row: DamageInfo,
    idm: IDMapping,
    combine: StrLookup,
    blacklist: StrSet,
) -> Option<Seq<char>> {
    if row.causer_type != 1 {
        None
    } else if row.taker_type == 1 {
        spec_name_of(idm.id_to_player_name, row.taker_id)
    } else {
        match spec_name_of(idm.id_to_entity_game_id, row.taker_id) {
            Some(n) => if blacklist.contains_key(spec_combined(combine, n)) {
                None
            } else {
                Some(spec_combined(combine, n))
            },
            None => None,
        }
    }
}

/// A damage row that hits an id the lookup tables must know but do not:
/// a hard failure for the mission.
pub open spec fn dmg_row_missing(
    row: DamageInfo,
    idm: IDMapping,
    combine: StrLookup,
    blacklist: StrSet,
) -> bool {
    row.causer_type == 1 && if row.taker_type == 1 {
        spec_name_of(idm.id_to_player_name, row.taker_id) is None || spec_name_of(
            idm.id_to_weapon_game_id,
            row.weapon_id,
        ) is None
    } else {
        match spec_name_of(idm.id_to_entity_game_id, row.taker_id) {
            None => true,
            Some(n) => !blacklist.contains_key(spec_combined(combine, n)) && spec_name_of(
                idm.id_to_weapon_game_id,
                row.weapon_id,
            ) is None,
        }
    }
}

/// The canonical weapon name of a damage row (meaningful only for rows the
/// taker key accepts).
pub open spec fn dmg_weapon_key(
    row: DamageInfo,
    idm: IDMapping,
    weapon_combine: StrLookup,
) -> Seq<char> {
    match spec_name_of(idm.id_to_weapon_game_id, row.weapon_id) {
        Some(n) => spec_combined(weapon_combine, n),
        None => Seq::empty(),
    }
}

/// Folding the damage rows of one causing player onto one taker name.
pub open spec fn spec_dmg_fold(
    rows: Seq<DamageInfo>,
    causer: i16,
    key: Seq<char>,
    idm: IDMapping,
    combine: StrLookup,
    blacklist: StrSet,
) -> Option<DamagePack>
    decreases rows.len(),
{
    if rows.len() == 0 {
        None
    } else {
        let prev = spec_dmg_fold(rows.drop_last(), causer, key, idm, combine, blacklist);
        let row = rows.last();
        if row.causer_id == causer && dmg_taker_key(row, idm, combine, blacklist) == Some(key) {
            match prev {
                None => Some(
                    DamagePack {
                        taker_id: row.taker_id,
                        taker_type: row.taker_type,
                        weapon_id: row.weapon_id,
                        total_amount: row.damage,
                    },
                ),
                Some(p) => Some(
                    DamagePack {
                        taker_id: p.taker_id,
                        taker_type: p.taker_type,
                        weapon_id: p.weapon_id,
                        total_amount: spec_sat_add(p.total_amount as int, row.damage as int) as i64,
                    },
                ),
            }
        } else {
            prev
        }
    }
}

/// Folding all accepted damage rows onto one (weapon name, taker name) cell.
pub open spec fn spec_weapon_fold(
    rows: Seq<DamageInfo>,
    wkey: Seq<char>,
    tkey: Seq<char>,
    idm: IDMapping,
    combine: StrLookup,
    blacklist: StrSet,
    weapon_combine: StrLookup,
) -> Option<DamagePack>
    decreases rows.len(),
{
    if rows.len() == 0 {
        None
    } else {
        let prev = spec_weapon_fold(
            rows.drop_last(),
            wkey,
            tkey,
            idm,
            combine,
            blacklist,
            weapon_combine,
        );
        let row = rows.last();
        if dmg_taker_key(row, idm, combine, blacklist) == Some(tkey) && dmg_weapon_key(
            row,
            idm,
            weapon_combine,
        ) == wkey {
            match prev {
                None => Some(
                    DamagePack {
                        taker_id: row.taker_id,
                        taker_type: row.taker_type,
                        weapon_id: row.weapon_id,
                        total_amount: row.damage,
                    },
                ),
                Some(p) => Some(
                    DamagePack {
                        taker_id: p.taker_id,
                        taker_type: p.taker_type,
                        weapon_id: p.weapon_id,
                        total_amount: spec_sat_add(p.total_amount as int, row.damage as int) as i64,
                    },
                ),
            }
        } else {
            prev
        }
    }
}

/// The last weapon id carrying a given name, scanning the lookup table in
/// insertion order.
pub open spec fn spec_rev_weapon(keys: Seq<i16>, vals: Seq<String>, name: Seq<char>) -> Option<i16>
    decreases keys.len(),
{
    if keys.len() == 0 || keys.len() != vals.len() {
        None
    } else if vals.last()@ == name {
        Some(keys.last())
    } else {
        spec_rev_weapon(keys.drop_last(), vals.drop_last(), name)
    }
}

/// Build the name-to-id reverse of the weapon table; on duplicate names the
/// later id wins.
fn build_weapon_reverse(weapons: &KMap<i16, String>) -> (r: KMap<String, i16>)
    requires
        weapons.wf(),
    ensures
        r.wf(),
        forall|name: Seq<char>|
            #[trigger] r.spec_get(name) == spec_rev_weapon(
                weapons.key_seq(),
                weapons.val_seq(),
                name,
            ),
{
    let n = weapons.len();
    let mut rev: KMap<String, i16> = KMap::empty();
    let mut i: usize = 0;
    while i < n
        invariant
            weapons.wf(),
            n == weapons.spec_len(),
            0 <= i <= n,
            rev.wf(),
            forall|name: Seq<char>|
                #[trigger] rev.spec_get(name) == spec_rev_weapon(
                    weapons.key_seq().take(i as int),
                    weapons.val_seq().take(i as int),
                    name,
                ),
        decreases n - i,
    {
        proof {
            assert(weapons.key_seq().take(i as int + 1).drop_last() =~= weapons.key_seq().take(
                i as int,
            ));
            assert(weapons.val_seq().take(i as int + 1).drop_last() =~= weapons.val_seq().take(
                i as int,
            ));
        }
        let name: &String = weapons.val_at(i);
        let id: &i16 = weapons.key_at(i);
        rev.set(name, *id);
        proof {
            assert(weapons.val_seq().take(i as int + 1).last()@ == name@);
            assert(weapons.key_seq().take(i as int + 1).last() == weapons.key_seq()[i as int]);
        }
        i += 1;
    }
    proof {
        assert(weapons.key_seq().take(n as int) =~= weapons.key_seq());
        assert(weapons.val_seq().take(n as int) =~= weapons.val_seq());
    }
    rev
}

/// First pass over the damage rows: reject unknown ids, require the combined
/// weapon name of every accepted row to be a known weapon, and gather the
/// distinct causing players and the distinct canonical weapon names.
fn scan_damage_rows(
    rows: &Vec<DamageInfo>,
    idm: &IDMapping,
    combine: &StrLookup,
    blacklist: &StrSet,
    weapon_combine: &StrLookup,
    rev: &KMap<String, i16>,
) -> (r: Result<(Vec<i16>, KMap<String, ()>), String>)
    requires
        idm.wf(),
        combine.wf(),
        blacklist.wf(),
        weapon_combine.wf(),
        rev.wf(),
        forall|name: Seq<char>|
            #[trigger] rev.spec_get(name) == spec_rev_weapon(
                idm.id_to_weapon_game_id.key_seq(),
                idm.id_to_weapon_game_id.val_seq(),
                name,
            ),
    ensures
        match r {
            Ok(pair) => {
                &&& forall|i: int|
                    0 <= i < rows@.len() ==> !dmg_row_missing(
                        #[trigger] rows@[i],
                        *idm,
                        *combine,
                        *blacklist,
                    )
                &&& forall|i: int|
                    0 <= i < rows@.len() && (#[trigger] dmg_taker_key(
                        rows@[i],
                        *idm,
                        *combine,
                        *blacklist,
                    )) is Some ==> spec_rev_weapon(
                        idm.id_to_weapon_game_id.key_seq(),
                        idm.id_to_weapon_game_id.val_seq(),
                        dmg_weapon_key(rows@[i], *idm, *weapon_combine),
                    ) is Some
                &&& forall|p: i16|
                    pair.0@.contains(p) <==> exists|i: int|
                        0 <= i < rows@.len() && rows@[i].causer_id == p && (#[trigger] dmg_taker_key(
                            rows@[i],
                            *idm,
                            *combine,
                            *blacklist,
                        )) is Some
                &&& forall|a: int, b: int| 0 <= a < b < pair.0@.len() ==> pair.0@[a] != pair.0@[b]
                &&& pair.0@ == spec_dmg_players_order(rows@, *idm, *combine, *blacklist)
                &&& pair.1.wf()
                &&& forall|w: Seq<char>|
                    pair.1.contains_key(w) <==> exists|i: int|
                        0 <= i < rows@.len() && (#[trigger] dmg_taker_key(
                            rows@[i],
                            *idm,
                            *combine,
                            *blacklist,
                        )) is Some && dmg_weapon_key(rows@[i], *idm, *weapon_combine) == w
                &&& pair.1.key_seq() == spec_weapon_keys_order(
                    rows@,
                    *idm,
                    *combine,
                    *blacklist,
                    *weapon_combine,
                )
            },
            Err(_) => (exists|i: int|
                0 <= i < rows@.len() && dmg_row_missing(
                    #[trigger] rows@[i],
                    *idm,
                    *combine,
                    *blacklist,
                )) || (exists|i: int|
                0 <= i < rows@.len() && (#[trigger] dmg_taker_key(
                    rows@[i],
                    *idm,
                    *combine,
                    *blacklist,
                )) is Some && spec_rev_weapon(
                    idm.id_to_weapon_game_id.key_seq(),
                    idm.id_to_weapon_game_id.val_seq(),
                    dmg_weapon_key(rows@[i], *idm, *weapon_combine),
                ) is None),
        },
{
    let n = rows.len();
    let mut players: Vec<i16> = Vec::new();
    let mut wkeys: KMap<String, ()> = KMap::empty();
    let mut i: usize = 0;
    while i < n
        invariant
            idm.wf(),
            combine.wf(),
            blacklist.wf(),
            weapon_combine.wf(),
            rev.wf(),
            forall|name: Seq<char>|
                #[trigger] rev.spec_get(name) == spec_rev_weapon(
                    idm.id_to_weapon_game_id.key_seq(),
                    idm.id_to_weapon_game_id.val_seq(),
                    name,
                ),
            n == rows@.len(),
            0 <= i <= n,
            forall|m: int|
                0 <= m < i ==> !dmg_row_missing(#[trigger] rows@[m], *idm, *combine, *blacklist),
            forall|m: int|
                0 <= m < i && (#[trigger] dmg_taker_key(
                    rows@[m],
                    *idm,
                    *combine,
                    *blacklist,
                )) is Some ==> spec_rev_weapon(
                    idm.id_to_weapon_game_id.key_seq(),
                    idm.id_to_weapon_game_id.val_seq(),
                    dmg_weapon_key(rows@[m], *idm, *weapon_combine),
                ) is Some,
            forall|p: i16|
                players@.contains(p) <==> exists|m: int|
                    0 <= m < i && rows@[m].causer_id == p && (#[trigger] dmg_taker_key(
                        rows@[m],
                        *idm,
                        *combine,
                        *blacklist,
                    )) is Some,
            forall|a: int, b: int| 0 <= a < b < players@.len() ==> players@[a] != players@[b],
            players@ == spec_dmg_players_order(rows@.take(i as int), *idm, *combine, *blacklist),
            wkeys.wf(),
            forall|w: Seq<char>|
                wkeys.contains_key(w) <==> exists|m: int|
                    0 <= m < i && (#[trigger] dmg_taker_key(
                        rows@[m],
                        *idm,
                        *combine,
                        *blacklist,
                    )) is Some && dmg_weapon_key(rows@[m], *idm, *weapon_combine) == w,
            wkeys.key_seq() == spec_weapon_keys_order(
                rows@.take(i as int),
                *idm,
                *combine,
                *blacklist,
                *weapon_combine,
            ),
        decreases n - i,
    {
        proof {
            assert(rows@.take(i as int + 1).drop_last() =~= rows@.take(i as int));
            assert(rows@.take(i as int + 1).last() == rows@[i as int]);
        }
        let row = rows[i];
        if row.causer_type == 1 {
            let accepted: bool;
            if row.taker_type == 1 {
                match idm.id_to_player_name.get(&row.taker_id) {
                    None => {
                        return Err("damage record references an unknown player id".to_owned());
                    },
                    Some(_) => {
                        accepted = true;
                    },
                }
            } else {
                match idm.id_to_entity_game_id.get(&row.taker_id) {
                    None => {
                        return Err("damage record references an unknown entity id".to_owned());
                    },
                    Some(name) => {
                        let combined: &String = match combine.get(name) {
                            Some(c) => c,
                            None => name,
                        };
                        accepted = !blacklist.contains(combined);
                    },
                }
            }
            if accepted {
                let wname = match idm.id_to_weapon_game_id.get(&row.weapon_id) {
                    None => {
                        return Err("damage record references an unknown weapon id".to_owned());
                    },
                    Some(wname) => wname,
                };
                let wcombined: &String = match weapon_combine.get(wname) {
                    Some(c) => c,
                    None => wname,
                };
                proof {
                    assert(wcombined@ == dmg_weapon_key(rows@[i as int], *idm, *weapon_combine));
                }
                proof {
                    rev.lemma_get_is_contains(wcombined@);
                    assert(dmg_taker_key(rows@[i as int], *idm, *combine, *blacklist) is Some);
                }
                if !rev.contains(wcombined) {
                    return Err("damage record maps to an unknown combined weapon".to_owned());
                }
                distinct_push(&mut players, row.causer_id);
                let ghost pre_wkeys = wkeys;
                proof {
                    pre_wkeys.lemma_get_is_contains(wcombined@);
                    pre_wkeys.lemma_contains_iff_key_seq(wcombined@);
                }
                wkeys.set(wcombined, ());
                proof {
                    wkeys.lemma_get_is_contains(wcombined@);
                    assert forall|w: Seq<char>|
                        wkeys.contains_key(w) <==> (pre_wkeys.contains_key(w) || w
                            == wcombined@) by {
                        pre_wkeys.lemma_contains_iff_key_seq(w);
                        wkeys.lemma_contains_iff_key_seq(w);
                        if pre_wkeys.key_seq().contains(w) {
                            let j = choose|j: int|
                                0 <= j < pre_wkeys.key_seq().len() && pre_wkeys.key_seq()[j] == w;
                            assert(wkeys.key_seq()[j] == w);
                        }
                        if wkeys.key_seq().contains(w) {
                            let j = choose|j: int|
                                0 <= j < wkeys.key_seq().len() && wkeys.key_seq()[j] == w;
                            if j < pre_wkeys.key_seq().len() {
                                assert(pre_wkeys.key_seq()[j] == w);
                            }
                        }
                        if w == wcombined@ && !pre_wkeys.contains_key(w) {
                            assert(wkeys.key_seq()[pre_wkeys.spec_len() as int] == w);
                        }
                    }
                }
            } else {
                proof {
                    assert(dmg_taker_key(rows@[i as int], *idm, *combine, *blacklist) is None);
                    assert(!dmg_row_missing(rows@[i as int], *idm, *combine, *blacklist));
                }
            }
        } else {
            proof {
                assert(dmg_taker_key(rows@[i as int], *idm, *combine, *blacklist) is None);
                assert(!dmg_row_missing(rows@[i as int], *idm, *combine, *blacklist));
            }
        }
        i += 1;
    }
    proof {
        assert(rows@.take(n as int) =~= rows@);
    }
    Ok((players, wkeys))
}

/// Second pass: one causing player's damage totals, keyed by taker name.
fn build_damage_for_player(
    rows: &Vec<DamageInfo>,
    pid: i16,
    idm: &IDMapping,
    combine: &StrLookup,
    blacklist: &StrSet,
) -> (r: KMap<String, DamagePack>)
    requires
        idm.wf(),
        combine.wf(),
        blacklist.wf(),
        forall|i: int|
            0 <= i < rows@.len() ==> !dmg_row_missing(
                #[trigger] rows@[i],
                *idm,
                *combine,
                *blacklist,
            ),
    ensures
        r.wf(),
        forall|k: Seq<char>|
            #[trigger] r.spec_get(k) == spec_dmg_fold(rows@, pid, k, *idm, *combine, *blacklist),
        r.key_seq() == spec_dmg_keys_order(rows@, pid, *idm, *combine, *blacklist),
{
    let n = rows.len();
    let mut acc: KMap<String, DamagePack> = KMap::empty();
    let mut i: usize = 0;
    while i < n
        invariant
            idm.wf(),
            combine.wf(),
            blacklist.wf(),
            forall|m: int|
                0 <= m < rows@.len() ==> !dmg_row_missing(
                    #[trigger] rows@[m],
                    *idm,
                    *combine,
                    *blacklist,
                ),
            n == rows@.len(),
            0 <= i <= n,
            acc.wf(),
            forall|k: Seq<char>|
                #[trigger] acc.spec_get(k) == spec_dmg_fold(
                    rows@.take(i as int),
                    pid,
                    k,
                    *idm,
                    *combine,
                    *blacklist,
                ),
            acc.key_seq() == spec_dmg_keys_order(
                rows@.take(i as int),
                pid,
                *idm,
                *combine,
                *blacklist,
            ),
        decreases n - i,
    {
        proof {
            assert(rows@.take(i as int + 1).drop_last() =~= rows@.take(i as int));
            assert(rows@.take(i as int + 1).last() == rows@[i as int]);
        }
        let row = rows[i];
        if row.causer_id == pid && row.causer_type == 1 {
            let key_opt: Option<String> = if row.taker_type == 1 {
                match idm.id_to_player_name.get(&row.taker_id) {
                    Some(name) => Some(name.clone()),
                    None => {
                        proof {
                            assert(dmg_row_missing(rows@[i as int], *idm, *combine, *blacklist));
                            assert(false);
                        }
                        None
                    },
                }
            } else {
                match idm.id_to_entity_game_id.get(&row.taker_id) {
                    Some(name) => {
                        let combined: &String = match combine.get(name) {
                            Some(c) => c,
                            None => name,
                        };
                        if blacklist.contains(combined) {
                            None
                        } else {
                            Some(combined.clone())
                        }
                    },
                    None => {
                        proof {
                            assert(dmg_row_missing(rows@[i as int], *idm, *combine, *blacklist));
                            assert(false);
                        }
                        None
                    },
                }
            };
            match key_opt {
                Some(key) => {
                    proof {
                        assert(dmg_taker_key(rows@[i as int], *idm, *combine, *blacklist) == Some(
                            key@,
                        ));
                        acc.lemma_get_is_contains(key@);
                        acc.lemma_contains_iff_key_seq(key@);
                    }
                    match acc.get(&key) {
                        Some(p) => {
                            let updated = DamagePack {
                                taker_id: p.taker_id,
                                taker_type: p.taker_type,
                                weapon_id: p.weapon_id,
                                total_amount: sat_add(p.total_amount, row.damage),
                            };
                            acc.set(&key, updated);
                        },
                        None => {
                            acc.set(
                                &key,
                                DamagePack {
                                    taker_id: row.taker_id,
                                    taker_type: row.taker_type,
                                    weapon_id: row.weapon_id,
                                    total_amount: row.damage,
                                },
                            );
                        },
                    }
                },
                None => {
                    proof {
                        assert(dmg_taker_key(rows@[i as int], *idm, *combine, *blacklist) is None);
                    }
                },
            }
        }
        i += 1;
    }
    proof {
        assert(rows@.take(n as int) =~= rows@);
    }
    acc
}

/// Second pass for the weapon view: one canonical weapon's damage, keyed by
/// taker name.
fn build_damage_for_weapon(
    rows: &Vec<DamageInfo>,
    wkey: &String,
    idm: &IDMapping,
    combine: &StrLookup,
    blacklist: &StrSet,
    weapon_combine: &StrLookup,
) -> (r: KMap<String, DamagePack>)
    requires
        idm.wf(),
        combine.wf(),
        blacklist.wf(),
        weapon_combine.wf(),
        forall|i: int|
            0 <= i < rows@.len() ==> !dmg_row_missing(
                #[trigger] rows@[i],
                *idm,
                *combine,
                *blacklist,
            ),
    ensures
        r.wf(),
        forall|k: Seq<char>|
            #[trigger] r.spec_get(k) == spec_weapon_fold(
                rows@,
                wkey@,
                k,
                *idm,
                *combine,
                *blacklist,
                *weapon_combine,
            ),
        r.key_seq() == spec_weapon_detail_keys_order(
            rows@,
            wkey@,
            *idm,
            *combine,
            *blacklist,
            *weapon_combine,
        ),
{
    let n = rows.len();
    let mut acc: KMap<String, DamagePack> = KMap::empty();
    let mut i: usize = 0;
    while i < n
        invariant
            idm.wf(),
            combine.wf(),
            blacklist.wf(),
            weapon_combine.wf(),
            forall|m: int|
                0 <= m < rows@.len() ==> !dmg_row_missing(
                    #[trigger] rows@[m],
                    *idm,
                    *combine,
                    *blacklist,
                ),
            n == rows@.len(),
            0 <= i <= n,
            acc.wf(),
            forall|k: Seq<char>|
                #[trigger] acc.spec_get(k) == spec_weapon_fold(
                    rows@.take(i as int),
                    wkey@,
                    k,
                    *idm,
                    *combine,
                    *blacklist,
                    *weapon_combine,
                ),
            acc.key_seq() == spec_weapon_detail_keys_order(
                rows@.take(i as int),
                wkey@,
                *idm,
                *combine,
                *blacklist,
                *weapon_combine,
            ),
        decreases n - i,
    {
        proof {
            assert(rows@.take(i as int + 1).drop_last() =~= rows@.take(i as int));
            assert(rows@.take(i as int + 1).last() == rows@[i as int]);
        }
        let row = rows[i];
        if row.causer_type == 1 {
            let key_opt: Option<String> = if row.taker_type == 1 {
                match idm.id_to_player_name.get(&row.taker_id) {
                    Some(name) => Some(name.clone()),
                    None => {
                        proof {
                            assert(false);
                        }
                        None
                    },
                }
            } else {
                match idm.id_to_entity_game_id.get(&row.taker_id) {
                    Some(name) => {
                        let combined: &String = match combine.get(name) {
                            Some(c) => c,
                            None => name,
                        };
                        if blacklist.contains(combined) {
                            None
                        } else {
                            Some(combined.clone())
                        }
                    },
                    None => {
                        proof {
                            assert(false);
                        }
                        None
                    },
                }
            };
            match key_opt {
                Some(key) => {
                    proof {
                        assert(dmg_taker_key(rows@[i as int], *idm, *combine, *blacklist) == Some(
                            key@,
                        ));
                    }
                    let wname = match idm.id_to_weapon_game_id.get(&row.weapon_id) {
                        Some(wname) => wname,
                        None => {
                            proof {
                                assert(false);
                            }
                            return acc;
                        },
                    };
                    let wcombined: &String = match weapon_combine.get(wname) {
                        Some(c) => c,
                        None => wname,
                    };
                    proof {
                        assert(wcombined@ == dmg_weapon_key(
                            rows@[i as int],
                            *idm,
                            *weapon_combine,
                        ));
                    }
                    if crate::text::str_eq(wcombined.as_str(), wkey.as_str()) {
                        proof {
                            acc.lemma_get_is_contains(key@);
                            acc.lemma_contains_iff_key_seq(key@);
                        }
                        match acc.get(&key) {
                            Some(p) => {
                                let updated = DamagePack {
                                    taker_id: p.taker_id,
                                    taker_type: p.taker_type,
                                    weapon_id: p.weapon_id,
                                    total_amount: sat_add(p.total_amount, row.damage),
                                };
                                acc.set(&key, updated);
                            },
                            None => {
                                acc.set(
                                    &key,
                                    DamagePack {
                                        taker_id: row.taker_id,
                                        taker_type: row.taker_type,
                                        weapon_id: row.weapon_id,
                                        total_amount: row.damage,
                                    },
                                );
                            },
                        }
                    }
                },
                None => {
                    proof {
                        assert(dmg_taker_key(rows@[i as int], *idm, *combine, *blacklist) is None);
                    }
                },
            }
        }
        i += 1;
    }
    proof {
        assert(rows@.take(n as int) =~= rows@);
    }
    acc
}

// ---------------------------------------------------------------------------
// Resource rows
// ---------------------------------------------------------------------------
/// A resource row whose resource id the table does not know.
pub open spec fn res_row_missing(row: ResourceInfo, idm: IDMapping) -> bool {
    spec_name_of(idm.id_to_resource_game_id, row.resource_id) is None
}

/// Folding the resource rows of one player onto one resource name.
pub open spec fn spec_res_fold(
    rows: Seq<ResourceInfo>,
    player: i16,
    key: Seq<char>,
    idm: IDMapping,
) -> Option<i64>
    decreases rows.len(),
{
    if rows.len() == 0 {
        None
    } else {
        let prev = spec_res_fold(rows.drop_last(), player, key, idm);
        let row = rows.last();
        if row.player_id == player && spec_name_of(idm.id_to_resource_game_id, row.resource_id)
            == Some(key) {
            let base: int = match prev {
                None => 0,
                Some(v) => v as int,
            };
            Some(spec_sat_add(base, row.amount as int) as i64)
        } else {
            prev
        }
    }
}

/// First pass over the resource rows: reject unknown resource ids and gather
/// the distinct player ids.
fn scan_resource_rows(rows: &Vec<ResourceInfo>, idm: &IDMapping) -> (r: Result<Vec<i16>, String>)
    requires
        idm.wf(),
    ensures
        match r {
            Ok(players) => {
                &&& forall|i: int| 0 <= i < rows@.len() ==> !res_row_missing(#[trigger] rows@[i], *idm)
                &&& forall|p: i16|
                    players@.contains(p) <==> exists|i: int|
                        0 <= i < rows@.len() && (#[trigger] rows@[i]).player_id == p
                &&& forall|a: int, b: int| 0 <= a < b < players@.len() ==> players@[a] != players@[b]
                &&& players@ == spec_res_players_order(rows@)
            },
            Err(_) => exists|i: int| 0 <= i < rows@.len() && res_row_missing(#[trigger] rows@[i], *idm),
        },
{
    let n = rows.len();
    let mut players: Vec<i16> = Vec::new();
    let mut i: usize = 0;
    while i < n
        invariant
            idm.wf(),
            n == rows@.len(),
            0 <= i <= n,
            forall|m: int| 0 <= m < i ==> !res_row_missing(#[trigger] rows@[m], *idm),
            forall|p: i16|
                players@.contains(p) <==> exists|m: int|
                    0 <= m < i && (#[trigger] rows@[m]).player_id == p,
            forall|a: int, b: int| 0 <= a < b < players@.len() ==> players@[a] != players@[b],
            players@ == spec_res_players_order(rows@.take(i as int)),
        decreases n - i,
    {
        proof {
            assert(rows@.take(i as int + 1).drop_last() =~= rows@.take(i as int));
            assert(rows@.take(i as int + 1).last() == rows@[i as int]);
        }
        let row = rows[i];
        if idm.id_to_resource_game_id.get(&row.resource_id).is_none() {
            return Err("resource record references an unknown resource id".to_owned());
        }
        distinct_push(&mut players, row.player_id);
        i += 1;
    }
    proof {
        assert(rows@.take(n as int) =~= rows@);
    }
    Ok(players)
}

/// Second pass: one player's collected amounts, keyed by resource name.
fn build_resource_for_player(rows: &Vec<ResourceInfo>, pid: i16, idm: &IDMapping) -> (r: KMap<
    String,
    i64,
>)
    requires
        idm.wf(),
        forall|i: int| 0 <= i < rows@.len() ==> !res_row_missing(#[trigger] rows@[i], *idm),
    ensures
        r.wf(),
        forall|k: Seq<char>| #[trigger] r.spec_get(k) == spec_res_fold(rows@, pid, k, *idm),
        r.key_seq() == spec_res_keys_order(rows@, pid, *idm),
{
    let n = rows.len();
    let mut acc: KMap<String, i64> = KMap::empty();
    let mut i: usize = 0;
    while i < n
        invariant
            idm.wf(),
            forall|m: int| 0 <= m < rows@.len() ==> !res_row_missing(#[trigger] rows@[m], *idm),
            n == rows@.len(),
            0 <= i <= n,
            acc.wf(),
            forall|k: Seq<char>|
                #[trigger] acc.spec_get(k) == spec_res_fold(rows@.take(i as int), pid, k, *idm),
            acc.key_seq() == spec_res_keys_order(rows@.take(i as int), pid, *idm),
        decreases n - i,
    {
        proof {
            assert(rows@.take(i as int + 1).drop_last() =~= rows@.take(i as int));
            assert(rows@.take(i as int + 1).last() == rows@[i as int]);
        }
        let row = rows[i];
        if row.player_id == pid {
            match idm.id_to_resource_game_id.get(&row.resource_id) {
                Some(name) => {
                    let key: String = name.clone();
                    proof {
                        acc.lemma_contains_iff_key_seq(key@);
                        acc.lemma_get_is_contains(key@);
                    }
                    acc.accumulate(&key, row.amount);
                },
                None => {
                    proof {
                        assert(false);
                    }
                },
            }
        }
        i += 1;
    }
    proof {
        assert(rows@.take(n as int) =~= rows@);
    }
    acc
}

// ---------------------------------------------------------------------------
// Supply rows
// ---------------------------------------------------------------------------
/// The supply-use records of one player, in event order.
pub open spec fn spec_supply_fold(rows: Seq<SupplyInfo>, player: i16) -> Seq<SupplyPack>
    decreases rows.len(),
{
    if rows.len() == 0 {
        Seq::empty()
    } else {
        let prev = spec_supply_fold(rows.drop_last(), player);
        let row = rows.last();
        if row.player_id == player {
            prev.push(SupplyPack { ammo: row.ammo, health: row.health })
        } else {
            prev
        }
    }
}

/// Distinct player ids over the supply rows, in first-occurrence order.
fn scan_supply_rows(rows: &Vec<SupplyInfo>) -> (players: Vec<i16>)
    ensures
        forall|p: i16|
            players@.contains(p) <==> exists|i: int|
                0 <= i < rows@.len() && (#[trigger] rows@[i]).player_id == p,
        forall|a: int, b: int| 0 <= a < b < players@.len() ==> players@[a] != players@[b],
        players@ == spec_supply_players_order(rows@),
{
    let n = rows.len();
    let mut players: Vec<i16> = Vec::new();
    let mut i: usize = 0;
    while i < n
        invariant
            n == rows@.len(),
            0 <= i <= n,
            forall|p: i16|
                players@.contains(p) <==> exists|m: int|
                    0 <= m < i && (#[trigger] rows@[m]).player_id == p,
            forall|a: int, b: int| 0 <= a < b < players@.len() ==> players@[a] != players@[b],
            players@ == spec_supply_players_order(rows@.take(i as int)),
        decreases n - i,
    {
        proof {
            assert(rows@.take(i as int + 1).drop_last() =~= rows@.take(i as int));
            assert(rows@.take(i as int + 1).last() == rows@[i as int]);
        }
        distinct_push(&mut players, rows[i].player_id);
        i += 1;
    }
    proof {
        assert(rows@.take(n as int) =~= rows@);
    }
    players
}

/// Second pass: one player's supply-use records.
fn build_supply_for_player(rows: &Vec<SupplyInfo>, pid: i16) -> (r: Vec<SupplyPack>)
    ensures
        r@ == spec_supply_fold(rows@, pid),
{
    let n = rows.len();
    let mut out: Vec<SupplyPack> = Vec::new();
    let mut i: usize = 0;
    while i < n
        invariant
            n == rows@.len(),
            0 <= i <= n,
            out@ == spec_supply_fold(rows@.take(i as int), pid),
        decreases n - i,
    {
        proof {
            assert(rows@.take(i as int + 1).drop_last() =~= rows@.take(i as int));
            assert(rows@.take(i as int + 1).last() == rows@[i as int]);
        }
        let row = rows[i];
        if row.player_id == pid {
            out.push(SupplyPack { ammo: row.ammo, health: row.health });
        }
        i += 1;
    }
    proof {
        assert(rows@.take(n as int) =~= rows@);
    }
    out
}

// ---------------------------------------------------------------------------
// Player rows
// ---------------------------------------------------------------------------
/// The presence ratio of the last row for a player, fixed-point.
pub open spec fn spec_player_index_fold(rows: Seq<PlayerInfo>, mt: int, pid: i16) -> Option<i64>
    decreases rows.len(),
{
    if rows.len() == 0 {
        None
    } else if rows.last().player_id == pid {
        Some(crate::fx::spec_fx_div(rows.last().present_time as int, mt) as i64)
    } else {
        spec_player_index_fold(rows.drop_last(), mt, pid)
    }
}

/// The revive count of the last row for a player.
pub open spec fn spec_revive_fold(rows: Seq<PlayerInfo>, pid: i16) -> Option<i16>
    decreases rows.len(),
{
    if rows.len() == 0 {
        None
    } else if rows.last().player_id == pid {
        Some(rows.last().revive_num)
    } else {
        spec_revive_fold(rows.drop_last(), pid)
    }
}

/// The death count of the last row for a player.
pub open spec fn spec_death_fold(rows: Seq<PlayerInfo>, pid: i16) -> Option<i16>
    decreases rows.len(),
{
    if rows.len() == 0 {
        None
    } else if rows.last().player_id == pid {
        Some(rows.last().death_num)
    } else {
        spec_death_fold(rows.drop_last(), pid)
    }
}

/// Build the presence, revive and death tables from the player rows.
fn build_player_stats(rows: &Vec<PlayerInfo>, mission_time: i16) -> (r: (
    KMap<i16, i64>,
    KMap<i16, i16>,
    KMap<i16, i16>,
))
    requires
        mission_time >= 1,
        forall|i: int| 0 <= i < rows@.len() ==> (#[trigger] rows@[i]).present_time >= 0,
    ensures
        r.0.wf(),
        r.1.wf(),
        r.2.wf(),
        forall|pid: i16|
            #[trigger] r.0.spec_get(pid) == spec_player_index_fold(
                rows@,
                mission_time as int,
                pid,
            ),
        forall|pid: i16| #[trigger] r.1.spec_get(pid) == spec_revive_fold(rows@, pid),
        forall|pid: i16| #[trigger] r.2.spec_get(pid) == spec_death_fold(rows@, pid),
        r.0.key_seq() == spec_player_ids_order(rows@),
        r.1.key_seq() == spec_player_ids_order(rows@),
        r.2.key_seq() == spec_player_ids_order(rows@),
{
    let n = rows.len();
    let mut index_map: KMap<i16, i64> = KMap::empty();
    let mut revive_map: KMap<i16, i16> = KMap::empty();
    let mut death_map: KMap<i16, i16> = KMap::empty();
    let mut i: usize = 0;
    while i < n
        invariant
            mission_time >= 1,
            forall|m: int| 0 <= m < rows@.len() ==> (#[trigger] rows@[m]).present_time >= 0,
            n == rows@.len(),
            0 <= i <= n,
            index_map.wf(),
            revive_map.wf(),
            death_map.wf(),
            forall|pid: i16|
                #[trigger] index_map.spec_get(pid) == spec_player_index_fold(
                    rows@.take(i as int),
                    mission_time as int,
                    pid,
                ),
            forall|pid: i16|
                #[trigger] revive_map.spec_get(pid) == spec_revive_fold(rows@.take(i as int), pid),
            forall|pid: i16|
                #[trigger] death_map.spec_get(pid) == spec_death_fold(rows@.take(i as int), pid),
            index_map.key_seq() == spec_player_ids_order(rows@.take(i as int)),
            revive_map.key_seq() == spec_player_ids_order(rows@.take(i as int)),
            death_map.key_seq() == spec_player_ids_order(rows@.take(i as int)),
        decreases n - i,
    {
        proof {
            assert(rows@.take(i as int + 1).drop_last() =~= rows@.take(i as int));
            assert(rows@.take(i as int + 1).last() == rows@[i as int]);
        }
        let row = &rows[i];
        proof {
            index_map.lemma_contains_iff_key_seq(row.player_id);
            revive_map.lemma_contains_iff_key_seq(row.player_id);
            death_map.lemma_contains_iff_key_seq(row.player_id);
        }
        let ratio = crate::fx::fx_div(row.present_time as i64, mission_time as i64);
        index_map.set(&row.player_id, ratio);
        revive_map.set(&row.player_id, row.revive_num);
        death_map.set(&row.player_id, row.death_num);
        i += 1;
    }
    proof {
        assert(rows@.take(n as int) =~= rows@);
    }
    (index_map, revive_map, death_map)
}

// ---------------------------------------------------------------------------
// Assembly
// ---------------------------------------------------------------------------
/// The per-taker totals of a sequence of damage packs.
pub open spec fn spec_pack_totals(s: Seq<DamagePack>) -> Seq<i64> {
    s.map_values(|p: DamagePack| p.total_amount)
}

/// The saturating total over a damage breakdown.
fn detail_total(detail: &KMap<String, DamagePack>) -> (r: i64)
    requires
        detail.wf(),
    ensures
        r as int == crate::kmap::spec_sat_sum(spec_pack_totals(detail.val_seq())),
{
    let n = detail.len();
    let mut acc: i64 = 0;
    let mut i: usize = 0;
    while i < n
        invariant
            detail.wf(),
            n == detail.spec_len(),
            0 <= i <= n,
            acc as int == crate::kmap::spec_sat_sum(
                spec_pack_totals(detail.val_seq().take(i as int)),
            ),
        decreases n - i,
    {
        proof {
            assert(spec_pack_totals(detail.val_seq().take(i as int + 1)).drop_last()
                =~= spec_pack_totals(detail.val_seq().take(i as int)));
            assert(spec_pack_totals(detail.val_seq().take(i as int + 1)).last()
                == detail.val_seq()[i as int].total_amount);
        }
        acc = sat_add(acc, detail.val_at(i).total_amount);
        i += 1;
    }
    proof {
        assert(detail.val_seq().take(n as int) =~= detail.val_seq());
    }
    acc
}

/// One of the mission's rows references an id its lookup table must know
/// but does not; the aggregator rejects the whole mission.
pub open spec fn spec_rows_missing(
    raw: MissionRawInfo,
    idm: IDMapping,
    combine: StrLookup,
    blacklist: StrSet,
    weapon_combine: StrLookup,
) -> bool {
    ||| exists|i: int|
        0 <= i < raw.raw_kill_info_list@.len() && kill_row_missing(
            #[trigger] raw.raw_kill_info_list@[i],
            idm,
        )
    ||| exists|i: int|
        0 <= i < raw.raw_damage_info_list@.len() && dmg_row_missing(
            #[trigger] raw.raw_damage_info_list@[i],
            idm,
            combine,
            blacklist,
        )
    ||| exists|i: int|
        0 <= i < raw.raw_damage_info_list@.len() && (#[trigger] dmg_taker_key(
            raw.raw_damage_info_list@[i],
            idm,
            combine,
            blacklist,
        )) is Some && spec_rev_weapon(
            idm.id_to_weapon_game_id.key_seq(),
            idm.id_to_weapon_game_id.val_seq(),
            dmg_weapon_key(raw.raw_damage_info_list@[i], idm, weapon_combine),
        ) is None
    ||| exists|i: int|
        0 <= i < raw.raw_resource_info_list@.len() && res_row_missing(
            #[trigger] raw.raw_resource_info_list@[i],
            idm,
        )
}

/// One player's kill table matches the fold of the rows.
pub open spec fn kill_inner_matches(
    inner: KMap<String, KillPack>,
    rows: Seq<KillInfo>,
    pid: i16,
    idm: IDMapping,
    combine: StrLookup,
    blacklist: StrSet,
) -> bool {
    &&& inner.wf()
    &&& inner.key_seq() == spec_kill_keys_order(rows, pid, idm, combine, blacklist)
    &&& forall|k: Seq<char>|
        match #[trigger] inner.spec_get(k) {
            Some(pack) => spec_kill_fold(rows, pid, k, idm, combine, blacklist) == Some(
                (pack.taker_id, pack.total_amount),
            ) && pack.taker_name@ == k,
            None => spec_kill_fold(rows, pid, k, idm, combine, blacklist) is None,
        }
}

/// Some damage row of this causer survives filtering.
pub open spec fn dmg_player_present(
    rows: Seq<DamageInfo>,
    pid: i16,
    idm: IDMapping,
    combine: StrLookup,
    blacklist: StrSet,
) -> bool {
    exists|i: int|
        0 <= i < rows.len() && rows[i].causer_id == pid && (#[trigger] dmg_taker_key(
            rows[i],
            idm,
            combine,
            blacklist,
        )) is Some
}

/// Some resource row belongs to this player.
pub open spec fn res_player_present(rows: Seq<ResourceInfo>, pid: i16) -> bool {
    exists|i: int| 0 <= i < rows.len() && (#[trigger] rows[i]).player_id == pid
}

/// Some supply row belongs to this player.
pub open spec fn supply_player_present(rows: Seq<SupplyInfo>, pid: i16) -> bool {
    exists|i: int| 0 <= i < rows.len() && (#[trigger] rows[i]).player_id == pid
}

/// Some accepted damage row uses this canonical weapon name.
pub open spec fn weapon_key_present(
    rows: Seq<DamageInfo>,
    wkey: Seq<char>,
    idm: IDMapping,
    combine: StrLookup,
    blacklist: StrSet,
    weapon_combine: StrLookup,
) -> bool {
    exists|i: int|
        0 <= i < rows.len() && (#[trigger] dmg_taker_key(rows[i], idm, combine, blacklist)) is Some
            && dmg_weapon_key(rows[i], idm, weapon_combine) == wkey
}

/// What the aggregator promises of a summary built from `raw`: every table
/// equals the corresponding fold over the raw rows.
pub open spec fn spec_aggregated(
    info: MissionCachedInfo,
    raw: MissionRawInfo,
    idm: IDMapping,
    combine: StrLookup,
    blacklist: StrSet,
    weapon_combine: StrLookup,
) -> bool {
    let krows = raw.raw_kill_info_list@;
    let drows = raw.raw_damage_info_list@;
    let rrows = raw.raw_resource_info_list@;
    let srows = raw.raw_supply_info_list@;
    let prows = raw.player_info_list@;
    &&& info.mission_info == raw.mission
    &&& info.player_info@ == prows
    &&& info.player_index.wf()
    &&& info.player_index.key_seq() == spec_player_ids_order(prows)
    &&& info.revive_count.key_seq() == spec_player_ids_order(prows)
    &&& info.death_count.key_seq() == spec_player_ids_order(prows)
    &&& info.kill_info.key_seq() == spec_kill_players_order(krows, idm, combine, blacklist)
    &&& info.damage_info.key_seq() == spec_dmg_players_order(drows, idm, combine, blacklist)
    &&& info.weapon_damage_info.key_seq() == spec_weapon_keys_order(
        drows,
        idm,
        combine,
        blacklist,
        weapon_combine,
    )
    &&& info.resource_info.key_seq() == spec_res_players_order(rrows)
    &&& info.supply_info.key_seq() == spec_supply_players_order(srows)
    &&& forall|pid: i16|
        #[trigger] info.player_index.spec_get(pid) == spec_player_index_fold(
            prows,
            raw.mission.mission_time as int,
            pid,
        )
    &&& info.revive_count.wf()
    &&& forall|pid: i16| #[trigger] info.revive_count.spec_get(pid) == spec_revive_fold(prows, pid)
    &&& info.death_count.wf()
    &&& forall|pid: i16| #[trigger] info.death_count.spec_get(pid) == spec_death_fold(prows, pid)
    &&& info.kill_info.wf()
    &&& forall|pid: i16|
        match #[trigger] info.kill_info.spec_get(pid) {
            Some(inner) => kill_player_present(krows, pid, idm, combine, blacklist)
                && kill_inner_matches(inner, krows, pid, idm, combine, blacklist),
            None => !kill_player_present(krows, pid, idm, combine, blacklist),
        }
    &&& info.damage_info.wf()
    &&& forall|pid: i16|
        match #[trigger] info.damage_info.spec_get(pid) {
            Some(inner) => dmg_player_present(drows, pid, idm, combine, blacklist) && inner.wf()
                && inner.key_seq() == spec_dmg_keys_order(drows, pid, idm, combine, blacklist)
                && forall|k: Seq<char>|
                #[trigger] inner.spec_get(k) == spec_dmg_fold(drows, pid, k, idm, combine, blacklist),
            None => !dmg_player_present(drows, pid, idm, combine, blacklist),
        }
    &&& info.resource_info.wf()
    &&& forall|pid: i16|
        match #[trigger] info.resource_info.spec_get(pid) {
            Some(inner) => res_player_present(rrows, pid) && inner.wf() && inner.key_seq()
                == spec_res_keys_order(rrows, pid, idm) && forall|k: Seq<char>|
                #[trigger] inner.spec_get(k) == spec_res_fold(rrows, pid, k, idm),
            None => !res_player_present(rrows, pid),
        }
    &&& info.supply_info.wf()
    &&& forall|pid: i16|
        match #[trigger] info.supply_info.spec_get(pid) {
            Some(v) => supply_player_present(srows, pid) && v@ == spec_supply_fold(srows, pid),
            None => !supply_player_present(srows, pid),
        }
    &&& info.weapon_damage_info.wf()
    &&& forall|wk: Seq<char>|
        match #[trigger] info.weapon_damage_info.spec_get(wk) {
            Some(wp) => {
                &&& weapon_key_present(drows, wk, idm, combine, blacklist, weapon_combine)
                &&& wp.detail.wf()
                &&& wp.detail.key_seq() == spec_weapon_detail_keys_order(
                    drows,
                    wk,
                    idm,
                    combine,
                    blacklist,
                    weapon_combine,
                )
                &&& forall|tk: Seq<char>|
                    #[trigger] wp.detail.spec_get(tk) == spec_weapon_fold(
                        drows,
                        wk,
                        tk,
                        idm,
                        combine,
                        blacklist,
                        weapon_combine,
                    )
                &&& wp.total_amount as int == crate::kmap::spec_sat_sum(
                    spec_pack_totals(wp.detail.val_seq()),
                )
                &&& spec_rev_weapon(
                    idm.id_to_weapon_game_id.key_seq(),
                    idm.id_to_weapon_game_id.val_seq(),
                    wk,
                ) == Some(wp.weapon_id)
            },
            None => !weapon_key_present(drows, wk, idm, combine, blacklist, weapon_combine),
        }
}

/// What the downstream KPI stages may assume of a summary: the tables are
/// well-formed association maps, all accumulated quantities are
/// non-negative, the mission duration is positive, and every listed player
/// has a presence ratio.
pub open spec fn spec_summary_wf(info: MissionCachedInfo) -> bool {
    &&& info.mission_info.mission_time >= 1
    &&& info.player_index.wf()
    &&& forall|pid: i16|
        match #[trigger] info.player_index.spec_get(pid) {
            Some(v) => v >= 0,
            None => true,
        }
    &&& forall|i: int|
        0 <= i < info.player_info@.len() ==> info.player_index.spec_get(
            (#[trigger] info.player_info@[i]).player_id,
        ) is Some
    &&& info.revive_count.wf()
    &&& info.death_count.wf()
    &&& info.kill_info.wf()
    &&& forall|pid: i16|
        match #[trigger] info.kill_info.spec_get(pid) {
            Some(inner) => inner.wf() && forall|k: Seq<char>|
                match #[trigger] inner.spec_get(k) {
                    Some(pack) => pack.total_amount >= 0,
                    None => true,
                },
            None => true,
        }
    &&& info.damage_info.wf()
    &&& forall|pid: i16|
        match #[trigger] info.damage_info.spec_get(pid) {
            Some(inner) => inner.wf() && forall|k: Seq<char>|
                match #[trigger] inner.spec_get(k) {
                    Some(pack) => pack.total_amount >= 0,
                    None => true,
                },
            None => true,
        }
    &&& info.resource_info.wf()
    &&& forall|pid: i16|
        match #[trigger] info.resource_info.spec_get(pid) {
            Some(inner) => inner.wf() && forall|k: Seq<char>|
                match #[trigger] inner.spec_get(k) {
                    Some(v) => v >= 0,
                    None => true,
                },
            None => true,
        }
    &&& info.supply_info.wf()
    &&& info.weapon_damage_info.wf()
    &&& forall|wk: Seq<char>|
        match #[trigger] info.weapon_damage_info.spec_get(wk) {
            Some(wp) => wp.detail.wf(),
            None => true,
        }
}

proof fn lemma_kill_fold_count_pos(
    rows: Seq<KillInfo>,
    player: i16,
    key: Seq<char>,
    idm: IDMapping,
    combine: StrLookup,
    blacklist: StrSet,
)
    ensures
        match spec_kill_fold(rows, player, key, idm, combine, blacklist) {
            Some(pair) => pair.1 >= 1,
            None => true,
        },
    decreases rows.len(),
{
    if rows.len() > 0 {
        lemma_kill_fold_count_pos(rows.drop_last(), player, key, idm, combine, blacklist);
    }
}

proof fn lemma_dmg_fold_nonneg(
    rows: Seq<DamageInfo>,
    causer: i16,
    key: Seq<char>,
    idm: IDMapping,
    combine: StrLookup,
    blacklist: StrSet,
)
    requires
        forall|i: int| 0 <= i < rows.len() ==> (#[trigger] rows[i]).damage >= 0,
    ensures
        match spec_dmg_fold(rows, causer, key, idm, combine, blacklist) {
            Some(p) => p.total_amount >= 0,
            None => true,
        },
    decreases rows.len(),
{
    if rows.len() > 0 {
        lemma_dmg_fold_nonneg(rows.drop_last(), causer, key, idm, combine, blacklist);
    }
}

proof fn lemma_res_fold_nonneg(rows: Seq<ResourceInfo>, player: i16, key: Seq<char>, idm: IDMapping)
    requires
        forall|i: int| 0 <= i < rows.len() ==> (#[trigger] rows[i]).amount >= 0,
    ensures
        match spec_res_fold(rows, player, key, idm) {
            Some(v) => v >= 0,
            None => true,
        },
    decreases rows.len(),
{
    if rows.len() > 0 {
        lemma_res_fold_nonneg(rows.drop_last(), player, key, idm);
    }
}

proof fn lemma_player_index_fold_props(rows: Seq<PlayerInfo>, mt: int, pid: i16)
    requires
        mt >= 1,
        forall|i: int| 0 <= i < rows.len() ==> (#[trigger] rows[i]).present_time >= 0,
    ensures
        match spec_player_index_fold(rows, mt, pid) {
            Some(v) => v >= 0,
            None => true,
        },
        (exists|i: int| 0 <= i < rows.len() && (#[trigger] rows[i]).player_id == pid)
            ==> spec_player_index_fold(rows, mt, pid) is Some,
    decreases rows.len(),
{
    if rows.len() > 0 {
        lemma_player_index_fold_props(rows.drop_last(), mt, pid);
        if rows.last().player_id == pid {
            assert(crate::fx::spec_fx_div(rows.last().present_time as int, mt) >= 0) by {
                assert((rows.last().present_time as int * crate::FX_SCALE as int) / mt >= 0)
                    by (nonlinear_arith)
                    requires rows.last().present_time >= 0 && mt >= 1;
            }
        } else {
            if exists|i: int| 0 <= i < rows.len() && (#[trigger] rows[i]).player_id == pid {
                let i = choose|i: int| 0 <= i < rows.len() && (#[trigger] rows[i]).player_id == pid;
                assert(i < rows.len() - 1);
                assert(rows.drop_last()[i] == rows[i]);
            }
        }
    }
}

/// A summary whose tables equal the folds of non-negative rows is
/// well-formed in the sense the KPI stages need.
pub proof fn lemma_aggregated_wf(
    info: MissionCachedInfo,
    raw: MissionRawInfo,
    idm: IDMapping,
    combine: StrLookup,
    blacklist: StrSet,
    weapon_combine: StrLookup,
)
    requires
        spec_aggregated(info, raw, idm, combine, blacklist, weapon_combine),
        raw.mission.mission_time >= 1,
        forall|i: int|
            0 <= i < raw.player_info_list@.len() ==> (#[trigger] raw.player_info_list@[i]).present_time
                >= 0,
        forall|i: int|
            0 <= i < raw.raw_damage_info_list@.len() ==> (#[trigger] raw.raw_damage_info_list@[i]).damage
                >= 0,
        forall|i: int|
            0 <= i < raw.raw_resource_info_list@.len()
                ==> (#[trigger] raw.raw_resource_info_list@[i]).amount >= 0,
    ensures
        spec_summary_wf(info),
{
    let mt = raw.mission.mission_time as int;
    assert forall|pid: i16|
        match #[trigger] info.player_index.spec_get(pid) {
            Some(v) => v >= 0,
            None => true,
        } by {
        lemma_player_index_fold_props(raw.player_info_list@, mt, pid);
    }
    assert forall|i: int|
        0 <= i < info.player_info@.len() implies info.player_index.spec_get(
        (#[trigger] info.player_info@[i]).player_id,
    ) is Some by {
        lemma_player_index_fold_props(raw.player_info_list@, mt, info.player_info@[i].player_id);
    }
    assert forall|pid: i16|
        match #[trigger] info.kill_info.spec_get(pid) {
            Some(inner) => inner.wf() && forall|k: Seq<char>|
                match #[trigger] inner.spec_get(k) {
                    Some(pack) => pack.total_amount >= 0,
                    None => true,
                },
            None => true,
        } by {
        if info.kill_info.spec_get(pid) is Some {
            let inner = info.kill_info.spec_get(pid)->Some_0;
            assert forall|k: Seq<char>|
                match #[trigger] inner.spec_get(k) {
                    Some(pack) => pack.total_amount >= 0,
                    None => true,
                } by {
                lemma_kill_fold_count_pos(
                    raw.raw_kill_info_list@,
                    pid,
                    k,
                    idm,
                    combine,
                    blacklist,
                );
            }
        }
    }
    assert forall|pid: i16|
        match #[trigger] info.damage_info.spec_get(pid) {
            Some(inner) => inner.wf() && forall|k: Seq<char>|
                match #[trigger] inner.spec_get(k) {
                    Some(pack) => pack.total_amount >= 0,
                    None => true,
                },
            None => true,
        } by {
        if info.damage_info.spec_get(pid) is Some {
            let inner = info.damage_info.spec_get(pid)->Some_0;
            assert forall|k: Seq<char>|
                match #[trigger] inner.spec_get(k) {
                    Some(pack) => pack.total_amount >= 0,
                    None => true,
                } by {
                lemma_dmg_fold_nonneg(
                    raw.raw_damage_info_list@,
                    pid,
                    k,
                    idm,
                    combine,
                    blacklist,
                );
            }
        }
    }
    assert forall|pid: i16|
        match #[trigger] info.resource_info.spec_get(pid) {
            Some(inner) => inner.wf() && forall|k: Seq<char>|
                match #[trigger] inner.spec_get(k) {
                    Some(v) => v >= 0,
                    None => true,
                },
            None => true,
        } by {
        if info.resource_info.spec_get(pid) is Some {
            let inner = info.resource_info.spec_get(pid)->Some_0;
            assert forall|k: Seq<char>|
                match #[trigger] inner.spec_get(k) {
                    Some(v) => v >= 0,
                    None => true,
                } by {
                lemma_res_fold_nonneg(raw.raw_resource_info_list@, pid, k, idm);
            }
        }
    }
}

/// A raw row that belongs to a mission.
pub trait MissionKeyed: Sized {
    spec fn mission_of(&self) -> i32;

    fn mission_id_of(&self) -> (r: i32)
        ensures
            r == self.mission_of(),
    ;
}

impl MissionKeyed for PlayerInfo {
    open spec fn mission_of(&self) -> i32 {
        self.mission_id
    }

    fn mission_id_of(&self) -> (r: i32) {
        self.mission_id
    }
}

impl MissionKeyed for KillInfo {
    open spec fn mission_of(&self) -> i32 {
        self.mission_id
    }

    fn mission_id_of(&self) -> (r: i32) {
        self.mission_id
    }
}

impl MissionKeyed for DamageInfo {
    open spec fn mission_of(&self) -> i32 {
        self.mission_id
    }

    fn mission_id_of(&self) -> (r: i32) {
        self.mission_id
    }
}

impl MissionKeyed for ResourceInfo {
    open spec fn mission_of(&self) -> i32 {
        self.mission_id
    }

    fn mission_id_of(&self) -> (r: i32) {
        self.mission_id
    }
}

impl MissionKeyed for SupplyInfo {
    open spec fn mission_of(&self) -> i32 {
        self.mission_id
    }

    fn mission_id_of(&self) -> (r: i32) {
        self.mission_id
    }
}

/// The rows of one mission, in row order.
pub open spec fn spec_rows_for<T: MissionKeyed>(rows: Seq<T>, mid: i32) -> Seq<T>
    decreases rows.len(),
{
    if rows.len() == 0 {
        Seq::empty()
    } else {
        let prev = spec_rows_for(rows.drop_last(), mid);
        if rows.last().mission_of() == mid {
            prev.push(rows.last())
        } else {
            prev
        }
    }
}

/// The distinct mission ids, in first-occurrence order.
pub open spec fn spec_mission_ids_order(missions: Seq<Mission>) -> Seq<i32>
    decreases missions.len(),
{
    if missions.len() == 0 {
        Seq::empty()
    } else {
        let prev = spec_mission_ids_order(missions.drop_last());
        if prev.contains(missions.last().id) {
            prev
        } else {
            prev.push(missions.last().id)
        }
    }
}

/// Group raw rows by the mission they belong to: one entry per listed
/// mission, holding that mission's rows in their original order. Batch mode
/// runs the aggregator once per entry.
pub fn group_rows_by_mission<T: MissionKeyed + Copy>(missions: &Vec<Mission>, rows: &Vec<T>) -> (r:
    KMap<i32, Vec<T>>)
    ensures
        r.wf(),
        r.key_seq() == spec_mission_ids_order(missions@),
        forall|mid: i32|
            match #[trigger] r.spec_get(mid) {
                Some(v) => spec_mission_ids_order(missions@).contains(mid) && v@ == spec_rows_for(
                    rows@,
                    mid,
                ),
                None => !spec_mission_ids_order(missions@).contains(mid),
            },
{
    let n = missions.len();
    let mut out: KMap<i32, Vec<T>> = KMap::empty();
    let mut i: usize = 0;
    while i < n
        invariant
            n == missions@.len(),
            0 <= i <= n,
            out.wf(),
            out.key_seq() == spec_mission_ids_order(missions@.take(i as int)),
            forall|mid: i32|
                match #[trigger] out.spec_get(mid) {
                    Some(v) => spec_mission_ids_order(missions@.take(i as int)).contains(mid) && v@
                        == spec_rows_for(rows@, mid),
                    None => !spec_mission_ids_order(missions@.take(i as int)).contains(mid),
                },
        decreases n - i,
    {
        proof {
            assert(missions@.take(i as int + 1).drop_last() =~= missions@.take(i as int));
            assert(missions@.take(i as int + 1).last() == missions@[i as int]);
        }
        let mid = missions[i].id;
        proof {
            out.lemma_get_is_contains(mid);
            out.lemma_contains_iff_key_seq(mid);
        }
        let ghost pre = out;
        let ghost prev_order = spec_mission_ids_order(missions@.take(i as int));
        let ghost next_order = spec_mission_ids_order(missions@.take(i as int + 1));
        if !out.contains(&mid) {
            let group = rows_for_mission(rows, mid);
            out.set(&mid, group);
            proof {
                assert(out.key_seq() =~= prev_order.push(mid));
                assert(next_order == prev_order.push(mid));
                assert forall|m2: i32|
                    match #[trigger] out.spec_get(m2) {
                        Some(v) => next_order.contains(m2) && v@ == spec_rows_for(rows@, m2),
                        None => !next_order.contains(m2),
                    } by {
                    if m2 == mid {
                        assert(next_order[prev_order.len() as int] == mid);
                        assert(next_order.contains(mid));
                    } else {
                        assert(out.spec_get(m2) == pre.spec_get(m2));
                        if prev_order.contains(m2) {
                            let t = choose|t: int|
                                0 <= t < prev_order.len() && prev_order[t] == m2;
                            assert(next_order[t] == m2);
                        }
                        if next_order.contains(m2) {
                            let t = choose|t: int|
                                0 <= t < next_order.len() && next_order[t] == m2;
                            if t < prev_order.len() {
                                assert(prev_order[t] == m2);
                            }
                        }
                    }
                }
            }
        } else {
            proof {
                assert(prev_order.contains(mid));
                assert(next_order == prev_order);
            }
        }
        i += 1;
    }
    proof {
        assert(missions@.take(n as int) =~= missions@);
    }
    out
}

/// The rows of one mission.
fn rows_for_mission<T: MissionKeyed + Copy>(rows: &Vec<T>, mid: i32) -> (r: Vec<T>)
    ensures
        r@ == spec_rows_for(rows@, mid),
{
    let n = rows.len();
    let mut out: Vec<T> = Vec::new();
    let mut i: usize = 0;
    while i < n
        invariant
            n == rows@.len(),
            0 <= i <= n,
            out@ == spec_rows_for(rows@.take(i as int), mid),
        decreases n - i,
    {
        proof {
            assert(rows@.take(i as int + 1).drop_last() =~= rows@.take(i as int));
            assert(rows@.take(i as int + 1).last() == rows@[i as int]);
        }
        if rows[i].mission_id_of() == mid {
            out.push(rows[i]);
        }
        i += 1;
    }
    proof {
        assert(rows@.take(n as int) =~= rows@);
    }
    out
}

/// Copy a vector of player rows.
fn dup_player_rows(rows: &Vec<PlayerInfo>) -> (r: Vec<PlayerInfo>)
    ensures
        r@ == rows@,
{
    let n = rows.len();
    let mut out: Vec<PlayerInfo> = Vec::new();
    let mut i: usize = 0;
    while i < n
        invariant
            n == rows@.len(),
            0 <= i <= n,
            out@ == rows@.take(i as int),
        decreases n - i,
    {
        out.push(rows[i]);
        proof {
            assert(out@ =~= rows@.take(i as int + 1));
        }
        i += 1;
    }
    proof {
        assert(rows@.take(n as int) =~= rows@);
    }
    out
}

impl MissionCachedInfo {
    /// Build one mission's summary from its raw rows. Fails, touching
    /// nothing, exactly when a row references an id its lookup table does
    /// not know; blacklist hits and absent combine entries are no-ops.
    pub fn generate(
        raw: &MissionRawInfo,
        entity_blacklist_set: &StrSet,
        entity_combine: &StrLookup,
        weapon_combine: &StrLookup,
        id_mapping: &IDMapping,
    ) -> (r: Result<MissionCachedInfo, String>)
        requires
            raw.mission.mission_time >= 1,
            forall|i: int|
                0 <= i < raw.player_info_list@.len() ==> (#[trigger] raw.player_info_list@[i]).present_time
                    >= 0,
            forall|i: int|
                0 <= i < raw.raw_damage_info_list@.len()
                    ==> (#[trigger] raw.raw_damage_info_list@[i]).damage >= 0,
            forall|i: int|
                0 <= i < raw.raw_resource_info_list@.len()
                    ==> (#[trigger] raw.raw_resource_info_list@[i]).amount >= 0,
            entity_blacklist_set.wf(),
            entity_combine.wf(),
            weapon_combine.wf(),
            id_mapping.wf(),
        ensures
            match r {
                Ok(info) => spec_aggregated(
                    info,
                    *raw,
                    *id_mapping,
                    *entity_combine,
                    *entity_blacklist_set,
                    *weapon_combine,
                ) && spec_summary_wf(info) && !spec_rows_missing(
                    *raw,
                    *id_mapping,
                    *entity_combine,
                    *entity_blacklist_set,
                    *weapon_combine,
                ),
                Err(_) => spec_rows_missing(
                    *raw,
                    *id_mapping,
                    *entity_combine,
                    *entity_blacklist_set,
                    *weapon_combine,
                ),
            },
    {
        let rev = build_weapon_reverse(&id_mapping.id_to_weapon_game_id);
        let kill_players = match scan_kill_rows(
            &raw.raw_kill_info_list,
            id_mapping,
            entity_combine,
            entity_blacklist_set,
        ) {
            Ok(p) => p,
            Err(e) => {
                return Err(e);
            },
        };
        let (dmg_players, wkeys) = match scan_damage_rows(
            &raw.raw_damage_info_list,
            id_mapping,
            entity_combine,
            entity_blacklist_set,
            weapon_combine,
            &rev,
        ) {
            Ok(p) => p,
            Err(e) => {
                return Err(e);
            },
        };
        let res_players = match scan_resource_rows(&raw.raw_resource_info_list, id_mapping) {
            Ok(p) => p,
            Err(e) => {
                return Err(e);
            },
        };
        let supply_players = scan_supply_rows(&raw.raw_supply_info_list);

        let (player_index, revive_count, death_count) = build_player_stats(
            &raw.player_info_list,
            raw.mission.mission_time,
        );

        // kill table
        let mut kill_info: KMap<i16, KMap<String, KillPack>> = KMap::empty();
        let kn = kill_players.len();
        let mut j: usize = 0;
        while j < kn
            invariant
                id_mapping.wf(),
                entity_combine.wf(),
                entity_blacklist_set.wf(),
                forall|i: int|
                    0 <= i < raw.raw_kill_info_list@.len() ==> !kill_row_missing(
                        #[trigger] raw.raw_kill_info_list@[i],
                        *id_mapping,
                    ),
                kn == kill_players@.len(),
                0 <= j <= kn,
                forall|a: int, b: int|
                    0 <= a < b < kill_players@.len() ==> kill_players@[a] != kill_players@[b],
                kill_info.wf(),
                kill_info.key_seq() == kill_players@.take(j as int),
                forall|pid: i16|
                    match #[trigger] kill_info.spec_get(pid) {
                        Some(inner) => (exists|m: int| 0 <= m < j && kill_players@[m] == pid)
                            && kill_inner_matches(
                            inner,
                            raw.raw_kill_info_list@,
                            pid,
                            *id_mapping,
                            *entity_combine,
                            *entity_blacklist_set,
                        ),
                        None => !exists|m: int| 0 <= m < j && kill_players@[m] == pid,
                    },
            decreases kn - j,
        {
            let pid = kill_players[j];
            let acc = build_kill_for_player(
                &raw.raw_kill_info_list,
                pid,
                id_mapping,
                entity_combine,
                entity_blacklist_set,
            );
            let packs = kill_packs_of(&acc);
            proof {
                kill_info.lemma_get_is_contains(pid);
                if kill_info.spec_get(pid) is Some {
                    let m = choose|m: int| 0 <= m < j && kill_players@[m] == pid;
                    assert(false);
                }
            }
            kill_info.set(&pid, packs);
            proof {
                assert(kill_info.key_seq() =~= kill_players@.take(j as int + 1));
                assert forall|pid2: i16|
                    match #[trigger] kill_info.spec_get(pid2) {
                        Some(inner) => (exists|m: int| 0 <= m < j + 1 && kill_players@[m] == pid2)
                            && kill_inner_matches(
                            inner,
                            raw.raw_kill_info_list@,
                            pid2,
                            *id_mapping,
                            *entity_combine,
                            *entity_blacklist_set,
                        ),
                        None => !exists|m: int| 0 <= m < j + 1 && kill_players@[m] == pid2,
                    } by {
                    if pid2 == pid {
                        assert(kill_players@[j as int] == pid2);
                    } else {
                        if kill_info.spec_get(pid2) is None {
                            if exists|m: int| 0 <= m < j + 1 && kill_players@[m] == pid2 {
                                let m = choose|m: int| 0 <= m < j + 1 && kill_players@[m] == pid2;
                                assert(m < j);
                            }
                        }
                    }
                }
            }
            j += 1;
        }

        // damage table, per causing player
        let mut damage_info: KMap<i16, KMap<String, DamagePack>> = KMap::empty();
        let dn = dmg_players.len();
        let mut j: usize = 0;
        while j < dn
            invariant
                id_mapping.wf(),
                entity_combine.wf(),
                entity_blacklist_set.wf(),
                forall|i: int|
                    0 <= i < raw.raw_damage_info_list@.len() ==> !dmg_row_missing(
                        #[trigger] raw.raw_damage_info_list@[i],
                        *id_mapping,
                        *entity_combine,
                        *entity_blacklist_set,
                    ),
                dn == dmg_players@.len(),
                0 <= j <= dn,
                forall|a: int, b: int|
                    0 <= a < b < dmg_players@.len() ==> dmg_players@[a] != dmg_players@[b],
                damage_info.wf(),
                damage_info.key_seq() == dmg_players@.take(j as int),
                forall|pid: i16|
                    match #[trigger] damage_info.spec_get(pid) {
                        Some(inner) => (exists|m: int| 0 <= m < j && dmg_players@[m] == pid)
                            && inner.wf() && inner.key_seq() == spec_dmg_keys_order(
                            raw.raw_damage_info_list@,
                            pid,
                            *id_mapping,
                            *entity_combine,
                            *entity_blacklist_set,
                        ) && forall|k: Seq<char>|
                            #[trigger] inner.spec_get(k) == spec_dmg_fold(
                                raw.raw_damage_info_list@,
                                pid,
                                k,
                                *id_mapping,
                                *entity_combine,
                                *entity_blacklist_set,
                            ),
                        None => !exists|m: int| 0 <= m < j && dmg_players@[m] == pid,
                    },
            decreases dn - j,
        {
            let pid = dmg_players[j];
            let inner = build_damage_for_player(
                &raw.raw_damage_info_list,
                pid,
                id_mapping,
                entity_combine,
                entity_blacklist_set,
            );
            proof {
                damage_info.lemma_get_is_contains(pid);
                if damage_info.spec_get(pid) is Some {
                    let m = choose|m: int| 0 <= m < j && dmg_players@[m] == pid;
                    assert(false);
                }
            }
            damage_info.set(&pid, inner);
            proof {
                assert(damage_info.key_seq() =~= dmg_players@.take(j as int + 1));
                assert forall|pid2: i16|
                    match #[trigger] damage_info.spec_get(pid2) {
                        Some(inner2) => (exists|m: int| 0 <= m < j + 1 && dmg_players@[m] == pid2)
                            && inner2.wf() && inner2.key_seq() == spec_dmg_keys_order(
                            raw.raw_damage_info_list@,
                            pid2,
                            *id_mapping,
                            *entity_combine,
                            *entity_blacklist_set,
                        ) && forall|k: Seq<char>|
                            #[trigger] inner2.spec_get(k) == spec_dmg_fold(
                                raw.raw_damage_info_list@,
                                pid2,
                                k,
                                *id_mapping,
                                *entity_combine,
                                *entity_blacklist_set,
                            ),
                        None => !exists|m: int| 0 <= m < j + 1 && dmg_players@[m] == pid2,
                    } by {
                    if pid2 == pid {
                        assert(dmg_players@[j as int] == pid2);
                    } else {
                        if damage_info.spec_get(pid2) is None {
                            if exists|m: int| 0 <= m < j + 1 && dmg_players@[m] == pid2 {
                                let m = choose|m: int| 0 <= m < j + 1 && dmg_players@[m] == pid2;
                                assert(m < j);
                            }
                        }
                    }
                }
            }
            j += 1;
        }

        // weapon table
        let mut weapon_damage_info: KMap<String, WeaponPack> = KMap::empty();
        let wn = wkeys.len();
        let mut j: usize = 0;
        while j < wn
            invariant
                id_mapping.wf(),
                entity_combine.wf(),
                entity_blacklist_set.wf(),
                weapon_combine.wf(),
                rev.wf(),
                forall|name: Seq<char>|
                    #[trigger] rev.spec_get(name) == spec_rev_weapon(
                        id_mapping.id_to_weapon_game_id.key_seq(),
                        id_mapping.id_to_weapon_game_id.val_seq(),
                        name,
                    ),
                forall|i: int|
                    0 <= i < raw.raw_damage_info_list@.len() ==> !dmg_row_missing(
                        #[trigger] raw.raw_damage_info_list@[i],
                        *id_mapping,
                        *entity_combine,
                        *entity_blacklist_set,
                    ),
                forall|i: int|
                    0 <= i < raw.raw_damage_info_list@.len() && (#[trigger] dmg_taker_key(
                        raw.raw_damage_info_list@[i],
                        *id_mapping,
                        *entity_combine,
                        *entity_blacklist_set,
                    )) is Some ==> spec_rev_weapon(
                        id_mapping.id_to_weapon_game_id.key_seq(),
                        id_mapping.id_to_weapon_game_id.val_seq(),
                        dmg_weapon_key(raw.raw_damage_info_list@[i], *id_mapping, *weapon_combine),
                    ) is Some,
                wkeys.wf(),
                forall|w: Seq<char>|
                    wkeys.contains_key(w) <==> weapon_key_present(
                        raw.raw_damage_info_list@,
                        w,
                        *id_mapping,
                        *entity_combine,
                        *entity_blacklist_set,
                        *weapon_combine,
                    ),
                wn == wkeys.spec_len(),
                0 <= j <= wn,
                weapon_damage_info.wf(),
                weapon_damage_info.key_seq() == wkeys.key_seq().take(j as int),
                forall|wk: Seq<char>|
                    match #[trigger] weapon_damage_info.spec_get(wk) {
                        Some(wp) => (exists|m: int| 0 <= m < j && wkeys.key_seq()[m] == wk) && {
                            &&& wp.detail.wf()
                            &&& wp.detail.key_seq() == spec_weapon_detail_keys_order(
                                raw.raw_damage_info_list@,
                                wk,
                                *id_mapping,
                                *entity_combine,
                                *entity_blacklist_set,
                                *weapon_combine,
                            )
                            &&& forall|tk: Seq<char>|
                                #[trigger] wp.detail.spec_get(tk) == spec_weapon_fold(
                                    raw.raw_damage_info_list@,
                                    wk,
                                    tk,
                                    *id_mapping,
                                    *entity_combine,
                                    *entity_blacklist_set,
                                    *weapon_combine,
                                )
                            &&& wp.total_amount as int == crate::kmap::spec_sat_sum(
                                spec_pack_totals(wp.detail.val_seq()),
                            )
                            &&& spec_rev_weapon(
                                id_mapping.id_to_weapon_game_id.key_seq(),
                                id_mapping.id_to_weapon_game_id.val_seq(),
                                wk,
                            ) == Some(wp.weapon_id)
                        },
                        None => !exists|m: int| 0 <= m < j && wkeys.key_seq()[m] == wk,
                    },
            decreases wn - j,
        {
            let wkey: &String = wkeys.key_at(j);
            let detail = build_damage_for_weapon(
                &raw.raw_damage_info_list,
                wkey,
                id_mapping,
                entity_combine,
                entity_blacklist_set,
                weapon_combine,
            );
            let total = detail_total(&detail);
            proof {
                wkeys.lemma_contains_iff_key_seq(wkey@);
                assert(wkeys.key_seq().contains(wkey@));
            }
            let weapon_id: i16 = match rev.get(wkey) {
                Some(id) => *id,
                None => {
                    proof {
                        assert(weapon_key_present(
                            raw.raw_damage_info_list@,
                            wkey@,
                            *id_mapping,
                            *entity_combine,
                            *entity_blacklist_set,
                            *weapon_combine,
                        ));
                        let i = choose|i: int|
                            0 <= i < raw.raw_damage_info_list@.len() && (#[trigger] dmg_taker_key(
                                raw.raw_damage_info_list@[i],
                                *id_mapping,
                                *entity_combine,
                                *entity_blacklist_set,
                            )) is Some && dmg_weapon_key(
                                raw.raw_damage_info_list@[i],
                                *id_mapping,
                                *weapon_combine,
                            ) == wkey@;
                        assert(false);
                    }
                    0
                },
            };
            let wp = WeaponPack { weapon_id, total_amount: total, detail };
            proof {
                weapon_damage_info.lemma_get_is_contains(wkey@);
                if weapon_damage_info.spec_get(wkey@) is Some {
                    let m = choose|m: int| 0 <= m < j && wkeys.key_seq()[m] == wkey@;
                    assert(wkeys.key_seq()[m] == wkeys.key_seq()[j as int]);
                    assert(false);
                }
            }
            weapon_damage_info.set(wkey, wp);
            proof {
                assert(weapon_damage_info.key_seq() =~= wkeys.key_seq().take(j as int + 1));
                assert forall|wk: Seq<char>|
                    match #[trigger] weapon_damage_info.spec_get(wk) {
                        Some(wp2) => (exists|m: int| 0 <= m < j + 1 && wkeys.key_seq()[m] == wk) && {
                            &&& wp2.detail.wf()
                            &&& wp2.detail.key_seq() == spec_weapon_detail_keys_order(
                                raw.raw_damage_info_list@,
                                wk,
                                *id_mapping,
                                *entity_combine,
                                *entity_blacklist_set,
                                *weapon_combine,
                            )
                            &&& forall|tk: Seq<char>|
                                #[trigger] wp2.detail.spec_get(tk) == spec_weapon_fold(
                                    raw.raw_damage_info_list@,
                                    wk,
                                    tk,
                                    *id_mapping,
                                    *entity_combine,
                                    *entity_blacklist_set,
                                    *weapon_combine,
                                )
                            &&& wp2.total_amount as int == crate::kmap::spec_sat_sum(
                                spec_pack_totals(wp2.detail.val_seq()),
                            )
                            &&& spec_rev_weapon(
                                id_mapping.id_to_weapon_game_id.key_seq(),
                                id_mapping.id_to_weapon_game_id.val_seq(),
                                wk,
                            ) == Some(wp2.weapon_id)
                        },
                        None => !exists|m: int| 0 <= m < j + 1 && wkeys.key_seq()[m] == wk,
                    } by {
                    if wk == wkey@ {
                        assert(wkeys.key_seq()[j as int] == wk);
                    } else {
                        if weapon_damage_info.spec_get(wk) is None {
                            if exists|m: int| 0 <= m < j + 1 && wkeys.key_seq()[m] == wk {
                                let m = choose|m: int| 0 <= m < j + 1 && wkeys.key_seq()[m] == wk;
                                assert(m < j);
                            }
                        }
                    }
                }
            }
            j += 1;
        }
        proof {
            assert forall|wk: Seq<char>|
                match #[trigger] weapon_damage_info.spec_get(wk) {
                    Some(wp) => weapon_key_present(
                        raw.raw_damage_info_list@,
                        wk,
                        *id_mapping,
                        *entity_combine,
                        *entity_blacklist_set,
                        *weapon_combine,
                    ),
                    None => !weapon_key_present(
                        raw.raw_damage_info_list@,
                        wk,
                        *id_mapping,
                        *entity_combine,
                        *entity_blacklist_set,
                        *weapon_combine,
                    ),
                } by {
                wkeys.lemma_contains_iff_key_seq(wk);
                if weapon_damage_info.spec_get(wk) is Some {
                    let m = choose|m: int| 0 <= m < wn && wkeys.key_seq()[m] == wk;
                    assert(wkeys.key_seq().contains(wk));
                } else {
                    if weapon_key_present(
                        raw.raw_damage_info_list@,
                        wk,
                        *id_mapping,
                        *entity_combine,
                        *entity_blacklist_set,
                        *weapon_combine,
                    ) {
                        assert(wkeys.contains_key(wk));
                        let m = choose|m: int|
                            0 <= m < wkeys.key_seq().len() && wkeys.key_seq()[m] == wk;
                        assert(false);
                    }
                }
            }
        }

        // resource table
        let mut resource_info: KMap<i16, KMap<String, i64>> = KMap::empty();
        let rn = res_players.len();
        let mut j: usize = 0;
        while j < rn
            invariant
                id_mapping.wf(),
                forall|i: int|
                    0 <= i < raw.raw_resource_info_list@.len() ==> !res_row_missing(
                        #[trigger] raw.raw_resource_info_list@[i],
                        *id_mapping,
                    ),
                rn == res_players@.len(),
                0 <= j <= rn,
                forall|a: int, b: int|
                    0 <= a < b < res_players@.len() ==> res_players@[a] != res_players@[b],
                resource_info.wf(),
                resource_info.key_seq() == res_players@.take(j as int),
                forall|pid: i16|
                    match #[trigger] resource_info.spec_get(pid) {
                        Some(inner) => (exists|m: int| 0 <= m < j && res_players@[m] == pid)
                            && inner.wf() && inner.key_seq() == spec_res_keys_order(
                            raw.raw_resource_info_list@,
                            pid,
                            *id_mapping,
                        ) && forall|k: Seq<char>|
                            #[trigger] inner.spec_get(k) == spec_res_fold(
                                raw.raw_resource_info_list@,
                                pid,
                                k,
                                *id_mapping,
                            ),
                        None => !exists|m: int| 0 <= m < j && res_players@[m] == pid,
                    },
            decreases rn - j,
        {
            let pid = res_players[j];
            let inner = build_resource_for_player(&raw.raw_resource_info_list, pid, id_mapping);
            proof {
                resource_info.lemma_get_is_contains(pid);
                if resource_info.spec_get(pid) is Some {
                    let m = choose|m: int| 0 <= m < j && res_players@[m] == pid;
                    assert(false);
                }
            }
            resource_info.set(&pid, inner);
            proof {
                assert(resource_info.key_seq() =~= res_players@.take(j as int + 1));
                assert forall|pid2: i16|
                    match #[trigger] resource_info.spec_get(pid2) {
                        Some(inner2) => (exists|m: int| 0 <= m < j + 1 && res_players@[m] == pid2)
                            && inner2.wf() && inner2.key_seq() == spec_res_keys_order(
                            raw.raw_resource_info_list@,
                            pid2,
                            *id_mapping,
                        ) && forall|k: Seq<char>|
                            #[trigger] inner2.spec_get(k) == spec_res_fold(
                                raw.raw_resource_info_list@,
                                pid2,
                                k,
                                *id_mapping,
                            ),
                        None => !exists|m: int| 0 <= m < j + 1 && res_players@[m] == pid2,
                    } by {
                    if pid2 == pid {
                        assert(res_players@[j as int] == pid2);
                    } else {
                        if resource_info.spec_get(pid2) is None {
                            if exists|m: int| 0 <= m < j + 1 && res_players@[m] == pid2 {
                                let m = choose|m: int| 0 <= m < j + 1 && res_players@[m] == pid2;
                                assert(m < j);
                            }
                        }
                    }
                }
            }
            j += 1;
        }

        // supply table
        let mut supply_info: KMap<i16, Vec<SupplyPack>> = KMap::empty();
        let sn = supply_players.len();
        let mut j: usize = 0;
        while j < sn
            invariant
                sn == supply_players@.len(),
                0 <= j <= sn,
                forall|a: int, b: int|
                    0 <= a < b < supply_players@.len() ==> supply_players@[a] != supply_players@[b],
                supply_info.wf(),
                supply_info.key_seq() == supply_players@.take(j as int),
                forall|pid: i16|
                    match #[trigger] supply_info.spec_get(pid) {
                        Some(v) => (exists|m: int| 0 <= m < j && supply_players@[m] == pid) && v@
                            == spec_supply_fold(raw.raw_supply_info_list@, pid),
                        None => !exists|m: int| 0 <= m < j && supply_players@[m] == pid,
                    },
            decreases sn - j,
        {
            let pid = supply_players[j];
            let v = build_supply_for_player(&raw.raw_supply_info_list, pid);
            proof {
                supply_info.lemma_get_is_contains(pid);
                if supply_info.spec_get(pid) is Some {
                    let m = choose|m: int| 0 <= m < j && supply_players@[m] == pid;
                    assert(false);
                }
            }
            supply_info.set(&pid, v);
            proof {
                assert(supply_info.key_seq() =~= supply_players@.take(j as int + 1));
                assert forall|pid2: i16|
                    match #[trigger] supply_info.spec_get(pid2) {
                        Some(v2) => (exists|m: int| 0 <= m < j + 1 && supply_players@[m] == pid2)
                            && v2@ == spec_supply_fold(raw.raw_supply_info_list@, pid2),
                        None => !exists|m: int| 0 <= m < j + 1 && supply_players@[m] == pid2,
                    } by {
                    if pid2 == pid {
                        assert(supply_players@[j as int] == pid2);
                    } else {
                        if supply_info.spec_get(pid2) is None {
                            if exists|m: int| 0 <= m < j + 1 && supply_players@[m] == pid2 {
                                let m = choose|m: int| 0 <= m < j + 1 && supply_players@[m] == pid2;
                                assert(m < j);
                            }
                        }
                    }
                }
            }
            j += 1;
        }

        proof {
            assert(kill_info.key_seq() =~= kill_players@);
            assert(damage_info.key_seq() =~= dmg_players@);
            assert(weapon_damage_info.key_seq() =~= wkeys.key_seq());
            assert(resource_info.key_seq() =~= res_players@);
            assert(supply_info.key_seq() =~= supply_players@);
            assert forall|pid: i16|
                match #[trigger] kill_info.spec_get(pid) {
                    Some(inner) => kill_player_present(
                        raw.raw_kill_info_list@,
                        pid,
                        *id_mapping,
                        *entity_combine,
                        *entity_blacklist_set,
                    ) && kill_inner_matches(
                        inner,
                        raw.raw_kill_info_list@,
                        pid,
                        *id_mapping,
                        *entity_combine,
                        *entity_blacklist_set,
                    ),
                    None => !kill_player_present(
                        raw.raw_kill_info_list@,
                        pid,
                        *id_mapping,
                        *entity_combine,
                        *entity_blacklist_set,
                    ),
                } by {
                if kill_info.spec_get(pid) is Some {
                    let m = choose|m: int| 0 <= m < kn && kill_players@[m] == pid;
                    assert(kill_players@.contains(pid));
                } else {
                    if kill_player_present(
                        raw.raw_kill_info_list@,
                        pid,
                        *id_mapping,
                        *entity_combine,
                        *entity_blacklist_set,
                    ) {
                        assert(kill_players@.contains(pid));
                        let m = choose|m: int|
                            0 <= m < kill_players@.len() && kill_players@[m] == pid;
                        assert(false);
                    }
                }
            }
            assert forall|pid: i16|
                match #[trigger] damage_info.spec_get(pid) {
                    Some(inner) => dmg_player_present(
                        raw.raw_damage_info_list@,
                        pid,
                        *id_mapping,
                        *entity_combine,
                        *entity_blacklist_set,
                    ) && inner.wf() && forall|k: Seq<char>|
                        #[trigger] inner.spec_get(k) == spec_dmg_fold(
                            raw.raw_damage_info_list@,
                            pid,
                            k,
                            *id_mapping,
                            *entity_combine,
                            *entity_blacklist_set,
                        ),
                    None => !dmg_player_present(
                        raw.raw_damage_info_list@,
                        pid,
                        *id_mapping,
                        *entity_combine,
                        *entity_blacklist_set,
                    ),
                } by {
                if damage_info.spec_get(pid) is Some {
                    let m = choose|m: int| 0 <= m < dn && dmg_players@[m] == pid;
                    assert(dmg_players@.contains(pid));
                } else {
                    if dmg_player_present(
                        raw.raw_damage_info_list@,
                        pid,
                        *id_mapping,
                        *entity_combine,
                        *entity_blacklist_set,
                    ) {
                        assert(dmg_players@.contains(pid));
                        let m = choose|m: int|
                            0 <= m < dmg_players@.len() && dmg_players@[m] == pid;
                        assert(false);
                    }
                }
            }
            assert forall|pid: i16|
                match #[trigger] resource_info.spec_get(pid) {
                    Some(inner) => res_player_present(raw.raw_resource_info_list@, pid)
                        && inner.wf() && forall|k: Seq<char>|
                        #[trigger] inner.spec_get(k) == spec_res_fold(
                            raw.raw_resource_info_list@,
                            pid,
                            k,
                            *id_mapping,
                        ),
                    None => !res_player_present(raw.raw_resource_info_list@, pid),
                } by {
                if resource_info.spec_get(pid) is Some {
                    let m = choose|m: int| 0 <= m < rn && res_players@[m] == pid;
                    assert(res_players@.contains(pid));
                } else {
                    if res_player_present(raw.raw_resource_info_list@, pid) {
                        assert(res_players@.contains(pid));
                        let m = choose|m: int|
                            0 <= m < res_players@.len() && res_players@[m] == pid;
                        assert(false);
                    }
                }
            }
            assert forall|pid: i16|
                match #[trigger] supply_info.spec_get(pid) {
                    Some(v) => supply_player_present(raw.raw_supply_info_list@, pid) && v@
                        == spec_supply_fold(raw.raw_supply_info_list@, pid),
                    None => !supply_player_present(raw.raw_supply_info_list@, pid),
                } by {
                if supply_info.spec_get(pid) is Some {
                    let m = choose|m: int| 0 <= m < sn && supply_players@[m] == pid;
                    assert(supply_players@.contains(pid));
                } else {
                    if supply_player_present(raw.raw_supply_info_list@, pid) {
                        assert(supply_players@.contains(pid));
                        let m = choose|m: int|
                            0 <= m < supply_players@.len() && supply_players@[m] == pid;
                        assert(false);
                    }
                }
            }
        }
        let info = MissionCachedInfo {
            mission_info: raw.mission,
            player_info: dup_player_rows(&raw.player_info_list),
            player_index,
            kill_info,
            damage_info,
            weapon_damage_info,
            resource_info,
            revive_count,
            death_count,
            supply_info,
        };
        proof {
            lemma_aggregated_wf(
                info,
                *raw,
                *id_mapping,
                *entity_combine,
                *entity_blacklist_set,
                *weapon_combine,
            );
        }
        Ok(info)
    }
}

} // verus!
