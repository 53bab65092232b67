use mission_monitor::fx::{fx_div, fx_mul, sat_add};
use mission_monitor::kmap::KMap;
use mission_monitor::kpi::friendly_fire_index;
use mission_monitor::mission_cache::{IDMapping, MissionCachedInfo, MissionRawInfo};
use mission_monitor::mission_kpi::MissionKPICachedInfo;
use mission_monitor::global_kpi::{transform_eval, CachedGlobalKPIState};
use mission_monitor::types::{
    CharacterKPIType, DamageInfo, IndexTransformRangeConfig, KPIComponent, KPIConfig, KillInfo,
    Mapping, Mission, PlayerInfo, ResourceInfo, SupplyInfo,
};
use mission_monitor::codec::encode_snapshot;
use mission_monitor::scheduler::{CacheManager, CacheTimeInfo, CacheType, ScheduleOutcome};
use mission_monitor::{FX_SCALE, NITRA_GAME_ID};

const S: i64 = 1_000_000;

fn str_map(entries: &[(&str, &str)]) -> KMap<String, String> {
    let mut m = KMap::empty();
    for (k, v) in entries {
        m.set(&k.to_string(), v.to_string());
    }
    m
}

fn str_set(entries: &[&str]) -> KMap<String, ()> {
    let mut m = KMap::empty();
    for k in entries {
        m.set(&k.to_string(), ());
    }
    m
}

fn id_names(entries: &[(i16, &str)]) -> KMap<i16, String> {
    let mut m = KMap::empty();
    for (k, v) in entries {
        m.set(k, v.to_string());
    }
    m
}

fn empty_mapping_tables() -> (KMap<String, ()>, KMap<String, String>, KMap<String, String>) {
    (KMap::empty(), KMap::empty(), KMap::empty())
}

fn base_mission(id: i32) -> Mission {
    Mission {
        id,
        begin_timestamp: 1_700_000_000,
        mission_time: 600,
        mission_type_id: 1,
        hazard_id: 4,
        result: 0,
        reward_credit: 1000 * S,
        total_supply_count: 2,
    }
}

fn player_row(pid: i16, character_id: i16, revive: i16, death: i16) -> PlayerInfo {
    PlayerInfo {
        mission_id: 1,
        player_id: pid,
        character_id,
        player_rank: 10,
        character_rank: 5,
        character_promotion: 1,
        present_time: 600,
        revive_num: revive,
        death_num: death,
        player_escaped: true,
    }
}

fn standard_id_mapping() -> IDMapping {
    IDMapping {
        id_to_player_name: id_names(&[(1, "MINER_ONE"), (2, "MINER_TWO")]),
        id_to_entity_game_id: id_names(&[(10, "ENEMY_A"), (11, "ENEMY_B"), (12, "ENEMY_GROUP")]),
        id_to_weapon_game_id: id_names(&[(20, "WPN_Gatling")]),
        id_to_resource_game_id: id_names(&[(30, NITRA_GAME_ID), (31, "RES_Gold")]),
    }
}

fn two_player_raw(damage_rows: Vec<DamageInfo>, kill_rows: Vec<KillInfo>) -> MissionRawInfo {
    MissionRawInfo {
        mission: base_mission(1),
        player_info_list: vec![player_row(1, 40, 2, 1), player_row(2, 41, 0, 1)],
        raw_kill_info_list: kill_rows,
        raw_damage_info_list: damage_rows,
        raw_resource_info_list: vec![
            ResourceInfo { mission_id: 1, player_id: 1, resource_id: 30, amount: 50 * S },
            ResourceInfo { mission_id: 1, player_id: 2, resource_id: 31, amount: 30 * S },
        ],
        raw_supply_info_list: vec![
            SupplyInfo { mission_id: 1, player_id: 1, ammo: S / 2, health: S / 4 },
        ],
    }
}

fn damage_row(causer: i16, taker: i16, taker_type: i16, amount: i64) -> DamageInfo {
    DamageInfo {
        mission_id: 1,
        causer_id: causer,
        taker_id: taker,
        weapon_id: 20,
        causer_type: 1,
        taker_type,
        damage: amount,
    }
}

#[test]
fn friendly_fire_is_excluded_from_damage_totals() {
    // one player deals 100 to an enemy and 10 to the other player
    let raw = two_player_raw(
        vec![damage_row(1, 10, 2, 100 * S), damage_row(1, 2, 1, 10 * S)],
        vec![],
    );
    let (bl, cmb, wcmb) = empty_mapping_tables();
    let info = MissionCachedInfo::generate(&raw, &bl, &cmb, &wcmb, &standard_id_mapping()).unwrap();

    let kpi = MissionKPICachedInfo::generate(
        &info,
        &vec![],
        &id_names(&[(40, "DRILLER"), (41, "SCOUT")]),
        &id_names(&[(1, "MINER_ONE"), (2, "MINER_TWO")]),
        &str_set(&[]),
        &empty_config(),
    )
    .unwrap();

    // friendly fire does not appear in the damage component's source
    let cm = kpi.raw_kpi_data.get(&1i16).unwrap();
    let dmg = cm.get(&KPIComponent::Damage).unwrap();
    assert_eq!(dmg.source_value, 100 * S);

    // the FriendlyFire component carries the friendly amount and its index
    let ff = cm.get(&KPIComponent::FriendlyFire).unwrap();
    assert_eq!(ff.source_value, 10 * S);
    // rate = 10/110 in fixed-point, truncated
    let rate = (10i128 * S as i128 * S as i128 / (110i128 * S as i128)) as i64;
    assert_eq!(rate, 90_909);
    let expected = 100 * S - (99i128 * S as i128 * S as i128 / (S - rate) as i128) as i64;
    assert_eq!(ff.raw_index, expected);
    // about -8.9 in real terms: the curve value of rate 10/110
    assert!(ff.raw_index < -8_890_000 && ff.raw_index > -8_910_000);
}

#[test]
fn combined_entities_are_counted_under_the_group() {
    // ENEMY_A folds into ENEMY_GROUP: kills under either id accumulate
    // under the group name only
    let raw = two_player_raw(
        vec![damage_row(1, 10, 2, 60 * S), damage_row(1, 12, 2, 40 * S)],
        vec![
            KillInfo { mission_id: 1, player_id: 1, entity_id: 10 },
            KillInfo { mission_id: 1, player_id: 1, entity_id: 12 },
        ],
    );
    let (bl, _, wcmb) = empty_mapping_tables();
    let cmb = str_map(&[("ENEMY_A", "ENEMY_GROUP")]);
    let info = MissionCachedInfo::generate(&raw, &bl, &cmb, &wcmb, &standard_id_mapping()).unwrap();

    let kills = info.kill_info.get(&1i16).unwrap();
    assert!(kills.get(&"ENEMY_A".to_string()).is_none());
    let pack = kills.get(&"ENEMY_GROUP".to_string()).unwrap();
    assert_eq!(pack.total_amount, 2);

    let dmg = info.damage_info.get(&1i16).unwrap();
    assert!(dmg.get(&"ENEMY_A".to_string()).is_none());
    let pack = dmg.get(&"ENEMY_GROUP".to_string()).unwrap();
    assert_eq!(pack.total_amount, 100 * S);
}

#[test]
fn blacklisted_entities_are_dropped() {
    let raw = two_player_raw(
        vec![damage_row(1, 10, 2, 60 * S)],
        vec![KillInfo { mission_id: 1, player_id: 1, entity_id: 10 }],
    );
    let bl = str_set(&["ENEMY_A"]);
    let cmb = KMap::empty();
    let wcmb = KMap::empty();
    let info = MissionCachedInfo::generate(&raw, &bl, &cmb, &wcmb, &standard_id_mapping()).unwrap();
    assert!(info.kill_info.get(&1i16).is_none());
    assert!(info.damage_info.get(&1i16).is_none());
}

#[test]
fn unknown_ids_fail_the_whole_mission() {
    let raw = two_player_raw(
        vec![],
        vec![KillInfo { mission_id: 1, player_id: 1, entity_id: 99 }],
    );
    let (bl, cmb, wcmb) = empty_mapping_tables();
    let r = MissionCachedInfo::generate(&raw, &bl, &cmb, &wcmb, &standard_id_mapping());
    assert!(r.is_err());
}

fn empty_config() -> KPIConfig {
    KPIConfig {
        character_weight_table: KMap::empty(),
        priority_table: KMap::empty(),
        resource_weight_table: KMap::empty(),
        character_component_weight: KMap::empty(),
        transform_range: vec![
            IndexTransformRangeConfig { rank_range: (0, S / 2), transform_range: (0, S / 2) },
            IndexTransformRangeConfig { rank_range: (S / 2, S), transform_range: (S / 2, S) },
        ],
    }
}

#[test]
fn tiny_mission_totals_fall_back_to_zero_index() {
    // mission-wide nitra below the epsilon: every player's index is zero
    let mut raw = two_player_raw(vec![], vec![]);
    raw.raw_resource_info_list = vec![
        ResourceInfo { mission_id: 1, player_id: 1, resource_id: 30, amount: 500 },
    ];
    let (bl, cmb, wcmb) = empty_mapping_tables();
    let info = MissionCachedInfo::generate(&raw, &bl, &cmb, &wcmb, &standard_id_mapping()).unwrap();
    let kpi = MissionKPICachedInfo::generate(
        &info,
        &vec![],
        &id_names(&[(40, "DRILLER"), (41, "SCOUT")]),
        &id_names(&[(1, "MINER_ONE"), (2, "MINER_TWO")]),
        &str_set(&[]),
        &empty_config(),
    )
    .unwrap();
    for pid in [1i16, 2i16] {
        let cm = kpi.raw_kpi_data.get(&pid).unwrap();
        let nitra = cm.get(&KPIComponent::Nitra).unwrap();
        assert_eq!(nitra.raw_index, 0);
    }
}

#[test]
fn every_player_has_all_nine_components() {
    let raw = two_player_raw(vec![damage_row(1, 10, 2, 100 * S)], vec![]);
    let (bl, cmb, wcmb) = empty_mapping_tables();
    let info = MissionCachedInfo::generate(&raw, &bl, &cmb, &wcmb, &standard_id_mapping()).unwrap();
    let kpi = MissionKPICachedInfo::generate(
        &info,
        &vec![],
        &id_names(&[(40, "DRILLER"), (41, "SCOUT")]),
        &id_names(&[(1, "MINER_ONE"), (2, "MINER_TWO")]),
        &str_set(&[]),
        &empty_config(),
    )
    .unwrap();
    let all = [
        KPIComponent::Kill,
        KPIComponent::Damage,
        KPIComponent::Priority,
        KPIComponent::Revive,
        KPIComponent::Death,
        KPIComponent::FriendlyFire,
        KPIComponent::Nitra,
        KPIComponent::Supply,
        KPIComponent::Minerals,
    ];
    for pid in [1i16, 2i16] {
        let cm = kpi.raw_kpi_data.get(&pid).unwrap();
        for c in all {
            assert!(cm.get(&c).is_some());
        }
    }
}

#[test]
fn ratio_indexes_stay_in_range() {
    let raw = two_player_raw(
        vec![damage_row(1, 10, 2, 100 * S), damage_row(2, 10, 2, 40 * S)],
        vec![KillInfo { mission_id: 1, player_id: 1, entity_id: 10 }],
    );
    let (bl, cmb, wcmb) = empty_mapping_tables();
    let info = MissionCachedInfo::generate(&raw, &bl, &cmb, &wcmb, &standard_id_mapping()).unwrap();
    let kpi = MissionKPICachedInfo::generate(
        &info,
        &vec![],
        &id_names(&[(40, "DRILLER"), (41, "SCOUT")]),
        &id_names(&[(1, "MINER_ONE"), (2, "MINER_TWO")]),
        &str_set(&[]),
        &empty_config(),
    )
    .unwrap();
    for pid in [1i16, 2i16] {
        let cm = kpi.raw_kpi_data.get(&pid).unwrap();
        for c in [
            KPIComponent::Kill,
            KPIComponent::Damage,
            KPIComponent::Priority,
            KPIComponent::Revive,
            KPIComponent::Nitra,
            KPIComponent::Minerals,
        ] {
            let d = cm.get(&c).unwrap();
            assert!(d.raw_index >= 0 && d.raw_index <= S, "{:?}", d.raw_index);
        }
        for c in [KPIComponent::Death, KPIComponent::Supply] {
            let d = cm.get(&c).unwrap();
            assert!(d.raw_index >= -S && d.raw_index <= 0);
        }
        let ff = cm.get(&KPIComponent::FriendlyFire).unwrap();
        assert!(ff.raw_index >= -1000 * S && ff.raw_index <= S);
    }
}

#[test]
fn regenerating_from_identical_rows_gives_identical_bytes() {
    let make = || {
        let raw = two_player_raw(
            vec![damage_row(1, 10, 2, 100 * S), damage_row(1, 2, 1, 10 * S)],
            vec![KillInfo { mission_id: 1, player_id: 1, entity_id: 10 }],
        );
        let (bl, _, wcmb) = empty_mapping_tables();
        let cmb = str_map(&[("ENEMY_B", "ENEMY_GROUP")]);
        MissionCachedInfo::generate(&raw, &bl, &cmb, &wcmb, &standard_id_mapping()).unwrap()
    };
    let a = encode_snapshot(&make());
    let b = encode_snapshot(&make());
    assert_eq!(a, b);
    assert!(!a.is_empty());
}

#[test]
fn correction_factor_of_minimal_role_is_one() {
    // two missions with different roles; the weaker role's factor is 1.0
    let raw1 = MissionRawInfo {
        mission: base_mission(1),
        player_info_list: vec![player_row(1, 40, 1, 0)],
        raw_kill_info_list: vec![KillInfo { mission_id: 1, player_id: 1, entity_id: 10 }],
        raw_damage_info_list: vec![damage_row(1, 10, 2, 100 * S)],
        raw_resource_info_list: vec![],
        raw_supply_info_list: vec![],
    };
    let mut raw2 = MissionRawInfo {
        mission: base_mission(2),
        player_info_list: vec![player_row(2, 41, 0, 0)],
        raw_kill_info_list: vec![],
        raw_damage_info_list: vec![damage_row(2, 10, 2, 40 * S)],
        raw_resource_info_list: vec![],
        raw_supply_info_list: vec![],
    };
    raw2.player_info_list[0].mission_id = 2;
    let (bl, cmb, wcmb) = empty_mapping_tables();
    let idm = standard_id_mapping();
    let chars = id_names(&[(40, "DRILLER"), (41, "ENGINEER"), (42, "GUNNER"), (43, "SCOUT")]);
    let names = id_names(&[(1, "MINER_ONE"), (2, "MINER_TWO"), (3, "M3"), (4, "M4")]);
    let allow = str_set(&[]);
    let cfg = empty_config();

    // two more single-player missions so all four standard roles occur
    let raw3 = MissionRawInfo {
        mission: base_mission(3),
        player_info_list: vec![{
            let mut p = player_row(3, 42, 0, 0);
            p.mission_id = 3;
            p
        }],
        raw_kill_info_list: vec![],
        raw_damage_info_list: vec![damage_row(3, 10, 2, 70 * S)],
        raw_resource_info_list: vec![],
        raw_supply_info_list: vec![],
    };
    let raw4 = MissionRawInfo {
        mission: base_mission(4),
        player_info_list: vec![{
            let mut p = player_row(4, 43, 0, 0);
            p.mission_id = 4;
            p
        }],
        raw_kill_info_list: vec![],
        raw_damage_info_list: vec![damage_row(4, 10, 2, 55 * S)],
        raw_resource_info_list: vec![],
        raw_supply_info_list: vec![],
    };

    let mut missions = Vec::new();
    let mut kpis = Vec::new();
    for raw in [raw1, raw2, raw3, raw4] {
        let info = MissionCachedInfo::generate(&raw, &bl, &cmb, &wcmb, &idm).unwrap();
        let kpi = MissionKPICachedInfo::generate(&info, &vec![], &chars, &names, &allow, &cfg)
            .unwrap();
        missions.push(info);
        kpis.push(kpi);
    }
    let global = CachedGlobalKPIState::generate(
        &missions,
        &kpis,
        &vec![],
        &cfg,
        &names,
        &chars,
        &allow,
    )
    .unwrap();

    // the engineer dealt the least damage: its factor is exactly one, and
    // no factor is below one
    let mut saw_exact_one = false;
    for role in [
        CharacterKPIType::Driller,
        CharacterKPIType::Engineer,
        CharacterKPIType::Gunner,
        CharacterKPIType::Scout,
    ] {
        let cm = global.character_correction_factor.get(&role).unwrap();
        let f = cm.get(&KPIComponent::Damage).unwrap().correction_factor;
        assert!(f >= S);
        if f == S {
            saw_exact_one = true;
        }
    }
    assert!(saw_exact_one);
    let eng = global.character_correction_factor.get(&CharacterKPIType::Engineer).unwrap();
    assert_eq!(eng.get(&KPIComponent::Damage).unwrap().correction_factor, S);

    // the normalization denominator sums the four standard factors
    let ssum = *global.standard_correction_sum.get(&KPIComponent::Damage).unwrap();
    let mut total = 0i64;
    for role in [
        CharacterKPIType::Driller,
        CharacterKPIType::Engineer,
        CharacterKPIType::Gunner,
        CharacterKPIType::Scout,
    ] {
        total = sat_add(
            total,
            global
                .character_correction_factor
                .get(&role)
                .unwrap()
                .get(&KPIComponent::Damage)
                .unwrap()
                .correction_factor,
        );
    }
    assert_eq!(ssum, total);

    // transform segments cover contiguous, increasing source ranges, and
    // evaluating at a segment's source minimum gives its target minimum
    let tr = global.transform_range.get(&CharacterKPIType::Driller).unwrap();
    let segs = tr.get(&KPIComponent::Damage).unwrap();
    assert_eq!(segs.len(), 2);
    for w in 0..segs.len() {
        let seg = &segs[w];
        assert!(seg.source_range.0 <= seg.source_range.1);
        if seg.source_range.1 > seg.source_range.0 {
            assert_eq!(transform_eval(seg, seg.source_range.0), seg.transform_range.0);
        }
    }
    for w in 1..segs.len() {
        if segs[w].source_range.0 != 0 {
            assert_eq!(segs[w - 1].source_range.1, segs[w].source_range.0);
        }
    }
}

#[test]
fn fixed_point_helpers_match_their_definitions() {
    assert_eq!(fx_div(1, 3), 333_333);
    assert_eq!(fx_div(2, 1), 2 * S);
    assert_eq!(fx_mul(S / 2, S / 2), S / 4);
    assert_eq!(sat_add(i64::MAX, 1), i64::MAX);
    assert_eq!(friendly_fire_index(910_000), -1_000_000_000);
    assert_eq!(friendly_fire_index(0), S);
}

#[test]
fn sequential_scheduling_leaves_no_stale_global_state() {
    // the in-memory store the three generators read and write
    let mut stored_missions: Vec<MissionCachedInfo> = Vec::new();
    let mut stored_kpis: Vec<MissionKPICachedInfo> = Vec::new();
    let mut stored_global: Option<CachedGlobalKPIState> = None;

    let (bl, cmb, wcmb) = empty_mapping_tables();
    let idm = standard_id_mapping();
    let chars = id_names(&[(40, "DRILLER"), (41, "ENGINEER"), (42, "GUNNER"), (43, "SCOUT")]);
    let names = id_names(&[(1, "MINER_ONE"), (2, "MINER_TWO"), (3, "M3"), (4, "M4")]);
    let allow = str_set(&[]);
    let cfg = empty_config();

    let raws: Vec<MissionRawInfo> = [(1i32, 1i16, 40i16, 100i64), (2, 2, 41, 40), (3, 3, 42, 70), (4, 4, 43, 55)]
        .into_iter()
        .map(|(mid, pid, cid, dmg)| MissionRawInfo {
            mission: base_mission(mid),
            player_info_list: vec![{
                let mut p = player_row(pid, cid, 0, 0);
                p.mission_id = mid;
                p
            }],
            raw_kill_info_list: vec![],
            raw_damage_info_list: vec![{
                let mut d = damage_row(pid, 10, 2, dmg * S);
                d.mission_id = mid;
                d
            }],
            raw_resource_info_list: vec![],
            raw_supply_info_list: vec![],
        })
        .collect();

    let mut manager = CacheManager::new(8, test_mapping(), None);
    assert_eq!(manager.try_schedule(CacheType::MissionRaw), ScheduleOutcome::Accepted);
    assert_eq!(manager.try_schedule(CacheType::MissionKPIRaw), ScheduleOutcome::Accepted);
    assert_eq!(manager.try_schedule(CacheType::GlobalKPIState), ScheduleOutcome::Accepted);

    let mut step = 0i64;
    while let Some(kind) = manager.worker_take() {
        step += 1;
        match kind {
            CacheType::MissionRaw => {
                stored_missions.clear();
                for raw in &raws {
                    stored_missions
                        .push(MissionCachedInfo::generate(raw, &bl, &cmb, &wcmb, &idm).unwrap());
                }
            }
            CacheType::MissionKPIRaw => {
                stored_kpis.clear();
                for info in &stored_missions {
                    stored_kpis.push(
                        MissionKPICachedInfo::generate(info, &vec![], &chars, &names, &allow, &cfg)
                            .unwrap(),
                    );
                }
            }
            CacheType::GlobalKPIState => {
                stored_global = Some(
                    CachedGlobalKPIState::generate(
                        &stored_missions,
                        &stored_kpis,
                        &vec![],
                        &cfg,
                        &names,
                        &chars,
                        &allow,
                    )
                    .unwrap(),
                );
            }
        }
        manager.record_result(
            kind,
            step,
            Ok(CacheTimeInfo { count: 1, load_from_db_ms: 0, generate_ms: 0 }),
        );
    }

    // all three layers ran, in dependency order, exactly once each
    assert_eq!(step, 3);
    let global = stored_global.unwrap();

    // the state reflects the snapshots just written: the damage averages
    // are 100, 40, 70 and 55, so the factors against the weakest role are
    // exact multiples of it
    let factor = |role: CharacterKPIType| {
        global
            .character_correction_factor
            .get(&role)
            .unwrap()
            .get(&KPIComponent::Damage)
            .unwrap()
            .correction_factor
    };
    assert_eq!(factor(CharacterKPIType::Driller), 2_500_000);
    assert_eq!(factor(CharacterKPIType::Engineer), 1_000_000);
    assert_eq!(factor(CharacterKPIType::Gunner), 1_750_000);
    assert_eq!(factor(CharacterKPIType::Scout), 1_375_000);
    assert_eq!(
        *global.standard_correction_sum.get(&KPIComponent::Damage).unwrap(),
        6_625_000
    );
}

fn test_mapping() -> Mapping {
    Mapping {
        character_mapping: KMap::empty(),
        entity_mapping: KMap::empty(),
        entity_blacklist_set: KMap::empty(),
        entity_combine: KMap::empty(),
        mission_type_mapping: KMap::empty(),
        resource_mapping: KMap::empty(),
        weapon_mapping: KMap::empty(),
        weapon_combine: KMap::empty(),
        weapon_character: KMap::empty(),
        scout_special_player_set: KMap::empty(),
    }
}

#[test]
fn tiny_friendly_fire_still_draws_the_full_penalty() {
    // all damage dealt is friendly and below the epsilon: the rate defaults
    // to one and the penalty floor applies; with no friendly damage at all
    // the component is zero-effect
    let raw = two_player_raw(vec![damage_row(1, 2, 1, 500)], vec![]);
    let (bl, cmb, wcmb) = empty_mapping_tables();
    let info = MissionCachedInfo::generate(&raw, &bl, &cmb, &wcmb, &standard_id_mapping()).unwrap();
    let kpi = MissionKPICachedInfo::generate(
        &info,
        &vec![],
        &id_names(&[(40, "DRILLER"), (41, "SCOUT")]),
        &id_names(&[(1, "MINER_ONE"), (2, "MINER_TWO")]),
        &str_set(&[]),
        &empty_config(),
    )
    .unwrap();
    let ff = kpi.raw_kpi_data.get(&1i16).unwrap().get(&KPIComponent::FriendlyFire).unwrap();
    assert_eq!(ff.source_value, 500);
    assert_eq!(ff.raw_index, -1000 * S);
    // the other player dealt nothing at all: zero effect
    let ff2 = kpi.raw_kpi_data.get(&2i16).unwrap().get(&KPIComponent::FriendlyFire).unwrap();
    assert_eq!(ff2.source_value, 0);
    assert_eq!(ff2.raw_index, S);
}
