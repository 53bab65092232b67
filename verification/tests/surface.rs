use mission_monitor::client::{API, CliCacheType, ClientError};
use mission_monitor::formatter::{format_mission_result, format_mission_time, format_size};
use mission_monitor::kmap::KMap;
use mission_monitor::load::{load_mapping_from_file, parse_config_file_list, parse_config_file_map,
    process_log_segment, MappingSource};
use mission_monitor::log::{combine_range_damage, parse_mission_log, LogContent, LogDamageInfo,
    LogMissionInfo, LogPlayerInfo};
use mission_monitor::mission_cache::group_rows_by_mission;
use mission_monitor::scheduler::{APICacheType, CacheGenerationError, CacheManager, CacheTimeInfo,
    CacheType, ScheduleOutcome};
use mission_monitor::types::{CharacterKPIType, KPIComponent, KillInfo, Mapping, Mission};
use mission_monitor::generate_mapping;

const S: i64 = 1_000_000;

#[test]
fn mission_times_are_rendered_as_minutes_and_seconds() {
    assert_eq!(format_mission_time(125), "2m05s");
    assert_eq!(format_mission_time(600), "10m00s");
    assert_eq!(format_mission_time(59), "0m59s");
}

#[test]
fn mission_results_have_names() {
    assert_eq!(format_mission_result(0), "Completed");
    assert_eq!(format_mission_result(1), "Failure");
    assert_eq!(format_mission_result(2), "Aborted");
    assert_eq!(format_mission_result(7), "Unknown(7)");
    assert_eq!(format_mission_result(-3), "Unknown(-3)");
}

#[test]
fn sizes_are_scaled_with_two_decimals() {
    assert_eq!(format_size(512), "512B");
    assert_eq!(format_size(2048), "2.00KiB");
    assert_eq!(format_size(1536), "1.50KiB");
    assert_eq!(format_size(3 * 1048576), "3.00MiB");
}

#[test]
fn config_lists_drop_comments_and_blanks() {
    let r = parse_config_file_list("alpha\n# note\n  beta  \n\n\tgamma\n");
    assert_eq!(r, vec!["alpha".to_string(), "beta".to_string(), "gamma".to_string()]);
}

#[test]
fn config_maps_split_on_the_first_bar() {
    let m = parse_config_file_map("a | one\nb|two\n# skip\nc | x | y\n").unwrap();
    assert_eq!(m.get(&"a".to_string()).unwrap().as_str(), "one");
    assert_eq!(m.get(&"b".to_string()).unwrap().as_str(), "two");
    assert_eq!(m.get(&"c".to_string()).unwrap().as_str(), "x | y");
    assert!(m.get(&"d".to_string()).is_none());
}

#[test]
fn a_line_without_a_bar_is_rejected() {
    assert!(parse_config_file_map("a | one\nbroken line\n").is_err());
}

#[test]
fn later_mapping_lines_win() {
    let m = parse_config_file_map("k | first\nk | second\n").unwrap();
    assert_eq!(m.get(&"k".to_string()).unwrap().as_str(), "second");
}

#[test]
fn mapping_directories_assemble_all_tables() {
    let source = MappingSource {
        character: "DRILLER | Driller\n".to_string(),
        entity: "ENEMY_A | Alpha\n".to_string(),
        entity_blacklist: "TRAINING_DUMMY\n".to_string(),
        entity_combine: "ENEMY_A | ENEMY_GROUP\n".to_string(),
        mission_type: "ESCORT | Escort\n".to_string(),
        resource: "RES_VEIN_Nitra | Nitra\n".to_string(),
        weapon: "WPN_Gatling | Gatling\n".to_string(),
        weapon_combine: "WPN_Gatling_OC | WPN_Gatling\n".to_string(),
        weapon_character: "WPN_Gatling | GUNNER\n".to_string(),
        scout_special: "FAST_SCOUT\n".to_string(),
    };
    let m = load_mapping_from_file(&source).unwrap();
    assert!(m.entity_blacklist_set.contains(&"TRAINING_DUMMY".to_string()));
    assert!(m.scout_special_player_set.contains(&"FAST_SCOUT".to_string()));
    assert_eq!(m.entity_combine.get(&"ENEMY_A".to_string()).unwrap().as_str(), "ENEMY_GROUP");

    let api = generate_mapping(m);
    assert_eq!(api.entity_blacklist, vec!["TRAINING_DUMMY".to_string()]);
    assert_eq!(api.weapon_combine.get(&"WPN_Gatling_OC".to_string()).unwrap().as_str(), "WPN_Gatling");
}

#[test]
fn log_segments_keep_nonblank_lines() {
    let r = process_log_segment("one\n\n  \ntwo\n");
    assert_eq!(r, vec!["one".to_string(), "two".to_string()]);
}

fn log_damage(causer: &str, taker: &str, amount: i64) -> LogDamageInfo {
    LogDamageInfo {
        mission_time: 10,
        damage: amount,
        taker: taker.to_string(),
        causer: causer.to_string(),
        weapon: "WPN_Gatling".to_string(),
        causer_type: 1,
        taker_type: 2,
    }
}

#[test]
fn damage_bursts_combine_into_one_record() {
    let rows = vec![log_damage("A", "E", 10 * S), log_damage("A", "E", 15 * S)];
    let combined = combine_range_damage(0, 2, &rows);
    assert_eq!(combined.damage, 25 * S);
    assert_eq!(combined.taker, "E");
    assert!(rows[0].combine_eq(&rows[1]));
}

fn log_mission(ts: i64, hazard: i16, join: i16) -> LogContent {
    LogContent {
        mission_info: LogMissionInfo {
            begin_timestamp: ts,
            hazard_id: hazard,
            mission_time: 600,
            result: 0,
            reward_credit: 1000 * S,
        },
        player_info: vec![LogPlayerInfo {
            player_name: "MINER_ONE".to_string(),
            character: "DRILLER".to_string(),
            join_mission_time: join,
            total_present_time: 600,
            revive_num: 0,
            death_num: 0,
            player_escaped: true,
        }],
        damage_info: vec![],
        kill_info: vec![],
        resource_info: vec![],
        supply_info: vec![],
    }
}

#[test]
fn deep_dive_stages_get_their_hazard_ids() {
    // the second stage joins late, so both stages are relabeled
    let parsed = parse_mission_log(vec![log_mission(200, 3, 30), log_mission(100, 3, 0)]);
    assert_eq!(parsed[0].mission_info.begin_timestamp, 100);
    assert_eq!(parsed[0].mission_info.hazard_id, 100);
    assert_eq!(parsed[1].mission_info.hazard_id, 101);
}

#[test]
fn scheduler_applies_backpressure_without_blocking() {
    let mut manager = CacheManager::new(2, empty_mapping(), None);
    assert_eq!(manager.try_schedule(CacheType::MissionRaw), ScheduleOutcome::Accepted);
    assert_eq!(manager.try_schedule(CacheType::MissionKPIRaw), ScheduleOutcome::Accepted);
    // the queue is full: overflow answers Busy and nothing is dropped
    assert_eq!(manager.try_schedule(CacheType::GlobalKPIState), ScheduleOutcome::Busy);
    assert_eq!(manager.try_schedule(CacheType::GlobalKPIState), ScheduleOutcome::Busy);
    assert_eq!(manager.queue.len(), 2);
    assert_eq!(manager.worker_take(), Some(CacheType::MissionRaw));
    assert_eq!(manager.worker_take(), Some(CacheType::MissionKPIRaw));
    assert_eq!(manager.worker_take(), None);
}

#[test]
fn schedule_all_submits_in_dependency_order() {
    let mut manager = CacheManager::new(8, empty_mapping(), None);
    assert_eq!(manager.try_schedule_all(), ScheduleOutcome::Accepted);
    assert_eq!(manager.worker_take(), Some(CacheType::MissionRaw));
    manager.record_result(
        CacheType::MissionRaw,
        1,
        Ok(CacheTimeInfo { count: 1, load_from_db_ms: 0, generate_ms: 0 }),
    );
    assert!(!manager.is_working());
    assert_eq!(manager.worker_take(), Some(CacheType::MissionKPIRaw));
    assert!(manager.is_working());
    manager.record_result(
        CacheType::MissionKPIRaw,
        2,
        Ok(CacheTimeInfo { count: 1, load_from_db_ms: 0, generate_ms: 0 }),
    );
    assert_eq!(manager.worker_take(), Some(CacheType::GlobalKPIState));
    manager.record_result(
        CacheType::GlobalKPIState,
        3,
        Ok(CacheTimeInfo { count: 1, load_from_db_ms: 0, generate_ms: 0 }),
    );
    assert_eq!(manager.worker_take(), None);
    let status = manager.get_cache_status(&CacheType::GlobalKPIState).unwrap();
    assert_eq!(status.0, 3);
    assert!(status.1.is_ok());
}

#[test]
fn a_partial_schedule_keeps_what_fit() {
    let mut manager = CacheManager::new(2, empty_mapping(), None);
    assert_eq!(manager.try_schedule_all(), ScheduleOutcome::Busy);
    assert_eq!(manager.worker_take(), Some(CacheType::MissionRaw));
    assert_eq!(manager.worker_take(), Some(CacheType::MissionKPIRaw));
    assert_eq!(manager.worker_take(), None);
}

fn empty_mapping() -> Mapping {
    Mapping {
        character_mapping: KMap::empty(),
        entity_mapping: KMap::empty(),
        entity_blacklist_set: KMap::empty(),
        entity_combine: KMap::empty(),
        mission_type_mapping: KMap::empty(),
        resource_mapping: KMap::empty(),
        weapon_mapping: KMap::empty(),
        weapon_combine: KMap::empty(),
        weapon_character: KMap::empty(),
        scout_special_player_set: KMap::empty(),
    }
}

#[test]
fn api_urls_join_the_endpoint_and_path() {
    assert_eq!(API::LoadMission.get_url("http://x/api"), "http://x/api/mission/load_mission");
    assert_eq!(API::Login.get_url(""), "/login");
}

#[test]
fn cache_kinds_have_update_paths() {
    assert_eq!(CacheType::MissionRaw.url_path(), "/cache/update_mission_raw");
    assert_eq!(CacheType::GlobalKPIState.url_path(), "/cache/update_global_kpi_state");
}

#[test]
fn cli_cache_kinds_map_to_wire_kinds() {
    assert_eq!(CliCacheType::All.to_api(), APICacheType::All);
    assert_eq!(CliCacheType::MissionRaw.to_api(), APICacheType::MissionRaw);
}

#[test]
fn client_errors_describe_themselves() {
    let e = ClientError::NetworkError("timed out".to_string());
    assert_eq!(e.describe(), "Network error: timed out");
}

#[test]
fn roles_come_from_character_and_allow_list() {
    let mut allow = KMap::empty();
    allow.set(&"FAST_SCOUT".to_string(), ());
    assert_eq!(
        CharacterKPIType::from_player("SCOUT", "FAST_SCOUT", &allow),
        CharacterKPIType::ScoutSpecial
    );
    assert_eq!(
        CharacterKPIType::from_player("SCOUT", "SOMEONE", &allow),
        CharacterKPIType::Scout
    );
    assert_eq!(
        CharacterKPIType::from_player("DRILLER", "FAST_SCOUT", &allow),
        CharacterKPIType::Driller
    );
}

#[test]
fn components_have_display_names_and_indexes() {
    assert_eq!(KPIComponent::Kill.to_string_zh(), "击杀数指数");
    assert_eq!(KPIComponent::Minerals.to_string_zh(), "采集指数");
    assert_eq!(KPIComponent::from_index(4), Some(KPIComponent::Death));
    assert_eq!(KPIComponent::from_index(9), None);
    assert_eq!(KPIComponent::Death.to_index(), 4);
    assert_eq!(KPIComponent::Death.max_value(), 0);
    assert_eq!(KPIComponent::Kill.max_value(), S);
}

#[test]
fn missing_config_is_refused_distinctly() {
    let manager = CacheManager::new(8, empty_mapping(), None);
    match manager.require_kpi_config() {
        Ok(_) => panic!("an absent configuration must be refused"),
        Err(CacheGenerationError::ConfigError(_)) => {}
        Err(CacheGenerationError::InternalError(_)) => {
            panic!("a missing configuration is not an internal error")
        }
    }
}

#[test]
fn rows_group_by_their_mission() {
    let missions = vec![
        Mission {
            id: 1,
            begin_timestamp: 0,
            mission_time: 600,
            mission_type_id: 1,
            hazard_id: 4,
            result: 0,
            reward_credit: 0,
            total_supply_count: 0,
        },
        Mission {
            id: 2,
            begin_timestamp: 0,
            mission_time: 600,
            mission_type_id: 1,
            hazard_id: 4,
            result: 0,
            reward_credit: 0,
            total_supply_count: 0,
        },
    ];
    let rows = vec![
        KillInfo { mission_id: 2, player_id: 1, entity_id: 10 },
        KillInfo { mission_id: 1, player_id: 1, entity_id: 11 },
        KillInfo { mission_id: 2, player_id: 2, entity_id: 12 },
    ];
    let grouped = group_rows_by_mission(&missions, &rows);
    let m1 = grouped.get(&1i32).unwrap();
    assert_eq!(m1.len(), 1);
    assert_eq!(m1[0].entity_id, 11);
    let m2 = grouped.get(&2i32).unwrap();
    assert_eq!(m2.len(), 2);
    assert_eq!(m2[0].entity_id, 10);
    assert_eq!(m2[1].entity_id, 12);
    assert!(grouped.get(&3i32).is_none());
}
