//! Mission telemetry analytics: per-mission aggregation, per-player KPI
//! component computation, cross-mission statistical normalization, and a
//! non-blocking cache-regeneration scheduler.
//!
//! Real-valued quantities (damage amounts, ratios, weights, indices) are
//! carried as fixed-point integers in micro-units: the stored value is the
//! real value times `FX_SCALE`.
use vstd::prelude::*;

pub mod client;
pub mod codec;
pub mod formatter;
pub mod fx;
pub mod kmap;
pub mod global_kpi;
pub mod scheduler;
pub mod kpi;
pub mod load;
pub mod log;
pub mod mission_cache;
pub mod mission_kpi;
pub mod text;
pub mod types;

verus! {

/// Fixed-point values carry six decimal places: `1_000_000` stands for `1.0`.
pub const FX_SCALE: i64 = 1_000_000;

/// Threshold below which a fixed-point denominator counts as zero
/// (the real value `1e-3`).
pub const FX_EPSILON: i64 = 1_000;

/// The resource id of nitra, the one resource tracked as its own component.
pub const NITRA_GAME_ID: &'static str = "RES_VEIN_Nitra";

/// Presence-ratio threshold (`0.5`) below which a player is excluded from
/// the cross-mission percentile distribution.
pub const KPI_CALCULATION_PLAYER_INDEX: i64 = 500_000;

/// The mapping tables in their wire shape: the blacklist as a list, the
/// rest as plain lookup tables.
pub struct APIMapping {
    pub character: types::StrLookup,
    pub entity: types::StrLookup,
    pub entity_blacklist: Vec<String>,
    pub entity_combine: types::StrLookup,
    pub mission_type: types::StrLookup,
    pub resource: types::StrLookup,
    pub weapon: types::StrLookup,
    pub weapon_combine: types::StrLookup,
    pub weapon_character: types::StrLookup,
}

/// Turn the internal mapping tables into their wire shape; the blacklist
/// keeps its insertion order.
pub fn generate_mapping(mapping: types::Mapping) -> (r: APIMapping)
    requires
        mapping.wf(),
    ensures
        r.character == mapping.character_mapping,
        r.entity == mapping.entity_mapping,
        r.entity_blacklist@.len() == mapping.entity_blacklist_set.key_seq().len(),
        forall|i: int|
            0 <= i < r.entity_blacklist@.len() ==> (#[trigger] r.entity_blacklist@[i])@
                == mapping.entity_blacklist_set.key_seq()[i],
        r.entity_combine == mapping.entity_combine,
        r.mission_type == mapping.mission_type_mapping,
        r.resource == mapping.resource_mapping,
        r.weapon == mapping.weapon_mapping,
        r.weapon_combine == mapping.weapon_combine,
        r.weapon_character == mapping.weapon_character,
{
    APIMapping {
        character: mapping.character_mapping,
        entity: mapping.entity_mapping,
        entity_blacklist: mapping.entity_blacklist_set.keys,
        entity_combine: mapping.entity_combine,
        mission_type: mapping.mission_type_mapping,
        resource: mapping.resource_mapping,
        weapon: mapping.weapon_mapping,
        weapon_combine: mapping.weapon_combine,
        weapon_character: mapping.weapon_character,
    }
}

} // verus!
