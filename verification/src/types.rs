//! The domain vocabulary: roles, KPI components, raw telemetry rows,
//! aggregation packs, and the static mapping / weight configuration.
//!
//! Monetary-style real values (damage, resource amounts, weights, ratios)
//! are fixed-point micro-units throughout; see the crate root.
use vstd::prelude::*;
use crate::kmap::{KMap, MapKey};

verus! {

/// The five player roles used for KPI normalization. `ScoutSpecial` is the
/// flagged sub-variant of `Scout`, selected by a player-name allow-list.
#[derive(Clone, Copy, PartialEq, Eq, Structural, Debug)]
pub enum CharacterKPIType {
    Driller,
    Engineer,
    Gunner,
    Scout,
    ScoutSpecial,
}

impl MapKey for CharacterKPIType {
    type KV = CharacterKPIType;

    open spec fn key_view(&self) -> CharacterKPIType {
        *self
    }

    fn key_eq(&self, other: &Self) -> (r: bool) {
        *self == *other
    }

    fn key_dup(&self) -> (r: Self) {
        *self
    }
}

impl CharacterKPIType {
    /// Decode the role from its persisted numeric id.
    pub fn from_i16(value: i16) -> (r: Option<CharacterKPIType>)
        ensures
            r == spec_character_from_i16(value),
    {
        match value {
            0 => Some(CharacterKPIType::Driller),
            1 => Some(CharacterKPIType::Gunner),
            2 => Some(CharacterKPIType::Engineer),
            3 => Some(CharacterKPIType::Scout),
            4 => Some(CharacterKPIType::ScoutSpecial),
            _ => None,
        }
    }

    /// Classify a player: by character, except that a scout on the allow-list
    /// is the special sub-role.
    pub fn from_player(
        character_game_id: &str,
        player_name: &str,
        scout_special_player_set: &StrSet,
    ) -> (r: CharacterKPIType)
        requires
            scout_special_player_set.wf(),
            is_known_character(character_game_id@),
        ensures
            r == spec_from_player(
                character_game_id@,
                player_name@,
                scout_special_player_set.contains_key(player_name@),
            ),
    {
        if crate::text::str_eq(character_game_id, "DRILLER") {
            CharacterKPIType::Driller
        } else if crate::text::str_eq(character_game_id, "ENGINEER") {
            CharacterKPIType::Engineer
        } else if crate::text::str_eq(character_game_id, "GUNNER") {
            CharacterKPIType::Gunner
        } else {
            if scout_special_player_set.contains(&player_name.to_owned()) {
                CharacterKPIType::ScoutSpecial
            } else {
                CharacterKPIType::Scout
            }
        }
    }
}

/// Role decoding as a mathematical function.
pub open spec fn spec_character_from_i16(value: i16) -> Option<CharacterKPIType> {
    if value == 0 {
        Some(CharacterKPIType::Driller)
    } else if value == 1 {
        Some(CharacterKPIType::Gunner)
    } else if value == 2 {
        Some(CharacterKPIType::Engineer)
    } else if value == 3 {
        Some(CharacterKPIType::Scout)
    } else if value == 4 {
        Some(CharacterKPIType::ScoutSpecial)
    } else {
        None
    }
}

/// The character ids the classifier accepts.
pub open spec fn is_known_character(id: Seq<char>) -> bool {
    id == "DRILLER"@ || id == "ENGINEER"@ || id == "GUNNER"@ || id == "SCOUT"@
}

/// Role classification as a mathematical function of the character id and
/// whether the player is on the scout-special allow-list.
pub open spec fn spec_from_player(
    character_game_id: Seq<char>,
    player_name: Seq<char>,
    on_allow_list: bool,
) -> CharacterKPIType {
    if character_game_id == "DRILLER"@ {
        CharacterKPIType::Driller
    } else if character_game_id == "ENGINEER"@ {
        CharacterKPIType::Engineer
    } else if character_game_id == "GUNNER"@ {
        CharacterKPIType::Gunner
    } else if on_allow_list {
        CharacterKPIType::ScoutSpecial
    } else {
        CharacterKPIType::Scout
    }
}

/// The nine fixed KPI components of every per-player record.
#[derive(Clone, Copy, PartialEq, Eq, Structural, Debug)]
pub enum KPIComponent {
    Kill,
    Damage,
    Priority,
    Revive,
    Death,
    FriendlyFire,
    Nitra,
    Supply,
    Minerals,
}

impl MapKey for KPIComponent {
    type KV = KPIComponent;

    open spec fn key_view(&self) -> KPIComponent {
        *self
    }

    fn key_eq(&self, other: &Self) -> (r: bool) {
        *self == *other
    }

    fn key_dup(&self) -> (r: Self) {
        *self
    }
}

/// Component decoding as a mathematical function of the persisted index.
pub open spec fn spec_component_from_index(value: int) -> Option<KPIComponent> {
    if value == 0 {
        Some(KPIComponent::Kill)
    } else if value == 1 {
        Some(KPIComponent::Damage)
    } else if value == 2 {
        Some(KPIComponent::Priority)
    } else if value == 3 {
        Some(KPIComponent::Revive)
    } else if value == 4 {
        Some(KPIComponent::Death)
    } else if value == 5 {
        Some(KPIComponent::FriendlyFire)
    } else if value == 6 {
        Some(KPIComponent::Nitra)
    } else if value == 7 {
        Some(KPIComponent::Supply)
    } else if value == 8 {
        Some(KPIComponent::Minerals)
    } else {
        None
    }
}

impl KPIComponent {
    /// Decode a component from its persisted index.
    pub fn from_index(value: usize) -> (r: Option<KPIComponent>)
        ensures
            r == spec_component_from_index(value as int),
    {
        match value {
            0 => Some(KPIComponent::Kill),
            1 => Some(KPIComponent::Damage),
            2 => Some(KPIComponent::Priority),
            3 => Some(KPIComponent::Revive),
            4 => Some(KPIComponent::Death),
            5 => Some(KPIComponent::FriendlyFire),
            6 => Some(KPIComponent::Nitra),
            7 => Some(KPIComponent::Supply),
            8 => Some(KPIComponent::Minerals),
            _ => None,
        }
    }

    /// The persisted index of the component.
    pub fn to_index(self) -> (r: i16)
        ensures
            spec_component_from_index(r as int) == Some(self),
            0 <= r <= 8,
    {
        match self {
            KPIComponent::Kill => 0,
            KPIComponent::Damage => 1,
            KPIComponent::Priority => 2,
            KPIComponent::Revive => 3,
            KPIComponent::Death => 4,
            KPIComponent::FriendlyFire => 5,
            KPIComponent::Nitra => 6,
            KPIComponent::Supply => 7,
            KPIComponent::Minerals => 8,
        }
    }

    /// The Chinese display name of the component.
    pub fn to_string_zh(&self) -> (r: String)
        ensures
            r@ == spec_component_name_zh(*self),
    {
        match self {
            KPIComponent::Kill => "击杀数指数".to_owned(),
            KPIComponent::Damage => "输出指数".to_owned(),
            KPIComponent::Priority => "高威胁目标".to_owned(),
            KPIComponent::Revive => "救人指数".to_owned(),
            KPIComponent::Death => "倒地指数".to_owned(),
            KPIComponent::FriendlyFire => "友伤指数".to_owned(),
            KPIComponent::Nitra => "硝石指数".to_owned(),
            KPIComponent::Supply => "补给指数".to_owned(),
            KPIComponent::Minerals => "采集指数".to_owned(),
        }
    }

    /// The largest value the component's transformed score may take, in
    /// fixed-point.
    pub fn max_value(&self) -> (r: i64)
        ensures
            r == spec_component_max_value(*self),
    {
        match self {
            KPIComponent::Death => 0,
            KPIComponent::Supply => 0,
            _ => crate::FX_SCALE,
        }
    }
}

pub open spec fn spec_component_name_zh(c: KPIComponent) -> Seq<char> {
    match c {
        KPIComponent::Kill => "击杀数指数"@,
        KPIComponent::Damage => "输出指数"@,
        KPIComponent::Priority => "高威胁目标"@,
        KPIComponent::Revive => "救人指数"@,
        KPIComponent::Death => "倒地指数"@,
        KPIComponent::FriendlyFire => "友伤指数"@,
        KPIComponent::Nitra => "硝石指数"@,
        KPIComponent::Supply => "补给指数"@,
        KPIComponent::Minerals => "采集指数"@,
    }
}

pub open spec fn spec_component_max_value(c: KPIComponent) -> i64 {
    match c {
        KPIComponent::Death => 0,
        KPIComponent::Supply => 0,
        _ => crate::FX_SCALE,
    }
}

/// A string-keyed set, as a map to unit.
pub type StrSet = KMap<String, ()>;

/// A string-to-string lookup table.
pub type StrLookup = KMap<String, String>;

/// One completed mission's metadata row.
#[derive(Clone, Copy)]
pub struct Mission {
    pub id: i32,
    pub begin_timestamp: i64,
    /// Mission duration in seconds; positive for any valid mission.
    pub mission_time: i16,
    pub mission_type_id: i16,
    pub hazard_id: i16,
    pub result: i16,
    /// Reward credit in fixed-point micro-units.
    pub reward_credit: i64,
    pub total_supply_count: i16,
}

/// One player's participation row for a mission.
#[derive(Clone, Copy)]
pub struct PlayerInfo {
    pub mission_id: i32,
    pub player_id: i16,
    pub character_id: i16,
    pub player_rank: i16,
    pub character_rank: i16,
    pub character_promotion: i16,
    /// Seconds of the mission this player was present.
    pub present_time: i16,
    pub revive_num: i16,
    pub death_num: i16,
    pub player_escaped: bool,
}

/// One kill event row.
#[derive(Clone, Copy)]
pub struct KillInfo {
    pub mission_id: i32,
    pub player_id: i16,
    pub entity_id: i16,
}

/// One damage event row. Causer type `1` is a player; taker type `1` is a
/// player (friendly fire), anything else an entity.
#[derive(Clone, Copy)]
pub struct DamageInfo {
    pub mission_id: i32,
    pub causer_id: i16,
    pub taker_id: i16,
    pub weapon_id: i16,
    pub causer_type: i16,
    pub taker_type: i16,
    /// Damage amount in fixed-point micro-units; never negative.
    pub damage: i64,
}

/// One resource collection event row.
#[derive(Clone, Copy)]
pub struct ResourceInfo {
    pub mission_id: i32,
    pub player_id: i16,
    pub resource_id: i16,
    /// Amount in fixed-point micro-units; never negative.
    pub amount: i64,
}

/// One supply-use event row.
#[derive(Clone, Copy)]
pub struct SupplyInfo {
    pub mission_id: i32,
    pub player_id: i16,
    /// Ammo fraction refilled, fixed-point.
    pub ammo: i64,
    /// Health fraction refilled, fixed-point.
    pub health: i64,
}

/// One manual score-adjustment row.
#[derive(Clone)]
pub struct AssignedKPI {
    pub mission_id: i32,
    pub player_id: i16,
    pub target_kpi_component: i16,
    /// Per-component delta, fixed-point; zero means "none".
    pub kpi_component_delta_value: i64,
    /// Overall delta, fixed-point; zero means "none".
    pub total_delta_value: i64,
    pub note: Option<String>,
}

/// Per-player kill totals for one entity.
pub struct KillPack {
    pub taker_id: i16,
    pub taker_name: String,
    pub total_amount: i32,
}

/// Accumulated damage against one taker.
#[derive(Clone, Copy)]
pub struct DamagePack {
    pub taker_id: i16,
    pub taker_type: i16,
    pub weapon_id: i16,
    /// Total damage, fixed-point, saturating.
    pub total_amount: i64,
}

/// Accumulated damage dealt by one weapon, with a per-taker breakdown.
pub struct WeaponPack {
    pub weapon_id: i16,
    /// Total over the breakdown, friendly fire included, fixed-point.
    pub total_amount: i64,
    pub detail: KMap<String, DamagePack>,
}

/// One supply-use record.
#[derive(Clone, Copy)]
pub struct SupplyPack {
    pub ammo: i64,
    pub health: i64,
}

/// The static game-content mapping tables.
pub struct Mapping {
    pub character_mapping: StrLookup,
    pub entity_mapping: StrLookup,
    /// Entity ids whose rows are discarded.
    pub entity_blacklist_set: StrSet,
    /// Canonicalization of near-duplicate entity ids.
    pub entity_combine: StrLookup,
    pub mission_type_mapping: StrLookup,
    pub resource_mapping: StrLookup,
    pub weapon_mapping: StrLookup,
    /// Canonicalization of near-duplicate weapon ids.
    pub weapon_combine: StrLookup,
    pub weapon_character: StrLookup,
    /// Players forced into the scout sub-role.
    pub scout_special_player_set: StrSet,
}

impl Mapping {
    pub open spec fn wf(&self) -> bool {
        &&& self.character_mapping.wf()
        &&& self.entity_mapping.wf()
        &&& self.entity_blacklist_set.wf()
        &&& self.entity_combine.wf()
        &&& self.mission_type_mapping.wf()
        &&& self.resource_mapping.wf()
        &&& self.weapon_mapping.wf()
        &&& self.weapon_combine.wf()
        &&& self.weapon_character.wf()
        &&& self.scout_special_player_set.wf()
    }

    pub fn empty() -> (r: Mapping)
        ensures
            r.wf(),
            r.entity_blacklist_set.spec_len() == 0,
            r.entity_combine.spec_len() == 0,
            r.weapon_combine.spec_len() == 0,
            r.scout_special_player_set.spec_len() == 0,
    {
        Mapping {
            character_mapping: KMap::empty(),
            entity_mapping: KMap::empty(),
            entity_blacklist_set: KMap::empty(),
            entity_combine: KMap::empty(),
            mission_type_mapping: KMap::empty(),
            resource_mapping: KMap::empty(),
            weapon_mapping: KMap::empty(),
            weapon_combine: KMap::empty(),
            weapon_character: KMap::empty(),
            scout_special_player_set: KMap::empty(),
        }
    }
}

/// One configured percentile segment: a rank range and its target range,
/// both fixed-point pairs.
#[derive(Clone, Copy)]
pub struct IndexTransformRangeConfig {
    pub rank_range: (i64, i64),
    pub transform_range: (i64, i64),
}

/// One derived transform segment for a role/component: the rank range, the
/// source-value range it covers, the target range, and the coefficients of
/// the line `y = (a * x) / FX_SCALE + b`.
#[derive(Clone, Copy)]
pub struct IndexTransformRange {
    pub rank_range: (i64, i64),
    pub source_range: (i64, i64),
    pub transform_range: (i64, i64),
    pub transform_coefficient: (i64, i64),
    pub player_count: i32,
}

/// The weight configuration driving KPI computation.
pub struct KPIConfig {
    /// Per-role weights over entity ids, for Kill and Damage.
    pub character_weight_table: KMap<CharacterKPIType, KMap<String, i64>>,
    /// Weights over entity ids for the Priority component.
    pub priority_table: KMap<String, i64>,
    /// Weights over resource ids for the Minerals component.
    pub resource_weight_table: KMap<String, i64>,
    /// Per-role, per-component weights for the final combination.
    pub character_component_weight: KMap<CharacterKPIType, KMap<KPIComponent, i64>>,
    /// The percentile cut-points and their target score ranges.
    pub transform_range: Vec<IndexTransformRangeConfig>,
}

impl KPIConfig {
    pub open spec fn wf(&self) -> bool {
        &&& self.character_weight_table.wf()
        &&& forall|i: int|
            0 <= i < self.character_weight_table.val_seq().len()
                ==> (#[trigger] self.character_weight_table.val_seq()[i]).wf()
                && nonneg_vals(self.character_weight_table.val_seq()[i])
        &&& self.priority_table.wf()
        &&& nonneg_vals(self.priority_table)
        &&& self.resource_weight_table.wf()
        &&& nonneg_vals(self.resource_weight_table)
        &&& self.character_component_weight.wf()
        &&& forall|i: int|
            0 <= i < self.character_component_weight.val_seq().len()
                ==> (#[trigger] self.character_component_weight.val_seq()[i]).wf()
        &&& forall|t: int|
            0 <= t < self.transform_range@.len() ==> {
                let rc = #[trigger] self.transform_range@[t];
                &&& 0 <= rc.rank_range.0 < crate::FX_SCALE
                &&& rc.rank_range.0 <= rc.rank_range.1 <= crate::FX_SCALE
                &&& 0 <= rc.transform_range.0 <= rc.transform_range.1
            }
    }
}

/// The KPI scoring rules' version tag.
pub struct KPIVersionInfo {
    pub version: String,
}

/// A request to remove one player's manual adjustments for one mission.
pub struct APIDeleteAssignedKPI {
    pub mission_id: i32,
    pub player_name: String,
}

/// A request to flag or unflag one mission as invalid.
pub struct APISetMissionInvalid {
    pub invalid: bool,
    pub mission_id: i32,
    pub reason: String,
}

/// One invalid-mission record.
pub struct APIMissionInvalid {
    pub mission_id: i32,
    pub reason: String,
}

/// The outcome of one bulk mission upload.
pub struct LoadResult {
    pub load_count: i32,
    pub decode_time: String,
    pub load_time: String,
}

/// One mission's validity header.
pub struct MissionGeneralInfo {
    pub mission_id: i32,
    pub mission_begin_timestamp: i64,
    pub mission_invalid: bool,
    pub mission_invalid_reason: String,
}

/// One player's per-mission general record.
pub struct MissionGeneralPlayerInfo {
    pub character_game_id: String,
    pub player_rank: i16,
    pub character_rank: i16,
    pub character_promotion: i16,
    pub present_time: i16,
    pub revive_num: i16,
    pub death_num: i16,
    pub player_escaped: bool,
}

/// One displayed row of the mission list.
pub struct MissionTableItem {
    pub id: i32,
    pub begin_time: String,
    pub mission_time: String,
    pub mission_type: String,
    pub hazard: String,
    pub result: String,
    pub reward_credit: String,
}

/// One displayed row of the invalid-mission list.
pub struct MissionInvalidTableItem {
    pub mission_id: i32,
    pub begin_time: String,
    pub mission_time: String,
    pub mission_type: String,
    pub reason: String,
}

/// Histograms of mission durations and times of day, at fixed resolutions.
pub struct GameTimeInfo {
    pub mission_time_resolution: u16,
    pub game_time_resolution: u32,
    pub mission_time_distribution: KMap<i16, i32>,
    pub game_time_distribution: KMap<i32, i32>,
}

impl MapKey for i32 {
    type KV = i32;

    open spec fn key_view(&self) -> i32 {
        *self
    }

    fn key_eq(&self, other: &Self) -> (r: bool) {
        *self == *other
    }

    fn key_dup(&self) -> (r: Self) {
        *self
    }
}

/// Every value of the map is non-negative.
pub open spec fn nonneg_vals<K: MapKey>(m: KMap<K, i64>) -> bool {
    forall|i: int| 0 <= i < m.val_seq().len() ==> m.val_seq()[i] >= 0
}

/// Non-negativity of every lookup result gives non-negativity of the value
/// sequence.
pub proof fn lemma_nonneg_vals_from_get<K: MapKey>(m: KMap<K, i64>)
    requires
        m.wf(),
        forall|k: K::KV|
            match #[trigger] m.spec_get(k) {
                Some(v) => v >= 0,
                None => true,
            },
    ensures
        nonneg_vals(m),
{
    assert forall|i: int| 0 <= i < m.val_seq().len() implies m.val_seq()[i] >= 0 by {
        m.lemma_get_at_index(i);
    }
}

} // verus!
