//! Parsed mission-log records and the fixes applied after parsing: damage
//! ticks combined, missions sorted by start time, and deep-dive stages
//! given their distinguishing hazard ids.
use vstd::prelude::*;
use crate::fx::{sat_add, spec_sat_add};

verus! {

/// The mission header of one log file.
pub struct LogMissionInfo {
    pub begin_timestamp: i64,
    /// The displayed hazard; rewritten for deep-dive stages.
    pub hazard_id: i16,
    pub mission_time: i16,
    pub result: i16,
    pub reward_credit: i64,
}

/// One player line of a log file.
pub struct LogPlayerInfo {
    pub player_name: String,
    pub character: String,
    pub join_mission_time: i16,
    pub total_present_time: i16,
    pub revive_num: i16,
    pub death_num: i16,
    pub player_escaped: bool,
}

/// One damage line of a log file.
pub struct LogDamageInfo {
    pub mission_time: i16,
    /// Fixed-point amount.
    pub damage: i64,
    pub taker: String,
    pub causer: String,
    pub weapon: String,
    pub causer_type: i16,
    pub taker_type: i16,
}

impl LogDamageInfo {
    /// Two ticks that belong to one burst: same actors, weapon and kinds.
    pub fn combine_eq(&self, other: &LogDamageInfo) -> (r: bool)
        ensures
            r == spec_combine_eq(*self, *other),
    {
        self.causer_type == other.causer_type && self.taker_type == other.taker_type
            && crate::text::str_eq(self.taker.as_str(), other.taker.as_str())
            && crate::text::str_eq(self.causer.as_str(), other.causer.as_str())
            && crate::text::str_eq(self.weapon.as_str(), other.weapon.as_str())
    }
}

pub open spec fn spec_combine_eq(a: LogDamageInfo, b: LogDamageInfo) -> bool {
    a.causer_type == b.causer_type && a.taker_type == b.taker_type && a.taker@ == b.taker@
        && a.causer@ == b.causer@ && a.weapon@ == b.weapon@
}

/// One kill line of a log file.
pub struct LogKillInfo {
    pub mission_time: i16,
    pub causer: String,
    pub killed: String,
}

/// One resource line of a log file.
pub struct LogResourceInfo {
    pub mission_time: i16,
    pub player_name: String,
    pub resource: String,
    pub amount: i64,
}

/// One supply line of a log file.
pub struct LogSupplyInfo {
    pub mission_time: i16,
    pub player_name: String,
    pub ammo: i64,
    pub health: i64,
}

/// One parsed log file.
pub struct LogContent {
    pub mission_info: LogMissionInfo,
    pub player_info: Vec<LogPlayerInfo>,
    pub damage_info: Vec<LogDamageInfo>,
    pub kill_info: Vec<LogKillInfo>,
    pub resource_info: Vec<LogResourceInfo>,
    pub supply_info: Vec<LogSupplyInfo>,
}

/// The saturating damage sum of the ticks in `[b, e)`.
pub open spec fn spec_range_damage(rows: Seq<LogDamageInfo>, b: int, e: int) -> int
    decreases e - b,
{
    if e <= b || b < 0 || e > rows.len() {
        0
    } else {
        spec_sat_add(spec_range_damage(rows, b, e - 1), rows[e - 1].damage as int)
    }
}

/// Combine one burst of damage ticks into a single record carrying the
/// burst's first tick's fields and the summed amount.
pub fn combine_range_damage(
    range_begin_idx: usize,
    range_end_idx: usize,
    damage_info: &Vec<LogDamageInfo>,
) -> (r: LogDamageInfo)
    requires
        range_begin_idx < range_end_idx,
        range_end_idx <= damage_info@.len(),
    ensures
        r.mission_time == damage_info@[range_begin_idx as int].mission_time,
        r.taker@ == damage_info@[range_begin_idx as int].taker@,
        r.causer@ == damage_info@[range_begin_idx as int].causer@,
        r.weapon@ == damage_info@[range_begin_idx as int].weapon@,
        r.causer_type == damage_info@[range_begin_idx as int].causer_type,
        r.taker_type == damage_info@[range_begin_idx as int].taker_type,
        r.damage as int == spec_range_damage(
            damage_info@,
            range_begin_idx as int,
            range_end_idx as int,
        ),
{
    let first = &damage_info[range_begin_idx];
    let mut total: i64 = 0;
    let mut i: usize = range_begin_idx;
    while i < range_end_idx
        invariant
            range_begin_idx < range_end_idx,
            range_end_idx <= damage_info@.len(),
            range_begin_idx <= i <= range_end_idx,
            total as int == spec_range_damage(damage_info@, range_begin_idx as int, i as int),
        decreases range_end_idx - i,
    {
        total = sat_add(total, damage_info[i].damage);
        i += 1;
    }
    LogDamageInfo {
        mission_time: first.mission_time,
        damage: total,
        taker: first.taker.clone(),
        causer: first.causer.clone(),
        weapon: first.weapon.clone(),
        causer_type: first.causer_type,
        taker_type: first.taker_type,
    }
}

/// The earliest join time among a mission's players.
pub open spec fn spec_fpjt(rows: Seq<LogPlayerInfo>) -> int
    decreases rows.len(),
{
    if rows.len() == 0 {
        0
    } else if rows.len() == 1 {
        rows[0].join_mission_time as int
    } else {
        let rest = spec_fpjt(rows.drop_last());
        if (rows.last().join_mission_time as int) < rest {
            rows.last().join_mission_time as int
        } else {
            rest
        }
    }
}

/// A deep-dive stage: its first player joined after the mission clock
/// started.
pub open spec fn spec_is_dd(m: LogContent) -> bool {
    spec_fpjt(m.player_info@) > 0
}

fn fpjt_exec(rows: &Vec<LogPlayerInfo>) -> (r: i64)
    ensures
        r as int == spec_fpjt(rows@),
{
    let n = rows.len();
    let mut acc: i64 = 0;
    let mut i: usize = 0;
    while i < n
        invariant
            n == rows@.len(),
            0 <= i <= n,
            acc as int == spec_fpjt(rows@.take(i as int)),
        decreases n - i,
    {
        proof {
            assert(rows@.take(i as int + 1).drop_last() =~= rows@.take(i as int));
            assert(rows@.take(i as int + 1).last() == rows@[i as int]);
        }
        let j = rows[i].join_mission_time as i64;
        if i == 0 {
            acc = j;
        } else if j < acc {
            acc = j;
        }
        i += 1;
    }
    proof {
        assert(rows@.take(n as int) =~= rows@);
    }
    acc
}

/// Insert a mission into a start-time-sorted sequence.
pub open spec fn spec_insert_log(s: Seq<LogContent>, v: LogContent) -> Seq<LogContent>
    decreases s.len(),
{
    if s.len() == 0 {
        seq![v]
    } else if v.mission_info.begin_timestamp >= s.last().mission_info.begin_timestamp {
        s.push(v)
    } else {
        spec_insert_log(s.drop_last(), v).push(s.last())
    }
}

/// Sort missions ascending by start time.
pub open spec fn spec_sort_logs(s: Seq<LogContent>) -> Seq<LogContent>
    decreases s.len(),
{
    if s.len() == 0 {
        Seq::empty()
    } else {
        spec_insert_log(spec_sort_logs(s.drop_last()), s.last())
    }
}

fn insert_log(s: Vec<LogContent>, v: LogContent) -> (r: Vec<LogContent>)
    ensures
        r@ == spec_insert_log(s@, v),
    decreases s@.len(),
{
    let mut s = s;
    let ghost s0 = s@;
    match s.pop() {
        None => {
            s.push(v);
            proof {
                assert(s@ =~= seq![v]);
            }
            s
        },
        Some(last) => {
            if v.mission_info.begin_timestamp >= last.mission_info.begin_timestamp {
                s.push(last);
                s.push(v);
                proof {
                    assert(s@ =~= s0.push(v));
                }
                s
            } else {
                let mut r = insert_log(s, v);
                r.push(last);
                r
            }
        },
    }
}

/// The missions with the step applied that gives stage `i` and its
/// predecessor their deep-dive hazard ids.
pub open spec fn spec_dd_step(ms: Seq<LogContent>, i: int) -> Seq<LogContent> {
    if 1 <= i < ms.len() && spec_is_dd(ms[i]) {
        let prev = ms[i - 1];
        let cur = ms[i];
        if spec_is_dd(prev) {
            if prev.mission_info.hazard_id == 3 || prev.mission_info.hazard_id == 101 {
                ms.update(i - 1, spec_with_hazard(prev, 101)).update(i, spec_with_hazard(cur, 102))
            } else {
                ms.update(i - 1, spec_with_hazard(prev, 104)).update(i, spec_with_hazard(cur, 105))
            }
        } else {
            if prev.mission_info.hazard_id == 3 || prev.mission_info.hazard_id == 100 {
                ms.update(i - 1, spec_with_hazard(prev, 100)).update(i, spec_with_hazard(cur, 101))
            } else {
                ms.update(i - 1, spec_with_hazard(prev, 103)).update(i, spec_with_hazard(cur, 104))
            }
        }
    } else {
        ms
    }
}

/// A mission with its hazard id replaced.
pub open spec fn spec_with_hazard(m: LogContent, h: i16) -> LogContent {
    LogContent {
        mission_info: LogMissionInfo {
            begin_timestamp: m.mission_info.begin_timestamp,
            hazard_id: h,
            mission_time: m.mission_info.mission_time,
            result: m.mission_info.result,
            reward_credit: m.mission_info.reward_credit,
        },
        player_info: m.player_info,
        damage_info: m.damage_info,
        kill_info: m.kill_info,
        resource_info: m.resource_info,
        supply_info: m.supply_info,
    }
}

/// The steps for stages `1 .. i` applied in order.
pub open spec fn spec_dd_upto(ms: Seq<LogContent>, i: int) -> Seq<LogContent>
    decreases i,
{
    if i <= 1 {
        ms
    } else {
        spec_dd_step(spec_dd_upto(ms, i - 1), i - 1)
    }
}

/// Sort parsed mission logs by start time and give deep-dive stages their
/// distinguishing hazard ids.
pub fn parse_mission_log(missions: Vec<LogContent>) -> (r: Vec<LogContent>)
    ensures
        r@ == spec_dd_upto(spec_sort_logs(missions@), spec_sort_logs(missions@).len() as int),
{
    let n = missions.len();
    let mut missions = missions;
    let mut sorted: Vec<LogContent> = Vec::new();
    let ghost m0 = missions@;
    let mut i: usize = 0;
    while i < n
        invariant
            m0.len() == n,
            missions@ == m0.skip(i as int),
            0 <= i <= n,
            sorted@ == spec_sort_logs(m0.take(i as int)),
        decreases n - i,
    {
        proof {
            assert(m0.take(i as int + 1).drop_last() =~= m0.take(i as int));
            assert(m0.take(i as int + 1).last() == m0[i as int]);
            assert(m0.skip(i as int)[0] == m0[i as int]);
        }
        let v = missions.remove(0);
        proof {
            assert(missions@ =~= m0.skip(i as int + 1));
        }
        sorted = insert_log(sorted, v);
        i += 1;
    }
    proof {
        assert(m0.take(n as int) =~= m0);
    }
    let ghost base = spec_sort_logs(m0);
    let sn = sorted.len();
    let mut i: usize = 1;
    while i < sn
        invariant
            base == spec_sort_logs(m0),
            sn == base.len(),
            1 <= i <= sn || (sn == 0 && i == 1),
            sorted@ == spec_dd_upto(base, i as int),
            sorted@.len() == sn,
        decreases sn - i,
    {
        let dd_cur = fpjt_exec(&sorted[i].player_info) > 0;
        if dd_cur {
            let dd_prev = fpjt_exec(&sorted[i - 1].player_info) > 0;
            let prev_h = sorted[i - 1].mission_info.hazard_id;
            let (new_prev_h, new_cur_h): (i16, i16) = if dd_prev {
                if prev_h == 3 || prev_h == 101 {
                    (101, 102)
                } else {
                    (104, 105)
                }
            } else {
                if prev_h == 3 || prev_h == 100 {
                    (100, 101)
                } else {
                    (103, 104)
                }
            };
            let ghost pre = sorted@;
            let mut prev = sorted.remove(i - 1);
            prev.mission_info.hazard_id = new_prev_h;
            sorted.insert(i - 1, prev);
            let mut cur = sorted.remove(i);
            cur.mission_info.hazard_id = new_cur_h;
            sorted.insert(i, cur);
            proof {
                assert(sorted@ =~= spec_dd_step(pre, i as int));
            }
        } else {
            proof {
                assert(sorted@ =~= spec_dd_step(sorted@, i as int));
            }
        }
        i += 1;
    }
    proof {
        if sn == 0 {
            assert(sorted@ =~= spec_dd_upto(base, base.len() as int));
        } else {
            assert(sorted@ == spec_dd_upto(base, sn as int));
        }
    }
    sorted
}

} // verus!
