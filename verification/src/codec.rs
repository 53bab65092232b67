//! A compact, deterministic binary framing of the mission summary: fixed
//! little-endian integers, length-prefixed character strings, and
//! length-prefixed tables in their insertion order. Regenerating a summary
//! from the same rows therefore yields bitwise-identical bytes.
use vstd::prelude::*;
use crate::kmap::KMap;
use crate::mission_cache::MissionCachedInfo;
use crate::types::{DamagePack, KillPack, PlayerInfo, SupplyPack, WeaponPack};

verus! {

/// The eight little-endian bytes of a machine word.
pub open spec fn spec_u64le(v: u64) -> Seq<u8> {
    seq![
        (v % 256) as u8,
        ((v / 256) % 256) as u8,
        ((v / 65536) % 256) as u8,
        ((v / 16777216) % 256) as u8,
        ((v / 4294967296) % 256) as u8,
        ((v / 1099511627776) % 256) as u8,
        ((v / 281474976710656) % 256) as u8,
        ((v / 72057594037927936) % 256) as u8,
    ]
}

/// A signed value's encoding: its two's-complement word.
pub open spec fn spec_i64le(v: i64) -> Seq<u8> {
    spec_u64le(v as u64)
}

/// A character's encoding: its code point as a word.
pub open spec fn spec_char_enc(c: char) -> Seq<u8> {
    spec_u64le(c as u64)
}

/// The characters of a string, each encoded in order.
pub open spec fn spec_chars_enc(s: Seq<char>) -> Seq<u8>
    decreases s.len(),
{
    if s.len() == 0 {
        Seq::empty()
    } else {
        spec_chars_enc(s.drop_last()) + spec_char_enc(s.last())
    }
}

/// A string's encoding: its length, then its characters.
pub open spec fn spec_string_enc(s: Seq<char>) -> Seq<u8> {
    spec_u64le(s.len() as u64) + spec_chars_enc(s)
}

/// A kill record's encoding.
pub open spec fn spec_kill_pack_enc(p: KillPack) -> Seq<u8> {
    spec_i64le(p.taker_id as i64) + spec_string_enc(p.taker_name@) + spec_i64le(
        p.total_amount as i64,
    )
}

/// A damage record's encoding.
pub open spec fn spec_dmg_pack_enc(p: DamagePack) -> Seq<u8> {
    spec_i64le(p.taker_id as i64) + spec_i64le(p.taker_type as i64) + spec_i64le(
        p.weapon_id as i64,
    ) + spec_i64le(p.total_amount)
}

/// A string-keyed kill table's entries, in insertion order.
pub open spec fn spec_kill_map_enc(keys: Seq<Seq<char>>, vals: Seq<KillPack>) -> Seq<u8>
    decreases vals.len(),
{
    if vals.len() == 0 || keys.len() != vals.len() {
        Seq::empty()
    } else {
        spec_kill_map_enc(keys.drop_last(), vals.drop_last()) + spec_string_enc(keys.last())
            + spec_kill_pack_enc(vals.last())
    }
}

/// A string-keyed damage table's entries, in insertion order.
pub open spec fn spec_dmg_map_enc(keys: Seq<Seq<char>>, vals: Seq<DamagePack>) -> Seq<u8>
    decreases vals.len(),
{
    if vals.len() == 0 || keys.len() != vals.len() {
        Seq::empty()
    } else {
        spec_dmg_map_enc(keys.drop_last(), vals.drop_last()) + spec_string_enc(keys.last())
            + spec_dmg_pack_enc(vals.last())
    }
}

/// A string-keyed value table's entries, in insertion order.
pub open spec fn spec_i64_map_enc(keys: Seq<Seq<char>>, vals: Seq<i64>) -> Seq<u8>
    decreases vals.len(),
{
    if vals.len() == 0 || keys.len() != vals.len() {
        Seq::empty()
    } else {
        spec_i64_map_enc(keys.drop_last(), vals.drop_last()) + spec_string_enc(keys.last())
            + spec_i64le(vals.last())
    }
}

/// A supply list's encoding.
pub open spec fn spec_supply_enc(list: Seq<SupplyPack>) -> Seq<u8>
    decreases list.len(),
{
    if list.len() == 0 {
        Seq::empty()
    } else {
        spec_supply_enc(list.drop_last()) + spec_i64le(list.last().ammo) + spec_i64le(
            list.last().health,
        )
    }
}

/// A player row's encoding.
pub open spec fn spec_player_row_enc(p: PlayerInfo) -> Seq<u8> {
    spec_i64le(p.mission_id as i64) + spec_i64le(p.player_id as i64) + spec_i64le(
        p.character_id as i64,
    ) + spec_i64le(p.player_rank as i64) + spec_i64le(p.character_rank as i64) + spec_i64le(
        p.character_promotion as i64,
    ) + spec_i64le(p.present_time as i64) + spec_i64le(p.revive_num as i64) + spec_i64le(
        p.death_num as i64,
    ) + spec_i64le(
        if p.player_escaped {
            1
        } else {
            0
        },
    )
}

/// The player rows' encoding.
pub open spec fn spec_player_rows_enc(rows: Seq<PlayerInfo>) -> Seq<u8>
    decreases rows.len(),
{
    if rows.len() == 0 {
        Seq::empty()
    } else {
        spec_player_rows_enc(rows.drop_last()) + spec_player_row_enc(rows.last())
    }
}

/// An id-keyed table of kill tables.
pub open spec fn spec_outer_kill_enc(okeys: Seq<i16>, ovals: Seq<KMap<String, KillPack>>) -> Seq<
    u8,
>
    decreases ovals.len(),
{
    if ovals.len() == 0 || okeys.len() != ovals.len() {
        Seq::empty()
    } else {
        spec_outer_kill_enc(okeys.drop_last(), ovals.drop_last()) + spec_i64le(
            okeys.last() as i64,
        ) + spec_u64le(ovals.last().val_seq().len() as u64) + spec_kill_map_enc(
            ovals.last().key_seq(),
            ovals.last().val_seq(),
        )
    }
}

/// An id-keyed table of damage tables.
pub open spec fn spec_outer_dmg_enc(okeys: Seq<i16>, ovals: Seq<KMap<String, DamagePack>>) -> Seq<
    u8,
>
    decreases ovals.len(),
{
    if ovals.len() == 0 || okeys.len() != ovals.len() {
        Seq::empty()
    } else {
        spec_outer_dmg_enc(okeys.drop_last(), ovals.drop_last()) + spec_i64le(okeys.last() as i64)
            + spec_u64le(ovals.last().val_seq().len() as u64) + spec_dmg_map_enc(
            ovals.last().key_seq(),
            ovals.last().val_seq(),
        )
    }
}

/// An id-keyed table of value tables.
pub open spec fn spec_outer_i64_enc(okeys: Seq<i16>, ovals: Seq<KMap<String, i64>>) -> Seq<u8>
    decreases ovals.len(),
{
    if ovals.len() == 0 || okeys.len() != ovals.len() {
        Seq::empty()
    } else {
        spec_outer_i64_enc(okeys.drop_last(), ovals.drop_last()) + spec_i64le(okeys.last() as i64)
            + spec_u64le(ovals.last().val_seq().len() as u64) + spec_i64_map_enc(
            ovals.last().key_seq(),
            ovals.last().val_seq(),
        )
    }
}

/// An id-keyed table of plain values.
pub open spec fn spec_id_i64_enc(okeys: Seq<i16>, ovals: Seq<i64>) -> Seq<u8>
    decreases ovals.len(),
{
    if ovals.len() == 0 || okeys.len() != ovals.len() {
        Seq::empty()
    } else {
        spec_id_i64_enc(okeys.drop_last(), ovals.drop_last()) + spec_i64le(okeys.last() as i64)
            + spec_i64le(ovals.last())
    }
}

/// An id-keyed table of counters.
pub open spec fn spec_id_i16_enc(okeys: Seq<i16>, ovals: Seq<i16>) -> Seq<u8>
    decreases ovals.len(),
{
    if ovals.len() == 0 || okeys.len() != ovals.len() {
        Seq::empty()
    } else {
        spec_id_i16_enc(okeys.drop_last(), ovals.drop_last()) + spec_i64le(okeys.last() as i64)
            + spec_i64le(ovals.last() as i64)
    }
}

/// An id-keyed table of supply lists.
pub open spec fn spec_id_supply_enc(okeys: Seq<i16>, ovals: Seq<Vec<SupplyPack>>) -> Seq<u8>
    decreases ovals.len(),
{
    if ovals.len() == 0 || okeys.len() != ovals.len() {
        Seq::empty()
    } else {
        spec_id_supply_enc(okeys.drop_last(), ovals.drop_last()) + spec_i64le(okeys.last() as i64)
            + spec_u64le(ovals.last()@.len() as u64) + spec_supply_enc(ovals.last()@)
    }
}

/// One weapon entry's encoding: the name, the id, the total, then the
/// breakdown with its length.
#[verifier::opaque]
pub open spec fn spec_weapon_entry_enc(k: Seq<char>, wp: WeaponPack) -> Seq<u8> {
    spec_string_enc(k) + spec_i64le(wp.weapon_id as i64) + spec_i64le(wp.total_amount)
        + spec_u64le(wp.detail.val_seq().len() as u64) + spec_dmg_map_enc(
        wp.detail.key_seq(),
        wp.detail.val_seq(),
    )
}

/// A weapon table's entries.
#[verifier::opaque]
pub open spec fn spec_weapon_map_enc(okeys: Seq<Seq<char>>, ovals: Seq<WeaponPack>) -> Seq<u8>
    decreases ovals.len(),
{
    if ovals.len() == 0 || okeys.len() != ovals.len() {
        Seq::empty()
    } else {
        spec_weapon_map_enc(okeys.drop_last(), ovals.drop_last()) + spec_weapon_entry_enc(
            okeys.last(),
            ovals.last(),
        )
    }
}

/// The whole summary's encoding: the header fields, then each table with
/// its length, all in a fixed order.
pub open spec fn spec_snapshot_enc(info: MissionCachedInfo) -> Seq<u8> {
    spec_i64le(info.mission_info.id as i64) + spec_i64le(info.mission_info.begin_timestamp)
        + spec_i64le(info.mission_info.mission_time as i64) + spec_i64le(
        info.mission_info.mission_type_id as i64,
    ) + spec_i64le(info.mission_info.hazard_id as i64) + spec_i64le(
        info.mission_info.result as i64,
    ) + spec_i64le(info.mission_info.reward_credit) + spec_i64le(
        info.mission_info.total_supply_count as i64,
    ) + spec_u64le(info.player_info@.len() as u64) + spec_player_rows_enc(info.player_info@)
        + spec_u64le(info.player_index.val_seq().len() as u64) + spec_id_i64_enc(
        info.player_index.key_seq(),
        info.player_index.val_seq(),
    ) + spec_u64le(info.kill_info.val_seq().len() as u64) + spec_outer_kill_enc(
        info.kill_info.key_seq(),
        info.kill_info.val_seq(),
    ) + spec_u64le(info.damage_info.val_seq().len() as u64) + spec_outer_dmg_enc(
        info.damage_info.key_seq(),
        info.damage_info.val_seq(),
    ) + spec_u64le(info.weapon_damage_info.val_seq().len() as u64) + spec_weapon_map_enc(
        info.weapon_damage_info.key_seq(),
        info.weapon_damage_info.val_seq(),
    ) + spec_u64le(info.resource_info.val_seq().len() as u64) + spec_outer_i64_enc(
        info.resource_info.key_seq(),
        info.resource_info.val_seq(),
    ) + spec_u64le(info.revive_count.val_seq().len() as u64) + spec_id_i16_enc(
        info.revive_count.key_seq(),
        info.revive_count.val_seq(),
    ) + spec_u64le(info.death_count.val_seq().len() as u64) + spec_id_i16_enc(
        info.death_count.key_seq(),
        info.death_count.val_seq(),
    ) + spec_u64le(info.supply_info.val_seq().len() as u64) + spec_id_supply_enc(
        info.supply_info.key_seq(),
        info.supply_info.val_seq(),
    )
}

// ---------------------------------------------------------------------------
// Executable encoders
// ---------------------------------------------------------------------------
fn put_u64(out: &mut Vec<u8>, v: u64)
    ensures
        final(out)@ == old(out)@ + spec_u64le(v),
{
    out.push((v % 256) as u8);
    out.push(((v / 256) % 256) as u8);
    out.push(((v / 65536) % 256) as u8);
    out.push(((v / 16777216) % 256) as u8);
    out.push(((v / 4294967296) % 256) as u8);
    out.push(((v / 1099511627776) % 256) as u8);
    out.push(((v / 281474976710656) % 256) as u8);
    out.push(((v / 72057594037927936) % 256) as u8);
    proof {
        assert(final(out)@ =~= old(out)@ + spec_u64le(v));
    }
}

fn put_i64(out: &mut Vec<u8>, v: i64)
    ensures
        final(out)@ == old(out)@ + spec_i64le(v),
{
    #[verifier::truncate]
    let w = v as u64;
    put_u64(out, w);
}

#[verifier::rlimit(100)]
#[verifier::spinoff_prover]
fn put_string(out: &mut Vec<u8>, s: &String)
    ensures
        final(out)@ == old(out)@ + spec_string_enc(s@),
{
    let chars = crate::load::chars_of(s.as_str());
    put_u64(out, chars.len() as u64);
    let n = chars.len();
    let mut i: usize = 0;
    while i < n
        invariant
            n == s@.len(),
            chars@ == s@,
            0 <= i <= n,
            out@ == old(out)@ + spec_u64le(n as u64) + spec_chars_enc(s@.take(i as int)),
        decreases n - i,
    {
        proof {
            assert(s@.take(i as int + 1).drop_last() =~= s@.take(i as int));
            assert(s@.take(i as int + 1).last() == s@[i as int]);
        }
        #[verifier::truncate]
        let w = chars[i] as u64;
        put_u64(out, w);
        proof {
            assert(spec_char_enc(s@[i as int]) == spec_u64le(w));
            assert(out@ =~= old(out)@ + spec_u64le(n as u64) + spec_chars_enc(
                s@.take(i as int + 1),
            ));
        }
        i += 1;
    }
    proof {
        assert(s@.take(n as int) =~= s@);
    }
}

#[verifier::rlimit(100)]
#[verifier::spinoff_prover]
fn put_kill_map(out: &mut Vec<u8>, m: &KMap<String, KillPack>)
    requires
        m.wf(),
    ensures
        final(out)@ == old(out)@ + spec_u64le(m.val_seq().len() as u64) + spec_kill_map_enc(
            m.key_seq(),
            m.val_seq(),
        ),
{
    put_u64(out, m.len() as u64);
    let n = m.len();
    let mut i: usize = 0;
    while i < n
        invariant
            m.wf(),
            n == m.spec_len(),
            0 <= i <= n,
            out@ == old(out)@ + spec_u64le(n as u64) + spec_kill_map_enc(
                m.key_seq().take(i as int),
                m.val_seq().take(i as int),
            ),
        decreases n - i,
    {
        proof {
            assert(m.key_seq().take(i as int + 1).drop_last() =~= m.key_seq().take(i as int));
            assert(m.val_seq().take(i as int + 1).drop_last() =~= m.val_seq().take(i as int));
            assert(m.key_seq().take(i as int + 1).last() == m.key_seq()[i as int]);
            assert(m.val_seq().take(i as int + 1).last() == m.val_seq()[i as int]);
        }
        let key = m.key_at(i);
        let p = m.val_at(i);
        put_string(out, key);
        put_i64(out, p.taker_id as i64);
        put_string(out, &p.taker_name);
        put_i64(out, p.total_amount as i64);
        proof {
            assert(out@ =~= old(out)@ + spec_u64le(n as u64) + spec_kill_map_enc(
                m.key_seq().take(i as int + 1),
                m.val_seq().take(i as int + 1),
            ));
        }
        i += 1;
    }
    proof {
        assert(m.key_seq().take(n as int) =~= m.key_seq());
        assert(m.val_seq().take(n as int) =~= m.val_seq());
    }
}

#[verifier::rlimit(100)]
#[verifier::spinoff_prover]
fn put_dmg_map(out: &mut Vec<u8>, m: &KMap<String, DamagePack>)
    requires
        m.wf(),
    ensures
        final(out)@ == old(out)@ + spec_u64le(m.val_seq().len() as u64) + spec_dmg_map_enc(
            m.key_seq(),
            m.val_seq(),
        ),
{
    put_u64(out, m.len() as u64);
    let n = m.len();
    let mut i: usize = 0;
    while i < n
        invariant
            m.wf(),
            n == m.spec_len(),
            0 <= i <= n,
            out@ == old(out)@ + spec_u64le(n as u64) + spec_dmg_map_enc(
                m.key_seq().take(i as int),
                m.val_seq().take(i as int),
            ),
        decreases n - i,
    {
        proof {
            assert(m.key_seq().take(i as int + 1).drop_last() =~= m.key_seq().take(i as int));
            assert(m.val_seq().take(i as int + 1).drop_last() =~= m.val_seq().take(i as int));
            assert(m.key_seq().take(i as int + 1).last() == m.key_seq()[i as int]);
            assert(m.val_seq().take(i as int + 1).last() == m.val_seq()[i as int]);
        }
        let key = m.key_at(i);
        let p = m.val_at(i);
        put_string(out, key);
        put_i64(out, p.taker_id as i64);
        put_i64(out, p.taker_type as i64);
        put_i64(out, p.weapon_id as i64);
        put_i64(out, p.total_amount);
        proof {
            assert(out@ =~= old(out)@ + spec_u64le(n as u64) + spec_dmg_map_enc(
                m.key_seq().take(i as int + 1),
                m.val_seq().take(i as int + 1),
            ));
        }
        i += 1;
    }
    proof {
        assert(m.key_seq().take(n as int) =~= m.key_seq());
        assert(m.val_seq().take(n as int) =~= m.val_seq());
    }
}

#[verifier::rlimit(100)]
#[verifier::spinoff_prover]
fn put_i64_map(out: &mut Vec<u8>, m: &KMap<String, i64>)
    requires
        m.wf(),
    ensures
        final(out)@ == old(out)@ + spec_u64le(m.val_seq().len() as u64) + spec_i64_map_enc(
            m.key_seq(),
            m.val_seq(),
        ),
{
    put_u64(out, m.len() as u64);
    let n = m.len();
    let mut i: usize = 0;
    while i < n
        invariant
            m.wf(),
            n == m.spec_len(),
            0 <= i <= n,
            out@ == old(out)@ + spec_u64le(n as u64) + spec_i64_map_enc(
                m.key_seq().take(i as int),
                m.val_seq().take(i as int),
            ),
        decreases n - i,
    {
        proof {
            assert(m.key_seq().take(i as int + 1).drop_last() =~= m.key_seq().take(i as int));
            assert(m.val_seq().take(i as int + 1).drop_last() =~= m.val_seq().take(i as int));
            assert(m.key_seq().take(i as int + 1).last() == m.key_seq()[i as int]);
            assert(m.val_seq().take(i as int + 1).last() == m.val_seq()[i as int]);
        }
        let key = m.key_at(i);
        let v = *m.val_at(i);
        put_string(out, key);
        put_i64(out, v);
        proof {
            assert(out@ =~= old(out)@ + spec_u64le(n as u64) + spec_i64_map_enc(
                m.key_seq().take(i as int + 1),
                m.val_seq().take(i as int + 1),
            ));
        }
        i += 1;
    }
    proof {
        assert(m.key_seq().take(n as int) =~= m.key_seq());
        assert(m.val_seq().take(n as int) =~= m.val_seq());
    }
}

#[verifier::rlimit(100)]
#[verifier::spinoff_prover]
fn put_player_row(out: &mut Vec<u8>, p: &PlayerInfo)
    ensures
        final(out)@ == old(out)@ + spec_player_row_enc(*p),
{
    let ghost o0 = out@;
    put_i64(out, p.mission_id as i64);
    put_i64(out, p.player_id as i64);
    put_i64(out, p.character_id as i64);
    put_i64(out, p.player_rank as i64);
    put_i64(out, p.character_rank as i64);
    put_i64(out, p.character_promotion as i64);
    put_i64(out, p.present_time as i64);
    put_i64(out, p.revive_num as i64);
    put_i64(out, p.death_num as i64);
    put_i64(
        out,
        if p.player_escaped {
            1
        } else {
            0
        },
    );
    proof {
        assert(out@ == o0 + spec_player_row_enc(*p));
    }
}

proof fn lemma_player_rows_enc_step(rows: Seq<PlayerInfo>, i: int)
    requires
        0 <= i < rows.len(),
    ensures
        spec_player_rows_enc(rows.take(i + 1)) == spec_player_rows_enc(rows.take(i))
            + spec_player_row_enc(rows[i]),
{
    assert(rows.take(i + 1).drop_last() =~= rows.take(i));
    assert(rows.take(i + 1).last() == rows[i]);
}

#[verifier::rlimit(100)]
#[verifier::spinoff_prover]
fn put_player_rows(out: &mut Vec<u8>, rows: &Vec<PlayerInfo>)
    ensures
        final(out)@ == old(out)@ + spec_u64le(rows@.len() as u64) + spec_player_rows_enc(rows@),
{
    put_u64(out, rows.len() as u64);
    let n = rows.len();
    let mut i: usize = 0;
    let ghost pre = out@;
    proof {
        assert(out@ =~= pre + spec_player_rows_enc(rows@.take(0)));
    }
    while i < n
        invariant
            n == rows@.len(),
            0 <= i <= n,
            out@ == pre + spec_player_rows_enc(rows@.take(i as int)),
        decreases n - i,
    {
        put_player_row(out, &rows[i]);
        proof {
            let ep = spec_player_rows_enc(rows@.take(i as int));
            let entry = spec_player_row_enc(rows@[i as int]);
            lemma_player_rows_enc_step(rows@, i as int);
            vstd::seq_lib::lemma_concat_associative(pre, ep, entry);
            assert(out@ == (pre + ep) + entry);
        }
        i += 1;
    }
    proof {
        assert(rows@.take(n as int) =~= rows@);
    }
}

#[verifier::rlimit(100)]
#[verifier::spinoff_prover]
fn put_id_i64(out: &mut Vec<u8>, m: &KMap<i16, i64>)
    requires
        m.wf(),
    ensures
        final(out)@ == old(out)@ + spec_u64le(m.val_seq().len() as u64) + spec_id_i64_enc(
            m.key_seq(),
            m.val_seq(),
        ),
{
    put_u64(out, m.len() as u64);
    let n = m.len();
    let mut i: usize = 0;
    let ghost pre = out@;
    while i < n
        invariant
            m.wf(),
            n == m.spec_len(),
            0 <= i <= n,
            out@ == pre + spec_id_i64_enc(m.key_seq().take(i as int), m.val_seq().take(i as int)),
        decreases n - i,
    {
        proof {
            assert(m.key_seq().take(i as int + 1).drop_last() =~= m.key_seq().take(i as int));
            assert(m.val_seq().take(i as int + 1).drop_last() =~= m.val_seq().take(i as int));
            assert(m.key_seq().take(i as int + 1).last() == m.key_seq()[i as int]);
            assert(m.val_seq().take(i as int + 1).last() == m.val_seq()[i as int]);
        }
        let key = *m.key_at(i);
        let v = *m.val_at(i);
        put_i64(out, key as i64);
        put_i64(out, v);
        proof {
            assert(out@ =~= pre + spec_id_i64_enc(
                m.key_seq().take(i as int + 1),
                m.val_seq().take(i as int + 1),
            ));
        }
        i += 1;
    }
    proof {
        assert(m.key_seq().take(n as int) =~= m.key_seq());
        assert(m.val_seq().take(n as int) =~= m.val_seq());
    }
}

#[verifier::rlimit(100)]
#[verifier::spinoff_prover]
fn put_id_i16(out: &mut Vec<u8>, m: &KMap<i16, i16>)
    requires
        m.wf(),
    ensures
        final(out)@ == old(out)@ + spec_u64le(m.val_seq().len() as u64) + spec_id_i16_enc(
            m.key_seq(),
            m.val_seq(),
        ),
{
    put_u64(out, m.len() as u64);
    let n = m.len();
    let mut i: usize = 0;
    let ghost pre = out@;
    while i < n
        invariant
            m.wf(),
            n == m.spec_len(),
            0 <= i <= n,
            out@ == pre + spec_id_i16_enc(m.key_seq().take(i as int), m.val_seq().take(i as int)),
        decreases n - i,
    {
        proof {
            assert(m.key_seq().take(i as int + 1).drop_last() =~= m.key_seq().take(i as int));
            assert(m.val_seq().take(i as int + 1).drop_last() =~= m.val_seq().take(i as int));
            assert(m.key_seq().take(i as int + 1).last() == m.key_seq()[i as int]);
            assert(m.val_seq().take(i as int + 1).last() == m.val_seq()[i as int]);
        }
        let key = *m.key_at(i);
        let v = *m.val_at(i);
        put_i64(out, key as i64);
        put_i64(out, v as i64);
        proof {
            assert(out@ =~= pre + spec_id_i16_enc(
                m.key_seq().take(i as int + 1),
                m.val_seq().take(i as int + 1),
            ));
        }
        i += 1;
    }
    proof {
        assert(m.key_seq().take(n as int) =~= m.key_seq());
        assert(m.val_seq().take(n as int) =~= m.val_seq());
    }
}

#[verifier::rlimit(100)]
#[verifier::spinoff_prover]
fn put_outer_kill(out: &mut Vec<u8>, m: &KMap<i16, KMap<String, KillPack>>)
    requires
        m.wf(),
        forall|j: int| 0 <= j < m.val_seq().len() ==> (#[trigger] m.val_seq()[j]).wf(),
    ensures
        final(out)@ == old(out)@ + spec_u64le(m.val_seq().len() as u64) + spec_outer_kill_enc(
            m.key_seq(),
            m.val_seq(),
        ),
{
    put_u64(out, m.len() as u64);
    let n = m.len();
    let mut i: usize = 0;
    let ghost pre = out@;
    while i < n
        invariant
            m.wf(),
            forall|j: int| 0 <= j < m.val_seq().len() ==> (#[trigger] m.val_seq()[j]).wf(),
            n == m.spec_len(),
            0 <= i <= n,
            out@ == pre + spec_outer_kill_enc(
                m.key_seq().take(i as int),
                m.val_seq().take(i as int),
            ),
        decreases n - i,
    {
        proof {
            assert(m.key_seq().take(i as int + 1).drop_last() =~= m.key_seq().take(i as int));
            assert(m.val_seq().take(i as int + 1).drop_last() =~= m.val_seq().take(i as int));
            assert(m.key_seq().take(i as int + 1).last() == m.key_seq()[i as int]);
            assert(m.val_seq().take(i as int + 1).last() == m.val_seq()[i as int]);
        }
        let key = *m.key_at(i);
        let inner = m.val_at(i);
        put_i64(out, key as i64);
        put_kill_map(out, inner);
        proof {
            assert(out@ =~= pre + spec_outer_kill_enc(
                m.key_seq().take(i as int + 1),
                m.val_seq().take(i as int + 1),
            ));
        }
        i += 1;
    }
    proof {
        assert(m.key_seq().take(n as int) =~= m.key_seq());
        assert(m.val_seq().take(n as int) =~= m.val_seq());
    }
}

#[verifier::rlimit(100)]
#[verifier::spinoff_prover]
fn put_outer_dmg(out: &mut Vec<u8>, m: &KMap<i16, KMap<String, DamagePack>>)
    requires
        m.wf(),
        forall|j: int| 0 <= j < m.val_seq().len() ==> (#[trigger] m.val_seq()[j]).wf(),
    ensures
        final(out)@ == old(out)@ + spec_u64le(m.val_seq().len() as u64) + spec_outer_dmg_enc(
            m.key_seq(),
            m.val_seq(),
        ),
{
    put_u64(out, m.len() as u64);
    let n = m.len();
    let mut i: usize = 0;
    let ghost pre = out@;
    while i < n
        invariant
            m.wf(),
            forall|j: int| 0 <= j < m.val_seq().len() ==> (#[trigger] m.val_seq()[j]).wf(),
            n == m.spec_len(),
            0 <= i <= n,
            out@ == pre + spec_outer_dmg_enc(
                m.key_seq().take(i as int),
                m.val_seq().take(i as int),
            ),
        decreases n - i,
    {
        proof {
            assert(m.key_seq().take(i as int + 1).drop_last() =~= m.key_seq().take(i as int));
            assert(m.val_seq().take(i as int + 1).drop_last() =~= m.val_seq().take(i as int));
            assert(m.key_seq().take(i as int + 1).last() == m.key_seq()[i as int]);
            assert(m.val_seq().take(i as int + 1).last() == m.val_seq()[i as int]);
        }
        let key = *m.key_at(i);
        let inner = m.val_at(i);
        put_i64(out, key as i64);
        put_dmg_map(out, inner);
        proof {
            assert(out@ =~= pre + spec_outer_dmg_enc(
                m.key_seq().take(i as int + 1),
                m.val_seq().take(i as int + 1),
            ));
        }
        i += 1;
    }
    proof {
        assert(m.key_seq().take(n as int) =~= m.key_seq());
        assert(m.val_seq().take(n as int) =~= m.val_seq());
    }
}

#[verifier::rlimit(100)]
#[verifier::spinoff_prover]
fn put_outer_i64(out: &mut Vec<u8>, m: &KMap<i16, KMap<String, i64>>)
    requires
        m.wf(),
        forall|j: int| 0 <= j < m.val_seq().len() ==> (#[trigger] m.val_seq()[j]).wf(),
    ensures
        final(out)@ == old(out)@ + spec_u64le(m.val_seq().len() as u64) + spec_outer_i64_enc(
            m.key_seq(),
            m.val_seq(),
        ),
{
    put_u64(out, m.len() as u64);
    let n = m.len();
    let mut i: usize = 0;
    let ghost pre = out@;
    while i < n
        invariant
            m.wf(),
            forall|j: int| 0 <= j < m.val_seq().len() ==> (#[trigger] m.val_seq()[j]).wf(),
            n == m.spec_len(),
            0 <= i <= n,
            out@ == pre + spec_outer_i64_enc(
                m.key_seq().take(i as int),
                m.val_seq().take(i as int),
            ),
        decreases n - i,
    {
        proof {
            assert(m.key_seq().take(i as int + 1).drop_last() =~= m.key_seq().take(i as int));
            assert(m.val_seq().take(i as int + 1).drop_last() =~= m.val_seq().take(i as int));
            assert(m.key_seq().take(i as int + 1).last() == m.key_seq()[i as int]);
            assert(m.val_seq().take(i as int + 1).last() == m.val_seq()[i as int]);
        }
        let key = *m.key_at(i);
        let inner = m.val_at(i);
        put_i64(out, key as i64);
        put_i64_map(out, inner);
        proof {
            assert(out@ =~= pre + spec_outer_i64_enc(
                m.key_seq().take(i as int + 1),
                m.val_seq().take(i as int + 1),
            ));
        }
        i += 1;
    }
    proof {
        assert(m.key_seq().take(n as int) =~= m.key_seq());
        assert(m.val_seq().take(n as int) =~= m.val_seq());
    }
}

#[verifier::rlimit(100)]
#[verifier::spinoff_prover]
fn put_weapon_entry(out: &mut Vec<u8>, key: &String, wp: &WeaponPack)
    requires
        wp.detail.wf(),
    ensures
        final(out)@ == old(out)@ + spec_weapon_entry_enc(key@, *wp),
{
    let ghost o0 = out@;
    put_string(out, key);
    put_i64(out, wp.weapon_id as i64);
    put_i64(out, wp.total_amount);
    put_dmg_map(out, &wp.detail);
    proof {
        reveal(spec_weapon_entry_enc);
        assert(out@ == o0 + spec_weapon_entry_enc(key@, *wp));
    }
}

proof fn lemma_weapon_map_enc_step(m: KMap<String, WeaponPack>, i: int)
    requires
        m.wf(),
        0 <= i < m.spec_len(),
    ensures
        spec_weapon_map_enc(m.key_seq().take(i + 1), m.val_seq().take(i + 1))
            == spec_weapon_map_enc(m.key_seq().take(i), m.val_seq().take(i))
            + spec_weapon_entry_enc(m.key_seq()[i], m.val_seq()[i]),
{
    reveal(spec_weapon_map_enc);
    assert(m.key_seq().take(i + 1).drop_last() =~= m.key_seq().take(i));
    assert(m.val_seq().take(i + 1).drop_last() =~= m.val_seq().take(i));
    assert(m.key_seq().take(i + 1).last() == m.key_seq()[i]);
    assert(m.val_seq().take(i + 1).last() == m.val_seq()[i]);
}

#[verifier::rlimit(100)]
#[verifier::spinoff_prover]
fn put_weapon_entries_upto(out: &mut Vec<u8>, m: &KMap<String, WeaponPack>, i: usize)
    requires
        m.wf(),
        forall|j: int| 0 <= j < m.val_seq().len() ==> (#[trigger] m.val_seq()[j]).detail.wf(),
        i <= m.spec_len(),
    ensures
        final(out)@ == old(out)@ + spec_weapon_map_enc(
            m.key_seq().take(i as int),
            m.val_seq().take(i as int),
        ),
    decreases i,
{
    if i == 0 {
        proof {
            reveal(spec_weapon_map_enc);
            assert(out@ =~= out@ + spec_weapon_map_enc(
                m.key_seq().take(0),
                m.val_seq().take(0),
            ));
        }
    } else {
        let ghost o0 = out@;
        put_weapon_entries_upto(out, m, i - 1);
        let key = m.key_at(i - 1);
        let wp = m.val_at(i - 1);
        put_weapon_entry(out, key, wp);
        proof {
            let ep = spec_weapon_map_enc(
                m.key_seq().take(i as int - 1),
                m.val_seq().take(i as int - 1),
            );
            let entry = spec_weapon_entry_enc(m.key_seq()[i as int - 1], m.val_seq()[i as int - 1]);
            lemma_weapon_map_enc_step(*m, i as int - 1);
            vstd::seq_lib::lemma_concat_associative(o0, ep, entry);
            assert(out@ == (o0 + ep) + entry);
        }
    }
}

#[verifier::rlimit(100)]
#[verifier::spinoff_prover]
fn put_weapon_map(out: &mut Vec<u8>, m: &KMap<String, WeaponPack>)
    requires
        m.wf(),
        forall|j: int| 0 <= j < m.val_seq().len() ==> (#[trigger] m.val_seq()[j]).detail.wf(),
    ensures
        final(out)@ == old(out)@ + spec_u64le(m.val_seq().len() as u64) + spec_weapon_map_enc(
            m.key_seq(),
            m.val_seq(),
        ),
{
    put_u64(out, m.len() as u64);
    let n = m.len();
    put_weapon_entries_upto(out, m, n);
    proof {
        assert(m.key_seq().take(n as int) =~= m.key_seq());
        assert(m.val_seq().take(n as int) =~= m.val_seq());
    }
}

#[verifier::rlimit(100)]
#[verifier::spinoff_prover]
fn put_id_supply(out: &mut Vec<u8>, m: &KMap<i16, Vec<SupplyPack>>)
    requires
        m.wf(),
    ensures
        final(out)@ == old(out)@ + spec_u64le(m.val_seq().len() as u64) + spec_id_supply_enc(
            m.key_seq(),
            m.val_seq(),
        ),
{
    put_u64(out, m.len() as u64);
    let n = m.len();
    let mut i: usize = 0;
    let ghost pre = out@;
    while i < n
        invariant
            m.wf(),
            n == m.spec_len(),
            0 <= i <= n,
            out@ == pre + spec_id_supply_enc(
                m.key_seq().take(i as int),
                m.val_seq().take(i as int),
            ),
        decreases n - i,
    {
        proof {
            assert(m.key_seq().take(i as int + 1).drop_last() =~= m.key_seq().take(i as int));
            assert(m.val_seq().take(i as int + 1).drop_last() =~= m.val_seq().take(i as int));
            assert(m.key_seq().take(i as int + 1).last() == m.key_seq()[i as int]);
            assert(m.val_seq().take(i as int + 1).last() == m.val_seq()[i as int]);
        }
        let key = *m.key_at(i);
        let list = m.val_at(i);
        put_i64(out, key as i64);
        put_u64(out, list.len() as u64);
        let ln = list.len();
        let mut t: usize = 0;
        let ghost inner_pre = out@;
        while t < ln
            invariant
                ln == list@.len(),
                0 <= t <= ln,
                out@ == inner_pre + spec_supply_enc(list@.take(t as int)),
            decreases ln - t,
        {
            proof {
                assert(list@.take(t as int + 1).drop_last() =~= list@.take(t as int));
                assert(list@.take(t as int + 1).last() == list@[t as int]);
            }
            put_i64(out, list[t].ammo);
            put_i64(out, list[t].health);
            proof {
                assert(out@ =~= inner_pre + spec_supply_enc(list@.take(t as int + 1)));
            }
            t += 1;
        }
        proof {
            assert(list@.take(ln as int) =~= list@);
            assert(out@ =~= pre + spec_id_supply_enc(
                m.key_seq().take(i as int + 1),
                m.val_seq().take(i as int + 1),
            ));
        }
        i += 1;
    }
    proof {
        assert(m.key_seq().take(n as int) =~= m.key_seq());
        assert(m.val_seq().take(n as int) =~= m.val_seq());
    }
}

/// Encode the whole summary.
pub fn encode_snapshot(info: &MissionCachedInfo) -> (r: Vec<u8>)
    requires
        crate::mission_cache::spec_summary_wf(*info),
    ensures
        r@ == spec_snapshot_enc(*info),
{
    proof {
        assert forall|j: int|
            0 <= j < info.kill_info.val_seq().len() implies (
        #[trigger] info.kill_info.val_seq()[j]).wf() by {
            info.kill_info.lemma_get_at_index(j);
        }
        assert forall|j: int|
            0 <= j < info.damage_info.val_seq().len() implies (
        #[trigger] info.damage_info.val_seq()[j]).wf() by {
            info.damage_info.lemma_get_at_index(j);
        }
        assert forall|j: int|
            0 <= j < info.resource_info.val_seq().len() implies (
        #[trigger] info.resource_info.val_seq()[j]).wf() by {
            info.resource_info.lemma_get_at_index(j);
        }
        assert forall|j: int|
            0 <= j < info.weapon_damage_info.val_seq().len() implies (
        #[trigger] info.weapon_damage_info.val_seq()[j]).detail.wf() by {
            info.weapon_damage_info.lemma_get_at_index(j);
        }
    }
    let mut out: Vec<u8> = Vec::new();
    put_i64(&mut out, info.mission_info.id as i64);
    put_i64(&mut out, info.mission_info.begin_timestamp);
    put_i64(&mut out, info.mission_info.mission_time as i64);
    put_i64(&mut out, info.mission_info.mission_type_id as i64);
    put_i64(&mut out, info.mission_info.hazard_id as i64);
    put_i64(&mut out, info.mission_info.result as i64);
    put_i64(&mut out, info.mission_info.reward_credit);
    put_i64(&mut out, info.mission_info.total_supply_count as i64);
    put_player_rows(&mut out, &info.player_info);
    put_id_i64(&mut out, &info.player_index);
    put_outer_kill(&mut out, &info.kill_info);
    put_outer_dmg(&mut out, &info.damage_info);
    put_weapon_map(&mut out, &info.weapon_damage_info);
    put_outer_i64(&mut out, &info.resource_info);
    put_id_i16(&mut out, &info.revive_count);
    put_id_i16(&mut out, &info.death_count);
    put_id_supply(&mut out, &info.supply_info);
    proof {
        assert(out@ =~= spec_snapshot_enc(*info));
    }
    out
}

proof fn lemma_kill_map_enc_congr(keys: Seq<Seq<char>>, va: Seq<KillPack>, vb: Seq<KillPack>)
    requires
        va.len() == vb.len(),
        forall|i: int|
            0 <= i < va.len() ==> (#[trigger] va[i]).taker_id == vb[i].taker_id
                && va[i].total_amount == vb[i].total_amount && va[i].taker_name@
                == vb[i].taker_name@,
    ensures
        spec_kill_map_enc(keys, va) == spec_kill_map_enc(keys, vb),
    decreases va.len(),
{
    if va.len() > 0 && keys.len() == va.len() {
        lemma_kill_map_enc_congr(keys.drop_last(), va.drop_last(), vb.drop_last());
    }
}

proof fn lemma_outer_kill_enc_congr(
    okeys: Seq<i16>,
    va: Seq<KMap<String, KillPack>>,
    vb: Seq<KMap<String, KillPack>>,
)
    requires
        va.len() == vb.len(),
        forall|j: int|
            0 <= j < va.len() ==> (#[trigger] va[j]).key_seq() == vb[j].key_seq()
                && va[j].val_seq().len() == vb[j].val_seq().len() && forall|i: int|
                0 <= i < va[j].val_seq().len() ==> (#[trigger] va[j].val_seq()[i]).taker_id
                    == vb[j].val_seq()[i].taker_id && va[j].val_seq()[i].total_amount
                    == vb[j].val_seq()[i].total_amount && va[j].val_seq()[i].taker_name@
                    == vb[j].val_seq()[i].taker_name@,
    ensures
        spec_outer_kill_enc(okeys, va) == spec_outer_kill_enc(okeys, vb),
    decreases va.len(),
{
    if va.len() > 0 && okeys.len() == va.len() {
        assert(forall|j: int|
            0 <= j < va.drop_last().len() ==> (#[trigger] va.drop_last()[j]) == va[j]
                && vb.drop_last()[j] == vb[j]);
        lemma_outer_kill_enc_congr(okeys.drop_last(), va.drop_last(), vb.drop_last());
        lemma_kill_map_enc_congr(va.last().key_seq(), va.last().val_seq(), vb.last().val_seq());
    }
}

proof fn lemma_outer_dmg_enc_congr(
    okeys: Seq<i16>,
    va: Seq<KMap<String, DamagePack>>,
    vb: Seq<KMap<String, DamagePack>>,
)
    requires
        va.len() == vb.len(),
        forall|j: int|
            0 <= j < va.len() ==> (#[trigger] va[j]).key_seq() == vb[j].key_seq()
                && va[j].val_seq() == vb[j].val_seq(),
    ensures
        spec_outer_dmg_enc(okeys, va) == spec_outer_dmg_enc(okeys, vb),
    decreases va.len(),
{
    if va.len() > 0 && okeys.len() == va.len() {
        assert(forall|j: int|
            0 <= j < va.drop_last().len() ==> (#[trigger] va.drop_last()[j]) == va[j]
                && vb.drop_last()[j] == vb[j]);
        lemma_outer_dmg_enc_congr(okeys.drop_last(), va.drop_last(), vb.drop_last());
    }
}

proof fn lemma_outer_i64_enc_congr(
    okeys: Seq<i16>,
    va: Seq<KMap<String, i64>>,
    vb: Seq<KMap<String, i64>>,
)
    requires
        va.len() == vb.len(),
        forall|j: int|
            0 <= j < va.len() ==> (#[trigger] va[j]).key_seq() == vb[j].key_seq()
                && va[j].val_seq() == vb[j].val_seq(),
    ensures
        spec_outer_i64_enc(okeys, va) == spec_outer_i64_enc(okeys, vb),
    decreases va.len(),
{
    if va.len() > 0 && okeys.len() == va.len() {
        assert(forall|j: int|
            0 <= j < va.drop_last().len() ==> (#[trigger] va.drop_last()[j]) == va[j]
                && vb.drop_last()[j] == vb[j]);
        lemma_outer_i64_enc_congr(okeys.drop_last(), va.drop_last(), vb.drop_last());
    }
}

proof fn lemma_weapon_map_enc_congr(
    okeys: Seq<Seq<char>>,
    va: Seq<WeaponPack>,
    vb: Seq<WeaponPack>,
)
    requires
        va.len() == vb.len(),
        forall|j: int|
            0 <= j < va.len() ==> (#[trigger] va[j]).weapon_id == vb[j].weapon_id
                && va[j].total_amount == vb[j].total_amount && va[j].detail.key_seq()
                == vb[j].detail.key_seq() && va[j].detail.val_seq() == vb[j].detail.val_seq(),
    ensures
        spec_weapon_map_enc(okeys, va) == spec_weapon_map_enc(okeys, vb),
    decreases va.len(),
{
    reveal(spec_weapon_map_enc);
    reveal(spec_weapon_entry_enc);
    if va.len() > 0 && okeys.len() == va.len() {
        assert(forall|j: int|
            0 <= j < va.drop_last().len() ==> (#[trigger] va.drop_last()[j]) == va[j]
                && vb.drop_last()[j] == vb[j]);
        lemma_weapon_map_enc_congr(okeys.drop_last(), va.drop_last(), vb.drop_last());
    }
}

proof fn lemma_id_supply_enc_congr(
    okeys: Seq<i16>,
    va: Seq<Vec<SupplyPack>>,
    vb: Seq<Vec<SupplyPack>>,
)
    requires
        va.len() == vb.len(),
        forall|j: int| 0 <= j < va.len() ==> (#[trigger] va[j])@ == vb[j]@,
    ensures
        spec_id_supply_enc(okeys, va) == spec_id_supply_enc(okeys, vb),
    decreases va.len(),
{
    if va.len() > 0 && okeys.len() == va.len() {
        assert(forall|j: int|
            0 <= j < va.drop_last().len() ==> (#[trigger] va.drop_last()[j]) == va[j]
                && vb.drop_last()[j] == vb[j]);
        lemma_id_supply_enc_congr(okeys.drop_last(), va.drop_last(), vb.drop_last());
    }
}

#[verifier::rlimit(100)]
#[verifier::spinoff_prover]
proof fn lemma_det_scalars(
    a: MissionCachedInfo,
    b: MissionCachedInfo,
    raw: crate::mission_cache::MissionRawInfo,
    idm: crate::mission_cache::IDMapping,
    combine: crate::types::StrLookup,
    blacklist: crate::types::StrSet,
    weapon_combine: crate::types::StrLookup,
)
    requires
        crate::mission_cache::spec_aggregated(a, raw, idm, combine, blacklist, weapon_combine),
        crate::mission_cache::spec_aggregated(b, raw, idm, combine, blacklist, weapon_combine),
    ensures
        a.player_index.key_seq() == b.player_index.key_seq(),
        a.player_index.val_seq() == b.player_index.val_seq(),
        a.revive_count.key_seq() == b.revive_count.key_seq(),
        a.revive_count.val_seq() == b.revive_count.val_seq(),
        a.death_count.key_seq() == b.death_count.key_seq(),
        a.death_count.val_seq() == b.death_count.val_seq(),
        a.mission_info == b.mission_info,
        a.player_info@ == b.player_info@,
{
    assert(a.player_index.val_seq() =~= b.player_index.val_seq()) by {
        assert(a.player_index.key_seq() == b.player_index.key_seq());
        assert(a.player_index.val_seq().len() == a.player_index.key_seq().len());
        assert(b.player_index.val_seq().len() == b.player_index.key_seq().len());
        assert forall|i: int|
            0 <= i < a.player_index.val_seq().len() implies #[trigger] a.player_index.val_seq()[i]
            == b.player_index.val_seq()[i] by {
            a.player_index.lemma_get_at_index(i);
            b.player_index.lemma_get_at_index(i);
        }
    }
    assert(a.revive_count.val_seq() =~= b.revive_count.val_seq()) by {
        assert(a.revive_count.key_seq() == b.revive_count.key_seq());
        assert(a.revive_count.val_seq().len() == a.revive_count.key_seq().len());
        assert(b.revive_count.val_seq().len() == b.revive_count.key_seq().len());
        assert forall|i: int|
            0 <= i < a.revive_count.val_seq().len() implies #[trigger] a.revive_count.val_seq()[i]
            == b.revive_count.val_seq()[i] by {
            a.revive_count.lemma_get_at_index(i);
            b.revive_count.lemma_get_at_index(i);
        }
    }
    assert(a.death_count.val_seq() =~= b.death_count.val_seq()) by {
        assert(a.death_count.key_seq() == b.death_count.key_seq());
        assert(a.death_count.val_seq().len() == a.death_count.key_seq().len());
        assert(b.death_count.val_seq().len() == b.death_count.key_seq().len());
        assert forall|i: int|
            0 <= i < a.death_count.val_seq().len() implies #[trigger] a.death_count.val_seq()[i]
            == b.death_count.val_seq()[i] by {
            a.death_count.lemma_get_at_index(i);
            b.death_count.lemma_get_at_index(i);
        }
    }
}

#[verifier::rlimit(100)]
#[verifier::spinoff_prover]
proof fn lemma_det_kill(
    a: MissionCachedInfo,
    b: MissionCachedInfo,
    raw: crate::mission_cache::MissionRawInfo,
    idm: crate::mission_cache::IDMapping,
    combine: crate::types::StrLookup,
    blacklist: crate::types::StrSet,
    weapon_combine: crate::types::StrLookup,
)
    requires
        crate::mission_cache::spec_aggregated(a, raw, idm, combine, blacklist, weapon_combine),
        crate::mission_cache::spec_aggregated(b, raw, idm, combine, blacklist, weapon_combine),
    ensures
        spec_outer_kill_enc(a.kill_info.key_seq(), a.kill_info.val_seq()) == spec_outer_kill_enc(
            b.kill_info.key_seq(),
            b.kill_info.val_seq(),
        ),
        a.kill_info.key_seq() == b.kill_info.key_seq(),
        a.kill_info.val_seq().len() == b.kill_info.val_seq().len(),
{
    assert(a.kill_info.key_seq() == b.kill_info.key_seq());
    assert(a.kill_info.val_seq().len() == a.kill_info.key_seq().len());
    assert(b.kill_info.val_seq().len() == b.kill_info.key_seq().len());
    assert forall|j: int|
        0 <= j < a.kill_info.val_seq().len() implies (
    #[trigger] a.kill_info.val_seq()[j]).key_seq() == b.kill_info.val_seq()[j].key_seq()
        && a.kill_info.val_seq()[j].val_seq().len() == b.kill_info.val_seq()[j].val_seq().len()
        && (forall|i: int|
        0 <= i < a.kill_info.val_seq()[j].val_seq().len() ==> (
        #[trigger] a.kill_info.val_seq()[j].val_seq()[i]).taker_id
            == b.kill_info.val_seq()[j].val_seq()[i].taker_id
            && a.kill_info.val_seq()[j].val_seq()[i].total_amount
            == b.kill_info.val_seq()[j].val_seq()[i].total_amount
            && a.kill_info.val_seq()[j].val_seq()[i].taker_name@
            == b.kill_info.val_seq()[j].val_seq()[i].taker_name@) by {
        a.kill_info.lemma_get_at_index(j);
        b.kill_info.lemma_get_at_index(j);
        let ia = a.kill_info.val_seq()[j];
        let ib = b.kill_info.val_seq()[j];
        assert(ia.key_seq() == ib.key_seq());
        assert(ia.val_seq().len() == ia.key_seq().len());
        assert(ib.val_seq().len() == ib.key_seq().len());
        assert forall|i: int|
            0 <= i < ia.val_seq().len() implies (#[trigger] ia.val_seq()[i]).taker_id
            == ib.val_seq()[i].taker_id && ia.val_seq()[i].total_amount
            == ib.val_seq()[i].total_amount && ia.val_seq()[i].taker_name@
            == ib.val_seq()[i].taker_name@ by {
            ia.lemma_get_at_index(i);
            ib.lemma_get_at_index(i);
        }
    }
    lemma_outer_kill_enc_congr(a.kill_info.key_seq(), a.kill_info.val_seq(), b.kill_info.val_seq());
}

#[verifier::rlimit(100)]
#[verifier::spinoff_prover]
proof fn lemma_det_dmg(
    a: MissionCachedInfo,
    b: MissionCachedInfo,
    raw: crate::mission_cache::MissionRawInfo,
    idm: crate::mission_cache::IDMapping,
    combine: crate::types::StrLookup,
    blacklist: crate::types::StrSet,
    weapon_combine: crate::types::StrLookup,
)
    requires
        crate::mission_cache::spec_aggregated(a, raw, idm, combine, blacklist, weapon_combine),
        crate::mission_cache::spec_aggregated(b, raw, idm, combine, blacklist, weapon_combine),
    ensures
        spec_outer_dmg_enc(a.damage_info.key_seq(), a.damage_info.val_seq()) == spec_outer_dmg_enc(
            b.damage_info.key_seq(),
            b.damage_info.val_seq(),
        ),
        a.damage_info.key_seq() == b.damage_info.key_seq(),
        a.damage_info.val_seq().len() == b.damage_info.val_seq().len(),
{
    assert(a.damage_info.key_seq() == b.damage_info.key_seq());
    assert(a.damage_info.val_seq().len() == a.damage_info.key_seq().len());
    assert(b.damage_info.val_seq().len() == b.damage_info.key_seq().len());
    assert forall|j: int|
        0 <= j < a.damage_info.val_seq().len() implies (
    #[trigger] a.damage_info.val_seq()[j]).key_seq() == b.damage_info.val_seq()[j].key_seq()
        && a.damage_info.val_seq()[j].val_seq() == b.damage_info.val_seq()[j].val_seq() by {
        a.damage_info.lemma_get_at_index(j);
        b.damage_info.lemma_get_at_index(j);
        let ia = a.damage_info.val_seq()[j];
        let ib = b.damage_info.val_seq()[j];
        assert(ia.key_seq() == ib.key_seq());
        assert(ia.val_seq().len() == ia.key_seq().len());
        assert(ib.val_seq().len() == ib.key_seq().len());
        assert(ia.val_seq() =~= ib.val_seq()) by {
            assert forall|i: int|
                0 <= i < ia.val_seq().len() implies #[trigger] ia.val_seq()[i]
                == ib.val_seq()[i] by {
                ia.lemma_get_at_index(i);
                ib.lemma_get_at_index(i);
            }
        }
    }
    lemma_outer_dmg_enc_congr(
        a.damage_info.key_seq(),
        a.damage_info.val_seq(),
        b.damage_info.val_seq(),
    );
}

#[verifier::rlimit(100)]
#[verifier::spinoff_prover]
proof fn lemma_det_weapon(
    a: MissionCachedInfo,
    b: MissionCachedInfo,
    raw: crate::mission_cache::MissionRawInfo,
    idm: crate::mission_cache::IDMapping,
    combine: crate::types::StrLookup,
    blacklist: crate::types::StrSet,
    weapon_combine: crate::types::StrLookup,
)
    requires
        crate::mission_cache::spec_aggregated(a, raw, idm, combine, blacklist, weapon_combine),
        crate::mission_cache::spec_aggregated(b, raw, idm, combine, blacklist, weapon_combine),
    ensures
        spec_weapon_map_enc(a.weapon_damage_info.key_seq(), a.weapon_damage_info.val_seq())
            == spec_weapon_map_enc(b.weapon_damage_info.key_seq(), b.weapon_damage_info.val_seq()),
        a.weapon_damage_info.key_seq() == b.weapon_damage_info.key_seq(),
        a.weapon_damage_info.val_seq().len() == b.weapon_damage_info.val_seq().len(),
{
    assert(a.weapon_damage_info.key_seq() == b.weapon_damage_info.key_seq());
    assert(a.weapon_damage_info.val_seq().len() == a.weapon_damage_info.key_seq().len());
    assert(b.weapon_damage_info.val_seq().len() == b.weapon_damage_info.key_seq().len());
    assert forall|j: int|
        0 <= j < a.weapon_damage_info.val_seq().len() implies (
    #[trigger] a.weapon_damage_info.val_seq()[j]).weapon_id
        == b.weapon_damage_info.val_seq()[j].weapon_id
        && a.weapon_damage_info.val_seq()[j].total_amount
        == b.weapon_damage_info.val_seq()[j].total_amount
        && a.weapon_damage_info.val_seq()[j].detail.key_seq()
        == b.weapon_damage_info.val_seq()[j].detail.key_seq()
        && a.weapon_damage_info.val_seq()[j].detail.val_seq()
        == b.weapon_damage_info.val_seq()[j].detail.val_seq() by {
        a.weapon_damage_info.lemma_get_at_index(j);
        b.weapon_damage_info.lemma_get_at_index(j);
        let wa = a.weapon_damage_info.val_seq()[j];
        let wb = b.weapon_damage_info.val_seq()[j];
        assert(wa.detail.key_seq() == wb.detail.key_seq());
        assert(wa.detail.val_seq().len() == wa.detail.key_seq().len());
        assert(wb.detail.val_seq().len() == wb.detail.key_seq().len());
        assert(wa.detail.val_seq() =~= wb.detail.val_seq()) by {
            assert forall|i: int|
                0 <= i < wa.detail.val_seq().len() implies #[trigger] wa.detail.val_seq()[i]
                == wb.detail.val_seq()[i] by {
                wa.detail.lemma_get_at_index(i);
                wb.detail.lemma_get_at_index(i);
            }
        }
    }
    lemma_weapon_map_enc_congr(
        a.weapon_damage_info.key_seq(),
        a.weapon_damage_info.val_seq(),
        b.weapon_damage_info.val_seq(),
    );
}

#[verifier::rlimit(100)]
#[verifier::spinoff_prover]
proof fn lemma_det_res(
    a: MissionCachedInfo,
    b: MissionCachedInfo,
    raw: crate::mission_cache::MissionRawInfo,
    idm: crate::mission_cache::IDMapping,
    combine: crate::types::StrLookup,
    blacklist: crate::types::StrSet,
    weapon_combine: crate::types::StrLookup,
)
    requires
        crate::mission_cache::spec_aggregated(a, raw, idm, combine, blacklist, weapon_combine),
        crate::mission_cache::spec_aggregated(b, raw, idm, combine, blacklist, weapon_combine),
    ensures
        spec_outer_i64_enc(a.resource_info.key_seq(), a.resource_info.val_seq())
            == spec_outer_i64_enc(b.resource_info.key_seq(), b.resource_info.val_seq()),
        a.resource_info.key_seq() == b.resource_info.key_seq(),
        a.resource_info.val_seq().len() == b.resource_info.val_seq().len(),
{
    assert(a.resource_info.key_seq() == b.resource_info.key_seq());
    assert(a.resource_info.val_seq().len() == a.resource_info.key_seq().len());
    assert(b.resource_info.val_seq().len() == b.resource_info.key_seq().len());
    assert forall|j: int|
        0 <= j < a.resource_info.val_seq().len() implies (
    #[trigger] a.resource_info.val_seq()[j]).key_seq() == b.resource_info.val_seq()[j].key_seq()
        && a.resource_info.val_seq()[j].val_seq() == b.resource_info.val_seq()[j].val_seq() by {
        a.resource_info.lemma_get_at_index(j);
        b.resource_info.lemma_get_at_index(j);
        let ia = a.resource_info.val_seq()[j];
        let ib = b.resource_info.val_seq()[j];
        assert(ia.key_seq() == ib.key_seq());
        assert(ia.val_seq().len() == ia.key_seq().len());
        assert(ib.val_seq().len() == ib.key_seq().len());
        assert(ia.val_seq() =~= ib.val_seq()) by {
            assert forall|i: int|
                0 <= i < ia.val_seq().len() implies #[trigger] ia.val_seq()[i]
                == ib.val_seq()[i] by {
                ia.lemma_get_at_index(i);
                ib.lemma_get_at_index(i);
            }
        }
    }
    lemma_outer_i64_enc_congr(
        a.resource_info.key_seq(),
        a.resource_info.val_seq(),
        b.resource_info.val_seq(),
    );
}

#[verifier::rlimit(100)]
#[verifier::spinoff_prover]
proof fn lemma_det_supply(
    a: MissionCachedInfo,
    b: MissionCachedInfo,
    raw: crate::mission_cache::MissionRawInfo,
    idm: crate::mission_cache::IDMapping,
    combine: crate::types::StrLookup,
    blacklist: crate::types::StrSet,
    weapon_combine: crate::types::StrLookup,
)
    requires
        crate::mission_cache::spec_aggregated(a, raw, idm, combine, blacklist, weapon_combine),
        crate::mission_cache::spec_aggregated(b, raw, idm, combine, blacklist, weapon_combine),
    ensures
        spec_id_supply_enc(a.supply_info.key_seq(), a.supply_info.val_seq()) == spec_id_supply_enc(
            b.supply_info.key_seq(),
            b.supply_info.val_seq(),
        ),
        a.supply_info.key_seq() == b.supply_info.key_seq(),
        a.supply_info.val_seq().len() == b.supply_info.val_seq().len(),
{
    assert(a.supply_info.key_seq() == b.supply_info.key_seq());
    assert(a.supply_info.val_seq().len() == a.supply_info.key_seq().len());
    assert(b.supply_info.val_seq().len() == b.supply_info.key_seq().len());
    assert forall|j: int|
        0 <= j < a.supply_info.val_seq().len() implies (
    #[trigger] a.supply_info.val_seq()[j])@ == b.supply_info.val_seq()[j]@ by {
        a.supply_info.lemma_get_at_index(j);
        b.supply_info.lemma_get_at_index(j);
    }
    lemma_id_supply_enc_congr(
        a.supply_info.key_seq(),
        a.supply_info.val_seq(),
        b.supply_info.val_seq(),
    );
}

#[verifier::rlimit(100)]
#[verifier::spinoff_prover]
proof fn lemma_enc_from_pieces(a: MissionCachedInfo, b: MissionCachedInfo)
    requires
        a.mission_info == b.mission_info,
        a.player_info@ == b.player_info@,
        a.player_index.key_seq() == b.player_index.key_seq(),
        a.player_index.val_seq() == b.player_index.val_seq(),
        a.revive_count.key_seq() == b.revive_count.key_seq(),
        a.revive_count.val_seq() == b.revive_count.val_seq(),
        a.death_count.key_seq() == b.death_count.key_seq(),
        a.death_count.val_seq() == b.death_count.val_seq(),
        a.kill_info.key_seq() == b.kill_info.key_seq(),
        a.kill_info.val_seq().len() == b.kill_info.val_seq().len(),
        spec_outer_kill_enc(a.kill_info.key_seq(), a.kill_info.val_seq()) == spec_outer_kill_enc(
            b.kill_info.key_seq(),
            b.kill_info.val_seq(),
        ),
        a.damage_info.key_seq() == b.damage_info.key_seq(),
        a.damage_info.val_seq().len() == b.damage_info.val_seq().len(),
        spec_outer_dmg_enc(a.damage_info.key_seq(), a.damage_info.val_seq()) == spec_outer_dmg_enc(
            b.damage_info.key_seq(),
            b.damage_info.val_seq(),
        ),
        a.weapon_damage_info.key_seq() == b.weapon_damage_info.key_seq(),
        a.weapon_damage_info.val_seq().len() == b.weapon_damage_info.val_seq().len(),
        spec_weapon_map_enc(a.weapon_damage_info.key_seq(), a.weapon_damage_info.val_seq())
            == spec_weapon_map_enc(b.weapon_damage_info.key_seq(), b.weapon_damage_info.val_seq()),
        a.resource_info.key_seq() == b.resource_info.key_seq(),
        a.resource_info.val_seq().len() == b.resource_info.val_seq().len(),
        spec_outer_i64_enc(a.resource_info.key_seq(), a.resource_info.val_seq())
            == spec_outer_i64_enc(b.resource_info.key_seq(), b.resource_info.val_seq()),
        a.supply_info.key_seq() == b.supply_info.key_seq(),
        a.supply_info.val_seq().len() == b.supply_info.val_seq().len(),
        spec_id_supply_enc(a.supply_info.key_seq(), a.supply_info.val_seq()) == spec_id_supply_enc(
            b.supply_info.key_seq(),
            b.supply_info.val_seq(),
        ),
    ensures
        spec_snapshot_enc(a) == spec_snapshot_enc(b),
{
}

/// Regeneration is deterministic down to the bytes: any two summaries the
/// aggregator's contract admits for the same raw rows, lookup tables,
/// blacklist and combine tables serialize to identical bytes, because the
/// contract pins every table's key order and every entry's value.
#[verifier::rlimit(100)]
#[verifier::spinoff_prover]
pub proof fn lemma_snapshot_encoding_deterministic(
    a: MissionCachedInfo,
    b: MissionCachedInfo,
    raw: crate::mission_cache::MissionRawInfo,
    idm: crate::mission_cache::IDMapping,
    combine: crate::types::StrLookup,
    blacklist: crate::types::StrSet,
    weapon_combine: crate::types::StrLookup,
)
    requires
        crate::mission_cache::spec_aggregated(a, raw, idm, combine, blacklist, weapon_combine),
        crate::mission_cache::spec_aggregated(b, raw, idm, combine, blacklist, weapon_combine),
    ensures
        spec_snapshot_enc(a) == spec_snapshot_enc(b),
{
    lemma_det_scalars(a, b, raw, idm, combine, blacklist, weapon_combine);
    lemma_det_kill(a, b, raw, idm, combine, blacklist, weapon_combine);
    lemma_det_dmg(a, b, raw, idm, combine, blacklist, weapon_combine);
    lemma_det_weapon(a, b, raw, idm, combine, blacklist, weapon_combine);
    lemma_det_res(a, b, raw, idm, combine, blacklist, weapon_combine);
    lemma_det_supply(a, b, raw, idm, combine, blacklist, weapon_combine);
    lemma_enc_from_pieces(a, b);
}
} // verus!
