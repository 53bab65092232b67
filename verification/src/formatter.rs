//! Human-readable rendering of mission times, results and byte sizes.
use vstd::prelude::*;
use vstd::string::StringExecFns;
use crate::text::{spec_decimal, spec_digit_char, u64_to_decimal, u64_to_decimal_pad2};

verus! {

/// `m` minutes and zero-padded seconds: `7m05s`.
pub open spec fn spec_format_mission_time(t: int) -> Seq<char> {
    spec_decimal(t / 60) + seq!['m'] + (if t % 60 < 10 {
        seq!['0'].push(spec_digit_char(t % 60))
    } else {
        spec_decimal(t % 60)
    }) + seq!['s']
}

/// Render a mission duration in seconds as minutes and seconds.
pub fn format_mission_time(mission_time: i16) -> (r: String)
    requires
        mission_time >= 0,
    ensures
        r@ == spec_format_mission_time(mission_time as int),
{
    let minutes: u64 = (mission_time / 60) as u64;
    let seconds: u64 = (mission_time % 60) as u64;
    let mut s = u64_to_decimal(minutes);
    s.push('m');
    let sec = u64_to_decimal_pad2(seconds);
    s.append(sec.as_str());
    s.push('s');
    proof {
        assert(s@ =~= spec_format_mission_time(mission_time as int));
    }
    s
}

/// The wire names of the three mission outcomes; anything else reads as
/// unknown with its code.
pub open spec fn spec_format_mission_result(result: int) -> Seq<char> {
    if result == 0 {
        "Completed"@
    } else if result == 1 {
        "Failure"@
    } else if result == 2 {
        "Aborted"@
    } else if result >= 0 {
        "Unknown("@ + spec_decimal(result) + seq![')']
    } else {
        "Unknown(-"@ + spec_decimal(-result) + seq![')']
    }
}

/// Render a mission result code.
pub fn format_mission_result(result: i16) -> (r: String)
    ensures
        r@ == spec_format_mission_result(result as int),
{
    if result == 0 {
        "Completed".to_owned()
    } else if result == 1 {
        "Failure".to_owned()
    } else if result == 2 {
        "Aborted".to_owned()
    } else if result >= 0 {
        let mut s = "Unknown(".to_owned();
        let d = u64_to_decimal(result as u64);
        s.append(d.as_str());
        s.push(')');
        proof {
            assert(s@ =~= spec_format_mission_result(result as int));
        }
        s
    } else {
        let mut s = "Unknown(-".to_owned();
        let magnitude: u64 = (-(result as i64)) as u64;
        let d = u64_to_decimal(magnitude);
        s.append(d.as_str());
        s.push(')');
        proof {
            assert(s@ =~= spec_format_mission_result(result as int));
        }
        s
    }
}

/// `v * 100 / d` rounded to the nearest integer, ties to even: the
/// hundredths of the scaled size.
pub open spec fn spec_scaled_hundredths(v: int, d: int) -> int {
    let q = (v * 100) / d;
    let rem = (v * 100) % d;
    if rem * 2 > d {
        q + 1
    } else if rem * 2 == d && q % 2 == 1 {
        q + 1
    } else {
        q
    }
}

/// A scaled size with two decimals and a unit suffix.
pub open spec fn spec_scaled_size(v: int, d: int, unit: Seq<char>) -> Seq<char> {
    let h = spec_scaled_hundredths(v, d);
    spec_decimal(h / 100) + seq!['.'] + (if h % 100 < 10 {
        seq!['0'].push(spec_digit_char(h % 100))
    } else {
        spec_decimal(h % 100)
    }) + unit
}

/// A byte count rendered as bytes, kibibytes or mebibytes with two
/// decimals.
pub open spec fn spec_format_size(size: int) -> Seq<char> {
    if size < 1024 {
        spec_decimal(size).push('B')
    } else if size < 1048576 {
        spec_scaled_size(size, 1024, "KiB"@)
    } else {
        spec_scaled_size(size, 1048576, "MiB"@)
    }
}

fn scaled_size(v: u64, d: u64, unit: &str) -> (r: String)
    requires
        d == 1024 || d == 1048576,
        v * 100 <= u64::MAX,
    ensures
        r@ == spec_scaled_size(v as int, d as int, unit@),
{
    let scaled: u64 = v * 100;
    let q: u64 = scaled / d;
    let rem: u64 = scaled % d;
    let h: u64 = if rem * 2 > d {
        q + 1
    } else if rem * 2 == d && q % 2 == 1 {
        q + 1
    } else {
        q
    };
    proof {
        assert(h as int == spec_scaled_hundredths(v as int, d as int));
    }
    let mut s = u64_to_decimal(h / 100);
    s.push('.');
    let frac = u64_to_decimal_pad2(h % 100);
    s.append(frac.as_str());
    s.append(unit);
    proof {
        assert(s@ =~= spec_scaled_size(v as int, d as int, unit@));
    }
    s
}

/// Render a byte count for humans.
pub fn format_size(size: usize) -> (r: String)
    requires
        size * 100 <= u64::MAX,
    ensures
        r@ == spec_format_size(size as int),
{
    if size < 1024 {
        let mut s = u64_to_decimal(size as u64);
        s.push('B');
        proof {
            assert(s@ =~= spec_format_size(size as int));
        }
        s
    } else if size < 1048576 {
        scaled_size(size as u64, 1024, "KiB")
    } else {
        scaled_size(size as u64, 1048576, "MiB")
    }
}

} // verus!
