//! Save-path layout, relative to the application's data directory.

use vstd::prelude::*;
use vstd::string::StringExecFns;

use crate::pos::RegionPos;

verus! {

/// The character of one decimal digit.
pub open spec fn digit_char(d: nat) -> char {
    if d == 0 {
        '0'
    } else if d == 1 {
        '1'
    } else if d == 2 {
        '2'
    } else if d == 3 {
        '3'
    } else if d == 4 {
        '4'
    } else if d == 5 {
        '5'
    } else if d == 6 {
        '6'
    } else if d == 7 {
        '7'
    } else if d == 8 {
        '8'
    } else {
        '9'
    }
}

/// The decimal digits of a nonnegative number, most significant first.
pub open spec fn dec_digits(n: nat) -> Seq<char>
    decreases n,
{
    if n < 10 {
        seq![digit_char(n)]
    } else {
        dec_digits(n / 10).push(digit_char(n % 10))
    }
}

/// The decimal rendering of a signed number.
pub open spec fn dec_str(v: int) -> Seq<char> {
    if v < 0 {
        seq!['-'] + dec_digits((-v) as nat)
    } else {
        dec_digits(v as nat)
    }
}

/// One decimal digit as a string slice.
fn digit_str(d: u64) -> (r: &'static str)
    requires
        d < 10,
    ensures
        r@ == seq![digit_char(d as nat)],
{
    proof {
        reveal_strlit("0");
        reveal_strlit("1");
        reveal_strlit("2");
        reveal_strlit("3");
        reveal_strlit("4");
        reveal_strlit("5");
        reveal_strlit("6");
        reveal_strlit("7");
        reveal_strlit("8");
        reveal_strlit("9");
    }
    let r = match d {
        0 => "0",
        1 => "1",
        2 => "2",
        3 => "3",
        4 => "4",
        5 => "5",
        6 => "6",
        7 => "7",
        8 => "8",
        _ => "9",
    };
    proof {
        assert(r@ =~= seq![digit_char(d as nat)]);
    }
    r
}

/// Appends a nonnegative number's decimal digits.
fn append_digits(out: &mut String, n: u64)
    ensures
        final(out)@ == old(out)@ + dec_digits(n as nat),
    decreases n,
{
    if n < 10 {
        out.append(digit_str(n));
        proof {
            assert(out@ =~= old(out)@ + dec_digits(n as nat));
        }
    } else {
        append_digits(out, n / 10);
        out.append(digit_str(n % 10));
        proof {
            assert(out@ =~= old(out)@ + dec_digits(n as nat));
        }
    }
}

/// Appends a signed number's decimal rendering.
fn append_dec_i32(out: &mut String, v: i32)
    ensures
        final(out)@ == old(out)@ + dec_str(v as int),
{
    let m: i64 = v as i64;
    if m < 0 {
        out.append("-");
        append_digits(out, (-m) as u64);
        proof {
            reveal_strlit("-");
            assert("-"@ =~= seq!['-']);
            assert(out@ =~= old(out)@ + dec_str(v as int));
        }
    } else {
        append_digits(out, m as u64);
    }
}

/// The file name a region is stored under: its coordinates joined by
/// underscores, with the region suffix.
pub fn region_file_name(region_pos: RegionPos) -> (r: String)
    ensures
        r@ == dec_str(region_pos.0.x as int) + "_"@ + dec_str(region_pos.0.y as int) + "_"@
            + dec_str(region_pos.0.z as int) + ".region.gz"@,
{
    let mut out = String::new();
    append_dec_i32(&mut out, region_pos.0.x);
    out.append("_");
    append_dec_i32(&mut out, region_pos.0.y);
    out.append("_");
    append_dec_i32(&mut out, region_pos.0.z);
    out.append(".region.gz");
    proof {
        assert(out@ =~= dec_str(region_pos.0.x as int) + "_"@ + dec_str(
            region_pos.0.y as int,
        ) + "_"@ + dec_str(region_pos.0.z as int) + ".region.gz"@);
    }
    out
}

/// The directory a world's save data lives under.
pub fn saves_dir(world_name: &str) -> (r: String)
    ensures
        r@ == "saves/"@ + world_name@,
{
    let mut path = "saves/".to_owned();
    path.append(world_name);
    path
}

/// The directory a world's legacy single-chunk files live under.
pub fn save_chunks_dir(world_name: &str) -> (r: String)
    ensures
        r@ == "saves/"@ + world_name@ + "/chunks"@,
{
    let mut path = saves_dir(world_name);
    path.append("/chunks");
    path
}

/// The directory a world's region files live under.
pub fn save_regions_dir(world_name: &str) -> (r: String)
    ensures
        r@ == "saves/"@ + world_name@ + "/regions"@,
{
    let mut path = saves_dir(world_name);
    path.append("/regions");
    path
}

} // verus!
