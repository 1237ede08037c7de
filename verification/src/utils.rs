//! Human-readable byte sizes.

use vstd::prelude::*;
use crate::histogram::{extension, lowered_extension};
use crate::text::{decimal, decimal_string, digit_char, digit_str, str_equal};
use crate::tree::{Entry, Measure};

verus! {

/// Bytes in a kibibyte.
pub const KB: u64 = 1024;

/// Bytes in a mebibyte.
pub const MB: u64 = 1048576;

/// Bytes in a gibibyte.
pub const GB: u64 = 1073741824;

/// The first integer that a 64-bit float cannot tell from its successor.
pub const DOUBLE_EXACT_LIMIT: u64 = 0x20_0000_0000_0000;

/// `num / den` rounded to the nearest integer, a tie going to the even one.
pub open spec fn round_half_even(num: nat, den: nat) -> nat {
    let q = num / den;
    let r = num % den;
    if 2 * r > den || (2 * r == den && q % 2 == 1) {
        q + 1
    } else {
        q
    }
}

/// The distance between neighbouring 64-bit floats around the integer `n`,
/// where that distance is at least one.
pub open spec fn double_ulp(n: nat) -> nat
    decreases n,
{
    if n < DOUBLE_EXACT_LIMIT {
        1
    } else {
        2 * double_ulp(n / 2)
    }
}

/// The integer that `n` becomes when it is converted to a 64-bit float:
/// `n` itself below two to the 53rd, else the nearest multiple of the
/// spacing there, a tie going to the even multiple.
pub open spec fn nearest_double(n: nat) -> nat {
    round_half_even(n, double_ulp(n)) * double_ulp(n)
}

/// The number of tenths of `unit` in `bytes`: the quotient of the float
/// nearest to `bytes` by `unit`, rounded to one decimal place with ties to
/// even.
pub open spec fn tenths_of(bytes: nat, unit: nat) -> nat {
    round_half_even(nearest_double(bytes) * 10, unit)
}

/// `bytes` in units of `unit` with one decimal place, followed by `suffix`.
pub open spec fn scaled_text(bytes: nat, unit: nat, suffix: char) -> Seq<char> {
    let t = tenths_of(bytes, unit);
    decimal(t / 10).push('.').push(digit_char(t % 10)).push(suffix)
}

/// The human-readable form of a byte count: whole bytes below 1024, else
/// one decimal place in the largest of K, M and G that does not exceed it.
pub open spec fn size_text(bytes: nat) -> Seq<char> {
    if bytes >= GB {
        scaled_text(bytes, GB as nat, 'G')
    } else if bytes >= MB {
        scaled_text(bytes, MB as nat, 'M')
    } else if bytes >= KB {
        scaled_text(bytes, KB as nat, 'K')
    } else {
        decimal(bytes).push('B')
    }
}

fn round_half_even_exec(num: u128, den: u128) -> (q: u128)
    requires
        den > 0,
        num / den < u128::MAX,
        den <= u64::MAX,
    ensures
        q == round_half_even(num as nat, den as nat),
{
    let q: u128 = num / den;
    let r: u128 = num % den;
    if 2 * r > den || (2 * r == den && q % 2 == 1) {
        q + 1
    } else {
        q
    }
}

fn nearest_double_exec(n: u64) -> (m: u128)
    ensures
        m == nearest_double(n as nat),
        m <= u64::MAX + 4096,
{
    let mut unit: u64 = 1;
    let mut top: u64 = n;
    while top >= DOUBLE_EXACT_LIMIT
        invariant
            1 <= unit <= 4096,
            unit * top <= n,
            double_ulp(n as nat) == unit * double_ulp(top as nat),
        decreases top,
    {
        let ghost old_unit = unit;
        let ghost old_top = top;
        assert(unit <= 2048) by (nonlinear_arith)
            requires
                unit * top <= n,
                top >= 0x20_0000_0000_0000,
                n <= u64::MAX,
                unit >= 1,
        ;
        top = top / 2;
        unit = unit * 2;
        assert(unit * top <= old_unit * old_top) by (nonlinear_arith)
            requires
                unit == 2 * old_unit,
                top == old_top / 2,
                old_unit >= 0,
        ;
        assert(unit * double_ulp(top as nat) == old_unit * (2 * double_ulp(top as nat)))
            by (nonlinear_arith)
            requires
                unit == 2 * old_unit,
        ;
    }
    assert(double_ulp(top as nat) == 1);
    assert(double_ulp(n as nat) == unit) by (nonlinear_arith)
        requires
            double_ulp(n as nat) == unit * double_ulp(top as nat),
            double_ulp(top as nat) == 1,
    ;
    let den: u128 = unit as u128;
    let q: u128 = round_half_even_exec(n as u128, den);
    assert(q * den <= n + den) by (nonlinear_arith)
        requires
            q <= (n as int) / (den as int) + 1,
            den >= 1,
    ;
    q * den
}

/// Formats a byte count for people: `B`, `K`, `M` or `G` with binary
/// thresholds, one decimal place from 1024 bytes on.
pub fn format_size(bytes: u64) -> (s: String)
    ensures
        s@ == size_text(bytes as nat),
{
    if bytes >= KB {
        let suffix: &str = if bytes >= GB {
            "G"
        } else if bytes >= MB {
            "M"
        } else {
            "K"
        };
        proof {
            reveal_strlit("G");
            reveal_strlit("M");
            reveal_strlit("K");
            reveal_strlit(".");
        }
        let m: u128 = nearest_double_exec(bytes);
        let t: u128 = if bytes >= GB {
            round_half_even_exec(m * 10, GB as u128)
        } else if bytes >= MB {
            round_half_even_exec(m * 10, MB as u128)
        } else {
            round_half_even_exec(m * 10, KB as u128)
        };
        let whole: u64 = (t / 10) as u64;
        let frac: u64 = (t % 10) as u64;
        let mut s = decimal_string(whole);
        s.append(".");
        s.append(digit_str(frac));
        s.append(suffix);
        assert(s@ =~= size_text(bytes as nat));
        s
    } else {
        proof {
            reveal_strlit("B");
        }
        let mut s = decimal_string(bytes);
        s.append("B");
        assert(s@ =~= size_text(bytes as nat));
        s
    }
}

/// The size of a subtree: the bytes of every regular file at and below
/// `entry`, nothing behind a symbolic link counted.
pub fn get_dir_size(entry: &Entry) -> (total: u64)
    requires
        entry.weigh(Measure::Bytes, None) <= u64::MAX,
    ensures
        total == entry.weigh(Measure::Bytes, None),
{
    entry.measure(Measure::Bytes, None)
}

/// The permission bits that let someone execute a file.
pub const EXECUTE_BITS: u32 = 0o111;

/// Whether a file with these permission bits may be executed by its
/// owner, its group or anyone else.
pub fn is_executable(mode: u32) -> (b: bool)
    ensures
        b == (mode & EXECUTE_BITS != 0),
{
    mode & EXECUTE_BITS != 0
}

/// Whether a file name has an extension that marks a program or a script,
/// for systems that keep no permission bits.
pub open spec fn has_program_extension(name: Seq<char>) -> bool {
    lowered_extension(name) matches Some(ext) && (ext == "exe"@ || ext == "bat"@ || ext == "cmd"@ || ext == "sh"@
        || ext == "py"@ || ext == "ps1"@)
}

/// Decides whether a file name marks a program or a script.
pub fn is_executable_name(name: &str) -> (b: bool)
    ensures
        b == has_program_extension(name@),
{
    match extension(name) {
        Some(ext) => {
            let e: &str = ext.as_str();
            str_equal(e, "exe") || str_equal(e, "bat") || str_equal(e, "cmd") || str_equal(e, "sh") || str_equal(
                e,
                "py",
            ) || str_equal(e, "ps1")
        },
        None => false,
    }
}

} // verus!
