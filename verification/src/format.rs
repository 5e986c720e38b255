//! Human-readable formatting of byte counts and durations.

use vstd::prelude::*;
use crate::strutil::chars_string;

verus! {

/// The ASCII digit for `d` (`d < 10`).
pub open spec fn spec_digit(d: nat) -> char {
    ((48 + d) as u8) as char
}

/// Decimal digits of `n`, most significant first.
pub open spec fn spec_decimal(n: nat) -> Seq<char>
    decreases n,
{
    if n < 10 {
        seq![spec_digit(n)]
    } else {
        spec_decimal(n / 10).push(spec_digit(n % 10))
    }
}

/// Digits of `n`, most significant first.
pub fn decimal_chars(n: u64) -> (r: Vec<char>)
    ensures
        r@ == spec_decimal(n as nat),
    decreases n,
{
    if n < 10 {
        let d: char = ((48 + n as u8)) as char;
        let mut v: Vec<char> = Vec::new();
        v.push(d);
        assert(v@ =~= spec_decimal(n as nat));
        v
    } else {
        let mut v = decimal_chars(n / 10);
        let d: char = ((48 + (n % 10) as u8)) as char;
        v.push(d);
        assert(v@ =~= spec_decimal(n as nat));
        v
    }
}

/// The decimal digits of `n` are digits, read back as `n`, and are
/// never whitespace.
pub proof fn lemma_decimal_value(n: nat)
    ensures
        crate::strutil::all_digits(spec_decimal(n)),
        crate::strutil::digits_val(spec_decimal(n)) == n,
        forall|k: int|
            0 <= k < spec_decimal(n).len() ==> 48 <= ((#[trigger] spec_decimal(n)[k]) as u32)
                <= 57,
    decreases n,
{
    if n < 10 {
        assert(spec_decimal(n) =~= seq![spec_digit(n)]);
        assert((spec_digit(n) as u32) == 48 + n);
        assert(spec_decimal(n).drop_last() =~= Seq::<char>::empty());
        assert(spec_decimal(n).last() == spec_digit(n));
        assert(crate::strutil::digits_val(Seq::<char>::empty()) == 0);
        assert(crate::strutil::digits_val(spec_decimal(n)) == crate::strutil::digits_val(
            Seq::<char>::empty(),
        ) * 10 + crate::strutil::digit_val(spec_digit(n)));
    } else {
        lemma_decimal_value(n / 10);
        assert((spec_digit(n % 10) as u32) == 48 + n % 10);
        assert(spec_decimal(n).drop_last() =~= spec_decimal(n / 10));
        assert(spec_decimal(n).last() == spec_digit(n % 10));
        assert(crate::strutil::digits_val(spec_decimal(n)) == (n / 10) * 10 + n % 10);
        assert((n / 10) * 10 + n % 10 == n) by {
            vstd::arithmetic::div_mod::lemma_fundamental_div_mod(n as int, 10);
        }
    }
}

/// `n` written in decimal.
pub fn u64_to_string(n: u64) -> (r: String)
    ensures
        r@ == spec_decimal(n as nat),
{
    let v = decimal_chars(n);
    chars_string(&v)
}

/// Two decimal digits, zero-padded (`d < 100`).
pub open spec fn spec_two_digits(d: nat) -> Seq<char> {
    seq![spec_digit(d / 10), spec_digit(d % 10)]
}

/// `value / unit` to two rounded decimals, then the unit's label.
pub open spec fn spec_scaled(bytes: nat, unit: nat, label: Seq<char>) -> Seq<char> {
    let q = (bytes * 200 / unit + 1) / 2;
    spec_decimal(q / 100) + "."@ + spec_two_digits(q % 100) + label
}

/// A byte count written with its binary unit, two decimals.
pub open spec fn spec_format_bytes(bytes: nat) -> Seq<char> {
    if bytes >= 0x10000000000 {
        spec_scaled(bytes, 0x10000000000, " TiB"@)
    } else if bytes >= 0x40000000 {
        spec_scaled(bytes, 0x40000000, " GiB"@)
    } else if bytes >= 0x100000 {
        spec_scaled(bytes, 0x100000, " MiB"@)
    } else if bytes >= 0x400 {
        spec_scaled(bytes, 0x400, " KiB"@)
    } else {
        spec_decimal(bytes) + " B"@
    }
}

fn scaled_chars(bytes: u64, unit: u64, label: &str) -> (r: Vec<char>)
    requires
        unit >= 1024,
    ensures
        r@ == spec_scaled(bytes as nat, unit as nat, label@),
{
    let wide: u128 = (bytes as u128) * 200 / (unit as u128);
    proof {
        vstd::arithmetic::div_mod::lemma_div_is_ordered_by_denominator(
            (bytes as int) * 200,
            1024,
            unit as int,
        );
        vstd::arithmetic::div_mod::lemma_div_is_ordered(
            (bytes as int) * 200,
            0xffff_ffff_ffff_ffff as int * 200,
            1024,
        );
        assert(0xffff_ffff_ffff_ffff as int * 200 / 1024 < 0x8000000000000000);
        assert(wide < 0x8000000000000000);
    }
    let q128: u128 = (wide + 1) / 2;
    let q: u64 = q128 as u64;
    proof {
        assert(q128 < 0x10000000000000000);
        assert(q == q128);
    }
    let mut r = decimal_chars(q / 100);
    r.push('.');
    let frac = q % 100;
    r.push((48 + (frac / 10) as u8) as char);
    r.push((48 + (frac % 10) as u8) as char);
    let lv = crate::strutil::str_chars(label);
    let mut i: usize = 0;
    while i < lv.len()
        invariant
            i <= lv@.len(),
            r@ == spec_decimal((q / 100) as nat) + seq!['.'] + spec_two_digits((q % 100) as nat)
                + lv@.take(i as int),
        decreases lv@.len() - i,
    {
        r.push(lv[i]);
        proof {
            assert(r@ =~= spec_decimal((q / 100) as nat) + seq!['.'] + spec_two_digits(
                (q % 100) as nat,
            ) + lv@.take(i + 1));
        }
        i = i + 1;
    }
    proof {
        reveal_strlit(".");
        assert(lv@.take(lv@.len() as int) =~= lv@);
        assert(seq!['.'] =~= "."@);
        assert(r@ =~= spec_scaled(bytes as nat, unit as nat, label@));
    }
    r
}

/// Writes a byte count with its binary unit, two decimals.
pub fn format_bytes(bytes: u64) -> (r: String)
    ensures
        r@ == spec_format_bytes(bytes as nat),
{
    let v: Vec<char> = if bytes >= 0x10000000000 {
        scaled_chars(bytes, 0x10000000000, " TiB")
    } else if bytes >= 0x40000000 {
        scaled_chars(bytes, 0x40000000, " GiB")
    } else if bytes >= 0x100000 {
        scaled_chars(bytes, 0x100000, " MiB")
    } else if bytes >= 0x400 {
        scaled_chars(bytes, 0x400, " KiB")
    } else {
        let mut v = decimal_chars(bytes);
        let bv = crate::strutil::str_chars(" B");
        let mut i: usize = 0;
        while i < bv.len()
            invariant
                i <= bv@.len(),
                v@ == spec_decimal(bytes as nat) + bv@.take(i as int),
            decreases bv@.len() - i,
        {
            v.push(bv[i]);
            proof {
                assert(v@ =~= spec_decimal(bytes as nat) + bv@.take(i + 1));
            }
            i = i + 1;
        }
        proof {
            assert(bv@.take(bv@.len() as int) =~= bv@);
        }
        v
    };
    chars_string(&v)
}

/// A duration in seconds, written in the largest fitting units.
pub open spec fn spec_format_duration(secs: nat) -> Seq<char> {
    if secs < 60 {
        spec_decimal(secs) + "s"@
    } else if secs < 3600 {
        let mins = secs / 60;
        let rest = secs % 60;
        if rest == 0 {
            spec_decimal(mins) + "m"@
        } else {
            spec_decimal(mins) + "m "@ + spec_decimal(rest) + "s"@
        }
    } else {
        let hours = secs / 3600;
        let mins = (secs % 3600) / 60;
        if mins == 0 {
            spec_decimal(hours) + "h"@
        } else {
            spec_decimal(hours) + "h "@ + spec_decimal(mins) + "m"@
        }
    }
}

/// Writes a duration in the largest fitting units.
pub fn format_duration(secs: u64) -> (r: String)
    ensures
        r@ == spec_format_duration(secs as nat),
{
    if secs < 60 {
        let s = u64_to_string(secs).concat("s");
        s
    } else if secs < 3600 {
        let mins = secs / 60;
        let rest = secs % 60;
        if rest == 0 {
            u64_to_string(mins).concat("m")
        } else {
            u64_to_string(mins).concat("m ").concat(u64_to_string(rest).concat("s").as_str())
        }
    } else {
        let hours = secs / 3600;
        let mins = (secs % 3600) / 60;
        if mins == 0 {
            u64_to_string(hours).concat("h")
        } else {
            u64_to_string(hours).concat("h ").concat(u64_to_string(mins).concat("m").as_str())
        }
    }
}

} // verus!
