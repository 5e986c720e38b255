//! Interpretation of tunnel status: the parsed `status` report, the
//! handshake-staleness rule, the traffic threshold, and the routing check.

use vstd::prelude::*;
use crate::strutil::{
    str_chars, chars_string, chars_trim, chars_slice, chars_lower, chars_eq, chars_contains,
    chars_starts_with, split_ws, split_exact, lines_of, digits_only, digits_to_u128, pow10_u64,
    parse_u32_chars, spec_trim, spec_lines, spec_split, spec_tokens, lower_seq, contains_seq,
    match_at, is_space,
    starts_with_seq, all_digits, digits_opt, digits_val, pow10, views, is_digit,
    lemma_digits_val_bound, lemma_digits_lower_bound, lemma_digits_drop_first_zero,
    lemma_pow10_vals, lemma_pow10_mono,
};
use vstd::arithmetic::div_mod::{
    lemma_hoist_over_denominator, lemma_div_is_ordered, lemma_div_by_multiple,
};

verus! {

/// The view of an optional string.
pub open spec fn opt_view(o: Option<String>) -> Option<Seq<char>> {
    match o {
        Some(s) => Some(s@),
        None => None,
    }
}

// ---------------------------------------------------------------------
// Transfer amounts: `"1.21 GiB"` and the like, read to bytes.
// ---------------------------------------------------------------------

/// The multiplier the status report's own unit table uses (binary
/// values even for the SI spellings, no terabyte row).
pub open spec fn spec_unit_mult_iec(u: Seq<char>) -> nat {
    if u == "b"@ {
        1
    } else if u == "kib"@ || u == "kb"@ {
        1024
    } else if u == "mib"@ || u == "mb"@ {
        1048576
    } else if u == "gib"@ || u == "gb"@ {
        1073741824
    } else {
        1
    }
}

/// The multiplier the display formatter's table uses (IEC and SI
/// distinguished, terabytes included).
pub open spec fn spec_unit_mult_display(u: Seq<char>) -> nat {
    if u == "b"@ {
        1
    } else if u == "kib"@ {
        1024
    } else if u == "mib"@ {
        1048576
    } else if u == "gib"@ {
        1073741824
    } else if u == "tib"@ {
        1099511627776
    } else if u == "kb"@ {
        1000
    } else if u == "mb"@ {
        1000000
    } else if u == "gb"@ {
        1000000000
    } else if u == "tb"@ {
        1000000000000
    } else {
        1
    }
}

/// A numeric token: digits with at most one decimal point, at least
/// one digit in all.
pub open spec fn dec_valid(t: Seq<char>) -> bool {
    let p = spec_split(t, '.');
    if p.len() == 1 {
        all_digits(p[0])
    } else if p.len() == 2 {
        digits_opt(p[0]) && digits_opt(p[1]) && p[0].len() + p[1].len() > 0
    } else {
        false
    }
}

/// The integer digits of a numeric token.
pub open spec fn dec_int(t: Seq<char>) -> Seq<char> {
    spec_split(t, '.')[0]
}

/// The fraction digits of a numeric token, read to twelve places.
pub open spec fn dec_frac(t: Seq<char>) -> Seq<char> {
    let p = spec_split(t, '.');
    if p.len() == 1 {
        Seq::<char>::empty()
    } else if p[1].len() > 12 {
        p[1].take(12)
    } else {
        p[1]
    }
}

/// A transfer amount read to bytes: the first token is the number, the
/// second the unit; the exact value is floored, and anything beyond
/// `u64::MAX` saturates.
pub open spec fn spec_transfer_bytes(s: Seq<char>, display_units: bool) -> nat {
    let toks = spec_tokens(s);
    if toks.len() < 2 || !dec_valid(toks[0]) {
        0
    } else {
        let den = pow10(dec_frac(toks[0]).len());
        let num = digits_val(dec_int(toks[0])) * den + digits_val(dec_frac(toks[0]));
        let m = if display_units {
            spec_unit_mult_display(lower_seq(toks[1]))
        } else {
            spec_unit_mult_iec(lower_seq(toks[1]))
        };
        let v = num * m / den;
        if v > u64::MAX {
            u64::MAX as nat
        } else {
            v
        }
    }
}

fn unit_mult(u: &Vec<char>, display_units: bool) -> (m: u64)
    ensures
        m as nat == if display_units {
            spec_unit_mult_display(u@)
        } else {
            spec_unit_mult_iec(u@)
        },
        1 <= m <= 1099511627776,
{
    if display_units {
        if chars_eq(u, &str_chars("b")) {
            1
        } else if chars_eq(u, &str_chars("kib")) {
            1024
        } else if chars_eq(u, &str_chars("mib")) {
            1048576
        } else if chars_eq(u, &str_chars("gib")) {
            1073741824
        } else if chars_eq(u, &str_chars("tib")) {
            1099511627776
        } else if chars_eq(u, &str_chars("kb")) {
            1000
        } else if chars_eq(u, &str_chars("mb")) {
            1000000
        } else if chars_eq(u, &str_chars("gb")) {
            1000000000
        } else if chars_eq(u, &str_chars("tb")) {
            1000000000000
        } else {
            1
        }
    } else {
        if chars_eq(u, &str_chars("b")) {
            1
        } else if chars_eq(u, &str_chars("kib")) || chars_eq(u, &str_chars("kb")) {
            1024
        } else if chars_eq(u, &str_chars("mib")) || chars_eq(u, &str_chars("mb")) {
            1048576
        } else if chars_eq(u, &str_chars("gib")) || chars_eq(u, &str_chars("gb")) {
            1073741824
        } else {
            1
        }
    }
}

/// Reads a transfer amount such as `"1.21 GiB"` to bytes.
pub fn transfer_bytes_chars(s: &Vec<char>, display_units: bool) -> (r: u64)
    ensures
        r as nat == spec_transfer_bytes(s@, display_units),
{
    let toks = split_ws(s);
    if toks.len() < 2 {
        return 0;
    }
    let ghost stoks = spec_tokens(s@);
    proof {
        assert(views(toks@)[0] == toks@[0]@);
        assert(views(toks@)[1] == toks@[1]@);
    }
    let parts = split_exact(&toks[0], '.');
    let ghost t0 = stoks[0];
    proof {
        assert(views(parts@)[0] == parts@[0]@);
        if parts@.len() == 2 {
            assert(views(parts@)[1] == parts@[1]@);
        }
    }
    if parts.len() > 2 {
        return 0;
    }
    let p0 = &parts[0];
    if parts.len() == 1 {
        if p0.len() == 0 || !digits_only(p0) {
            return 0;
        }
    } else {
        let ok0 = digits_only(p0);
        let ok1 = digits_only(&parts[1]);
        if !ok0 || !ok1 || (p0.len() == 0 && parts[1].len() == 0) {
            return 0;
        }
    }
    assert(dec_valid(t0));
    // Fraction digits, read to twelve places.
    let fp: Vec<char> = if parts.len() == 2 {
        let f = &parts[1];
        if f.len() > 12 {
            chars_slice(f, 0, 12)
        } else {
            chars_slice(f, 0, f.len())
        }
    } else {
        Vec::new()
    };
    proof {
        if parts@.len() == 2 {
            if parts@[1]@.len() > 12 {
                assert(fp@ =~= parts@[1]@.take(12));
            } else {
                assert(fp@ =~= parts@[1]@);
            }
        }
        assert(fp@ == dec_frac(t0));
        assert(digits_opt(fp@));
    }
    let den: u64 = pow10_u64(fp.len());
    // Skip leading zeros so the magnitude test below is exact.
    assert(p0@.skip(0) =~= p0@);
    let mut iz: usize = 0;
    while iz < p0.len() && (p0[iz] as u32) == 48
        invariant
            iz <= p0@.len(),
            digits_val(p0@.skip(iz as int)) == digits_val(p0@),
        decreases p0@.len() - iz,
    {
        proof {
            lemma_digits_drop_first_zero(p0@.skip(iz as int));
            assert(p0@.skip(iz as int).drop_first() =~= p0@.skip(iz + 1));
        }
        iz = iz + 1;
    }
    let ghost ival = digits_val(p0@);
    let ghost fval = digits_val(fp@);
    let ghost dnum = ival * (den as nat) + fval;
    let ghost m_spec: nat = if display_units {
        spec_unit_mult_display(lower_seq(stoks[1]))
    } else {
        spec_unit_mult_iec(lower_seq(stoks[1]))
    };
    let lower1 = chars_lower(&toks[1]);
    let m = unit_mult(&lower1, display_units);
    proof {
        lemma_pow10_vals();
        lemma_pow10_mono(0, fp@.len());
    }
    if p0.len() - iz > 20 {
        // At least 10^20 whole units: saturated whatever the unit.
        proof {
            let tail = p0@.skip(iz as int);
            assert(tail.len() >= 21);
            assert((tail[0] as u32) != 48);
            assert(forall|k: int| 0 <= k < tail.len() ==> is_digit(tail[k]));
            lemma_digits_lower_bound(tail);
            lemma_pow10_mono(20, (tail.len() - 1) as nat);
            assert(ival >= pow10(20));
            assert(dnum * m_spec >= ival * (den as nat) * m_spec) by (nonlinear_arith)
                requires
                    dnum == ival * (den as nat) + fval,
                    m_spec >= 1,
                    fval >= 0,
            ;
            assert(ival * (den as nat) * m_spec >= ival * (den as nat)) by (nonlinear_arith)
                requires
                    m_spec >= 1,
                    ival >= 0,
                    den >= 1,
            ;
            lemma_div_is_ordered(ival * (den as nat) as int, (dnum * m_spec) as int, den as int);
            lemma_div_by_multiple(ival as int, den as int);
            assert(ival * (den as nat) as int == ival as int * den as int) by (nonlinear_arith);
            assert(dnum * m_spec / (den as nat) >= ival);
            assert(spec_transfer_bytes(s@, display_units) == u64::MAX as nat);
        }
        return u64::MAX;
    }
    let int_val: u128 = digits_to_u128(p0, iz);
    let frac_val: u128 = digits_to_u128(&fp, 0);
    proof {
        assert(fp@.skip(0) =~= fp@);
        assert(int_val as nat == ival);
        assert(frac_val as nat == fval);
        lemma_digits_val_bound(p0@.skip(iz as int));
        lemma_pow10_mono(p0@.skip(iz as int).len(), 20);
        assert(ival < pow10(20));
        lemma_digits_val_bound(fp@);
        lemma_pow10_mono(fp@.len(), 12);
        assert(fval < pow10(12));
    }
    proof {
        assert(ival * (m as nat) <= (pow10(20) - 1) * 1099511627776) by (nonlinear_arith)
            requires
                ival <= pow10(20) - 1,
                1 <= (m as nat) <= 1099511627776,
        ;
        assert(fval * (m as nat) <= (pow10(12) - 1) * 1099511627776) by (nonlinear_arith)
            requires
                fval <= pow10(12) - 1,
                1 <= (m as nat) <= 1099511627776,
        ;
    }
    let prod_int: u128 = int_val * (m as u128);
    let prod_frac: u128 = frac_val * (m as u128);
    let q: u128 = prod_frac / (den as u128);
    let rv: u128 = prod_int + q;
    proof {
        lemma_div_is_ordered(0, prod_frac as int, den as int);
        lemma_div_is_ordered(prod_frac as int, prod_frac as int, den as int);
        // floor((i*den + f) * m / den) == i*m + floor(f*m / den)
        lemma_hoist_over_denominator((fval * (m as nat)) as int, (ival * (m as nat)) as int,
            den as nat);
        assert((fval * (m as nat)) as int + (ival * (m as nat)) as int * (den as int) == (dnum
            * m_spec) as int) by (nonlinear_arith)
            requires
                dnum == ival * (den as nat) + fval,
                m_spec == m as nat,
        ;
        assert(q as int == (fval * (m as nat)) as int / (den as int));
        assert(rv as nat == dnum * m_spec / (den as nat));
    }
    if rv > 0xffff_ffff_ffff_ffff {
        u64::MAX
    } else {
        rv as u64
    }
}

/// `"1.23 GiB"` and the like, read to bytes with the display table.
pub fn parse_transfer_to_bytes(s: &str) -> (r: u64)
    ensures
        r as nat == spec_transfer_bytes(s@, true),
{
    let v = str_chars(s);
    transfer_bytes_chars(&v, true)
}

/// The bytes both transfer directions sum to, measured with the
/// status report's unit table.
pub open spec fn spec_traffic_sum(rx: Seq<char>, tx: Seq<char>) -> nat {
    spec_transfer_bytes(rx, false) + spec_transfer_bytes(tx, false)
}

/// More than a KiB moved in all: real traffic, not just handshakes.
pub fn has_meaningful_traffic(rx: &str, tx: &str) -> (r: bool)
    ensures
        r == (spec_traffic_sum(rx@, tx@) > 1024),
{
    let rv = str_chars(rx);
    let tv = str_chars(tx);
    let rb = transfer_bytes_chars(&rv, false);
    let tb = transfer_bytes_chars(&tv, false);
    (rb as u128 + tb as u128) > 1024
}

// ---------------------------------------------------------------------
// Handshake staleness.
// ---------------------------------------------------------------------

/// The first whitespace token that reads as a `u32`, if any.
pub open spec fn spec_first_u32(toks: Seq<Seq<char>>) -> Option<nat>
    decreases toks.len(),
{
    if toks.len() == 0 {
        None
    } else if all_digits(toks[0]) && digits_val(toks[0]) <= u32::MAX {
        Some(digits_val(toks[0]))
    } else {
        spec_first_u32(toks.drop_first())
    }
}

/// Whether a lowercased handshake phrase reports a stale handshake:
/// hours or days are always stale; a minute count is stale from three
/// minutes up; a phrase in seconds alone is fresh; anything else is
/// treated as stale.
pub open spec fn spec_handshake_stale(l: Seq<char>) -> bool {
    if contains_seq(l, "hour"@) || contains_seq(l, "day"@) {
        true
    } else if contains_seq(l, "minute"@) {
        match spec_first_u32(spec_tokens(l)) {
            Some(m) => m >= 3,
            None => true,
        }
    } else if contains_seq(l, "second"@) {
        false
    } else {
        true
    }
}

/// Whether the handshake phrase reports a handshake at least three
/// minutes old (or cannot be read at all).
pub fn is_handshake_stale(handshake: &str) -> (r: bool)
    ensures
        r == spec_handshake_stale(lower_seq(handshake@)),
{
    let v = str_chars(handshake);
    handshake_stale_chars(&v)
}

/// The staleness rule, on characters.
pub fn handshake_stale_chars(handshake: &Vec<char>) -> (r: bool)
    ensures
        r == spec_handshake_stale(lower_seq(handshake@)),
{
    let l = chars_lower(handshake);
    if chars_contains(&l, &str_chars("hour")) || chars_contains(&l, &str_chars("day")) {
        return true;
    }
    if chars_contains(&l, &str_chars("minute")) {
        let toks = split_ws(&l);
        let ghost stoks = spec_tokens(l@);
        proof {
            assert(stoks.skip(0) =~= stoks);
        }
        let mut i: usize = 0;
        while i < toks.len()
            invariant
                i <= toks@.len(),
                views(toks@) == stoks,
                l@ == lower_seq(handshake@),
                stoks == spec_tokens(l@),
                !contains_seq(l@, "hour"@),
                !contains_seq(l@, "day"@),
                contains_seq(l@, "minute"@),
                spec_first_u32(stoks) == spec_first_u32(stoks.skip(i as int)),
            decreases toks@.len() - i,
        {
            proof {
                assert(stoks.skip(i as int)[0] == toks@[i as int]@);
                assert(stoks.skip(i as int).drop_first() =~= stoks.skip(i + 1));
            }
            match parse_u32_chars(&toks[i]) {
                Some(mins) => {
                    proof {
                        assert(spec_first_u32(stoks.skip(i as int)) == Some(mins as nat));
                    }
                    return mins >= 3;
                },
                None => {
                    proof {
                        assert(spec_first_u32(stoks.skip(i as int)) == spec_first_u32(
                            stoks.skip(i + 1),
                        ));
                    }
                },
            }
            i = i + 1;
        }
        proof {
            assert(stoks.skip(stoks.len() as int) =~= Seq::<Seq<char>>::empty());
        }
        return true;
    }
    if chars_contains(&l, &str_chars("second")) {
        return false;
    }
    true
}

// ---------------------------------------------------------------------
// The parsed status report.
// ---------------------------------------------------------------------

/// The view of an optional character vector.
pub open spec fn opt_vec_view(o: Option<Vec<char>>) -> Option<Seq<char>> {
    match o {
        Some(v) => Some(v@),
        None => None,
    }
}

/// The value of the last line whose trimmed form starts with `prefix`:
/// the rest of that line, trimmed.
pub open spec fn last_field(lines: Seq<Seq<char>>, prefix: Seq<char>) -> Option<Seq<char>>
    decreases lines.len(),
{
    if lines.len() == 0 {
        None
    } else {
        let lt = spec_trim(lines.last());
        if starts_with_seq(lt, prefix) {
            Some(spec_trim(lt.skip(prefix.len() as int)))
        } else {
            last_field(lines.drop_last(), prefix)
        }
    }
}

/// The rest of the last `transfer:` line that splits into at least two
/// comma-separated sides.
pub open spec fn last_transfer(lines: Seq<Seq<char>>) -> Option<Seq<char>>
    decreases lines.len(),
{
    if lines.len() == 0 {
        None
    } else {
        let lt = spec_trim(lines.last());
        if starts_with_seq(lt, "transfer:"@) && spec_split(
            spec_trim(lt.skip("transfer:"@.len() as int)),
            ',',
        ).len() >= 2 {
            Some(spec_trim(lt.skip("transfer:"@.len() as int)))
        } else {
            last_transfer(lines.drop_last())
        }
    }
}

/// What `last_transfer` returns always splits into two sides or more.
proof fn lemma_last_transfer_parts(lines: Seq<Seq<char>>)
    ensures
        last_transfer(lines) matches Some(t) ==> spec_split(t, ',').len() >= 2,
    decreases lines.len(),
{
    if lines.len() > 0 {
        lemma_last_transfer_parts(lines.drop_last());
    }
}

fn find_last_field(lines: &Vec<Vec<char>>, prefix: &Vec<char>) -> (r: Option<Vec<char>>)
    ensures
        opt_vec_view(r) == last_field(views(lines@), prefix@),
{
    let mut best: Option<Vec<char>> = None;
    let mut i: usize = 0;
    proof {
        assert(views(lines@).take(0) =~= Seq::<Seq<char>>::empty());
    }
    while i < lines.len()
        invariant
            i <= lines@.len(),
            opt_vec_view(best) == last_field(views(lines@).take(i as int), prefix@),
        decreases lines@.len() - i,
    {
        let lt = chars_trim(&lines[i]);
        proof {
            assert(views(lines@).take(i + 1).drop_last() =~= views(lines@).take(i as int));
            assert(views(lines@).take(i + 1).last() == lines@[i as int]@);
        }
        if chars_starts_with(&lt, prefix) {
            let rest = chars_slice(&lt, prefix.len(), lt.len());
            proof {
                assert(rest@ =~= lt@.skip(prefix@.len() as int));
            }
            best = Some(chars_trim(&rest));
        }
        i = i + 1;
    }
    proof {
        assert(views(lines@).take(lines@.len() as int) =~= views(lines@));
    }
    best
}

fn find_last_transfer(lines: &Vec<Vec<char>>) -> (r: Option<Vec<char>>)
    ensures
        opt_vec_view(r) == last_transfer(views(lines@)),
{
    let prefix = str_chars("transfer:");
    let mut best: Option<Vec<char>> = None;
    let mut i: usize = 0;
    proof {
        assert(views(lines@).take(0) =~= Seq::<Seq<char>>::empty());
    }
    while i < lines.len()
        invariant
            i <= lines@.len(),
            prefix@ == "transfer:"@,
            opt_vec_view(best) == last_transfer(views(lines@).take(i as int)),
        decreases lines@.len() - i,
    {
        let lt = chars_trim(&lines[i]);
        proof {
            assert(views(lines@).take(i + 1).drop_last() =~= views(lines@).take(i as int));
            assert(views(lines@).take(i + 1).last() == lines@[i as int]@);
        }
        if chars_starts_with(&lt, &prefix) {
            let rest = chars_slice(&lt, prefix.len(), lt.len());
            proof {
                assert(rest@ =~= lt@.skip(prefix@.len() as int));
            }
            let value = chars_trim(&rest);
            let parts = split_exact(&value, ',');
            if parts.len() >= 2 {
                best = Some(value);
            }
        }
        i = i + 1;
    }
    proof {
        assert(views(lines@).take(lines@.len() as int) =~= views(lines@));
    }
    best
}

/// One route line that sends traffic through the interface: it names
/// the interface and is the default route or one half of the
/// split-default pair.
pub open spec fn routing_line_ok(l: Seq<char>, iface: Seq<char>) -> bool {
    contains_seq(l, iface) && (starts_with_seq(l, "0.0.0.0/1"@) || starts_with_seq(
        l,
        "128.0.0.0/1"@,
    ) || starts_with_seq(l, "default"@))
}

/// The default-route listing mentions the interface.
pub open spec fn def_route_ok(iface: Seq<char>, def: Option<Seq<char>>) -> bool {
    match def {
        Some(d) => contains_seq(d, iface),
        None => false,
    }
}

/// Line `k` of the route listing `rt` routes through the interface.
pub open spec fn routes_ok_at(rt: Seq<char>, iface: Seq<char>, k: int) -> bool {
    0 <= k < spec_lines(rt).len() && routing_line_ok(spec_lines(rt)[k], iface)
}

/// Some line of the full route listing routes through the interface.
pub open spec fn routes_ok(iface: Seq<char>, routes: Option<Seq<char>>) -> bool {
    routes is Some && (exists|k: int| routes_ok_at(routes->0, iface, k))
}

proof fn lemma_routes_ok_intro(rt: Seq<char>, iface: Seq<char>, k: int)
    requires
        routes_ok_at(rt, iface, k),
    ensures
        routes_ok(iface, Some(rt)),
{
    assert(exists|j: int| #[trigger] routes_ok_at(rt, iface, j)) by {
        assert(routes_ok_at(rt, iface, k));
    }
    assert(Some(rt)->0 == rt);
}

/// The default route, or a split-default pair, traverses `iface`.
/// `def` and `routes` are the captured outputs of the route listing
/// (absent where the probe failed).
pub open spec fn spec_routing_ok(
    iface: Seq<char>,
    def: Option<Seq<char>>,
    routes: Option<Seq<char>>,
) -> bool {
    def_route_ok(iface, def) || routes_ok(iface, routes)
}

/// Whether the routing table sends default traffic through `iface`.
pub fn check_vpn_routing(
    iface: &Vec<char>,
    default_route: &Option<String>,
    all_routes: &Option<String>,
) -> (r: bool)
    ensures
        r == spec_routing_ok(iface@, opt_view(*default_route), opt_view(*all_routes)),
{
    match default_route {
        Some(d) => {
            let dv = str_chars(d.as_str());
            if chars_contains(&dv, iface) {
                return true;
            }
        },
        None => {},
    }
    match all_routes {
        Some(rt) => {
            let rv = str_chars(rt.as_str());
            let lines = lines_of(&rv);
            let p0 = str_chars("0.0.0.0/1");
            let p1 = str_chars("128.0.0.0/1");
            let p2 = str_chars("default");
            let mut k: usize = 0;
            while k < lines.len()
                invariant
                    k <= lines@.len(),
                    views(lines@) == spec_lines(rt@),
                    opt_view(*all_routes) == Some(rt@),
                    p0@ == "0.0.0.0/1"@,
                    p1@ == "128.0.0.0/1"@,
                    p2@ == "default"@,
                    forall|j: int| 0 <= j < k ==> !routes_ok_at(rt@, iface@, j),
                decreases lines@.len() - k,
            {
                let line = &lines[k];
                proof {
                    assert(views(lines@)[k as int] == lines@[k as int]@);
                }
                if chars_contains(line, iface) && (chars_starts_with(line, &p0)
                    || chars_starts_with(line, &p1) || chars_starts_with(line, &p2)) {
                    proof {
                        assert(opt_view(*all_routes) == Some(rt@));
                        lemma_routes_ok_intro(rt@, iface@, k as int);
                        assert(routes_ok(iface@, opt_view(*all_routes)));
                    }
                    return true;
                }
                k = k + 1;
            }
        },
        None => {},
    }
    false
}

/// The interface named on the first link line: the second `:`-field,
/// trimmed, up to any `@` suffix.
pub open spec fn link_iface_of_line(l: Seq<char>) -> Option<Seq<char>> {
    let p = spec_split(l, ':');
    if p.len() >= 2 {
        Some(spec_split(spec_trim(p[1]), '@')[0])
    } else {
        None
    }
}

pub open spec fn first_link_iface(lines: Seq<Seq<char>>) -> Option<Seq<char>>
    decreases lines.len(),
{
    if lines.len() == 0 {
        None
    } else {
        match link_iface_of_line(lines[0]) {
            Some(x) => Some(x),
            None => first_link_iface(lines.drop_first()),
        }
    }
}

/// The first interface name in a link listing, if any.
pub fn parse_first_link_iface(text: &str) -> (r: Option<String>)
    ensures
        opt_view(r) == first_link_iface(spec_lines(text@)),
{
    let tv = str_chars(text);
    let lines = lines_of(&tv);
    let ghost slines = spec_lines(text@);
    proof {
        assert(slines.skip(0) =~= slines);
    }
    let mut k: usize = 0;
    while k < lines.len()
        invariant
            k <= lines@.len(),
            views(lines@) == slines,
            slines == spec_lines(text@),
            first_link_iface(slines) == first_link_iface(slines.skip(k as int)),
        decreases lines@.len() - k,
    {
        proof {
            assert(slines.skip(k as int)[0] == lines@[k as int]@);
            assert(slines.skip(k as int).drop_first() =~= slines.skip(k + 1));
        }
        let p = split_exact(&lines[k], ':');
        if p.len() >= 2 {
            proof {
                assert(views(p@)[1] == p@[1]@);
            }
            let t = chars_trim(&p[1]);
            let q = split_exact(&t, '@');
            proof {
                assert(views(q@)[0] == q@[0]@);
            }
            let name = chars_string(&q[0]);
            proof {
                assert(link_iface_of_line(slines[k as int]) == Some(name@));
            }
            return Some(name);
        }
        k = k + 1;
    }
    proof {
        assert(slines.skip(slines.len() as int) =~= Seq::<Seq<char>>::empty());
    }
    None
}

/// The parsed state of the tunnel.
#[derive(Debug, Clone)]
pub struct WgStatus {
    pub connected: bool,
    pub interface: Option<String>,
    pub endpoint: Option<String>,
    pub latest_handshake: Option<String>,
    pub transfer_rx: Option<String>,
    pub transfer_tx: Option<String>,
    pub handshake_stale: bool,
    pub has_traffic: bool,
    pub routing_ok: bool,
}

impl Default for WgStatus {
    /// The disconnected status.
    fn default() -> (r: WgStatus)
        ensures
            !r.connected,
            r.interface is None,
            r.endpoint is None,
            r.latest_handshake is None,
            r.transfer_rx is None,
            r.transfer_tx is None,
            !r.handshake_stale,
            !r.has_traffic,
            !r.routing_ok,
    {
        WgStatus {
            connected: false,
            interface: None,
            endpoint: None,
            latest_handshake: None,
            transfer_rx: None,
            transfer_tx: None,
            handshake_stale: false,
            has_traffic: false,
            routing_ok: false,
        }
    }
}

/// Reads the helper's `status` report. The route listings are the
/// captured outputs the routing check needs; each is absent where its
/// probe failed.
pub fn parse_wg_show_output(
    stdout: &str,
    default_route: &Option<String>,
    all_routes: &Option<String>,
) -> (r: WgStatus)
    ensures
        r.connected,
        opt_view(r.interface) == last_field(spec_lines(stdout@), "interface:"@),
        opt_view(r.endpoint) == last_field(spec_lines(stdout@), "endpoint:"@),
        opt_view(r.latest_handshake) == last_field(spec_lines(stdout@), "latest handshake:"@),
        r.handshake_stale == match last_field(spec_lines(stdout@), "latest handshake:"@) {
            Some(h) => spec_handshake_stale(lower_seq(h)),
            None => true,
        },
        opt_view(r.transfer_rx) == match last_transfer(spec_lines(stdout@)) {
            Some(t) => Some(spec_trim(spec_split(t, ',')[0])),
            None => None,
        },
        opt_view(r.transfer_tx) == match last_transfer(spec_lines(stdout@)) {
            Some(t) => Some(spec_trim(spec_split(t, ',')[1])),
            None => None,
        },
        r.has_traffic == match last_transfer(spec_lines(stdout@)) {
            Some(t) => spec_traffic_sum(spec_split(t, ',')[0], spec_split(t, ',')[1]) > 1024,
            None => false,
        },
        r.routing_ok == match last_field(spec_lines(stdout@), "interface:"@) {
            Some(ifc) => spec_routing_ok(ifc, opt_view(*default_route), opt_view(*all_routes)),
            None => false,
        },
{
    let sv = str_chars(stdout);
    let lines = lines_of(&sv);
    let iface = find_last_field(&lines, &str_chars("interface:"));
    let endpoint = find_last_field(&lines, &str_chars("endpoint:"));
    let handshake = find_last_field(&lines, &str_chars("latest handshake:"));
    let transfer = find_last_transfer(&lines);

    let handshake_stale = match &handshake {
        Some(h) => handshake_stale_chars(h),
        None => true,
    };
    let (transfer_rx, transfer_tx, has_traffic) = match &transfer {
        Some(t) => {
            proof {
                lemma_last_transfer_parts(spec_lines(stdout@));
            }
            let parts = split_exact(t, ',');
            proof {
                assert(views(parts@)[0] == parts@[0]@);
                assert(views(parts@)[1] == parts@[1]@);
            }
            let rx_raw = &parts[0];
            let tx_raw = &parts[1];
            let rb = transfer_bytes_chars(rx_raw, false);
            let tb = transfer_bytes_chars(tx_raw, false);
            let traffic = (rb as u128 + tb as u128) > 1024;
            let rxs = chars_string(&chars_trim(rx_raw));
            let txs = chars_string(&chars_trim(tx_raw));
            (Some(rxs), Some(txs), traffic)
        },
        None => (None, None, false),
    };
    let routing_ok = match &iface {
        Some(ifc) => check_vpn_routing(ifc, default_route, all_routes),
        None => false,
    };
    let interface = match &iface {
        Some(v) => Some(chars_string(v)),
        None => None,
    };
    let endpoint_s = match &endpoint {
        Some(v) => Some(chars_string(v)),
        None => None,
    };
    let handshake_s = match &handshake {
        Some(v) => Some(chars_string(v)),
        None => None,
    };
    WgStatus {
        connected: true,
        interface,
        endpoint: endpoint_s,
        latest_handshake: handshake_s,
        transfer_rx,
        transfer_tx,
        handshake_stale,
        has_traffic,
        routing_ok,
    }
}

// ---------------------------------------------------------------------
// The layered health check.
// ---------------------------------------------------------------------

/// The detailed health probe of the tunnel.
#[derive(Debug, Clone)]
pub struct VpnHealthCheck {
    pub interface_exists: bool,
    pub has_peer: bool,
    pub handshake_recent: bool,
    pub routing_configured: bool,
    pub can_reach_internet: bool,
    pub latency_ms: Option<u32>,
}

impl Default for VpnHealthCheck {
    /// The all-failed health report.
    fn default() -> (r: VpnHealthCheck)
        ensures
            !r.interface_exists,
            !r.has_peer,
            !r.handshake_recent,
            !r.routing_configured,
            !r.can_reach_internet,
            r.latency_ms is None,
    {
        VpnHealthCheck {
            interface_exists: false,
            has_peer: false,
            handshake_recent: false,
            routing_configured: false,
            can_reach_internet: false,
            latency_ms: None,
        }
    }
}

impl VpnHealthCheck {
    /// The tunnel is fully operational.
    pub fn is_healthy(&self) -> (r: bool)
        ensures
            r == (self.interface_exists && self.has_peer && self.routing_configured
                && self.can_reach_internet),
    {
        self.interface_exists && self.has_peer && self.routing_configured
            && self.can_reach_internet
    }

    /// The tunnel is up but needs attention.
    pub fn is_degraded(&self) -> (r: bool)
        ensures
            r == (self.interface_exists && self.has_peer && (!self.handshake_recent
                || !self.routing_configured)),
    {
        self.interface_exists && self.has_peer && (!self.handshake_recent
            || !self.routing_configured)
    }
}

/// Builds the health report from the parsed status and the outcome of
/// the reachability probe (which only counts while connected).
pub fn health_from_status(status: &WgStatus, can_reach: bool, latency_ms: Option<u32>) -> (r:
    VpnHealthCheck)
    ensures
        !status.connected ==> !r.interface_exists && !r.has_peer && !r.handshake_recent
            && !r.routing_configured && !r.can_reach_internet && r.latency_ms is None,
        status.connected ==> {
            &&& r.interface_exists
            &&& r.has_peer == (status.endpoint is Some)
            &&& r.handshake_recent == !status.handshake_stale
            &&& r.routing_configured == status.routing_ok
            &&& r.can_reach_internet == can_reach
            &&& r.latency_ms == if can_reach {
                latency_ms
            } else {
                None::<u32>
            }
        },
{
    if !status.connected {
        return VpnHealthCheck::default();
    }
    VpnHealthCheck {
        interface_exists: true,
        has_peer: matches!(&status.endpoint, Some(_)),
        handshake_recent: !status.handshake_stale,
        routing_configured: status.routing_ok,
        can_reach_internet: can_reach,
        latency_ms: if can_reach {
            latency_ms
        } else {
            None
        },
    }
}

/// The tunnel is up with a fresh handshake.
pub fn is_alive(status: &WgStatus) -> (r: bool)
    ensures
        r == (status.connected && !status.handshake_stale),
{
    status.connected && !status.handshake_stale
}

/// A phrase of the form `"N minutes ago"` counts as stale exactly
/// from three minutes up.
pub proof fn lemma_minutes_threshold(n: u32)
    ensures
        spec_handshake_stale(
            lower_seq(crate::format::spec_decimal(n as nat) + " minutes ago"@),
        ) == (n >= 3),
{
    reveal_strlit(" minutes ago");
    reveal_strlit("hour");
    reveal_strlit("day");
    reveal_strlit("minute");
    crate::format::lemma_decimal_value(n as nat);
    let d = crate::format::spec_decimal(n as nat);
    let tail = " minutes ago"@;
    let phrase = d + tail;
    assert(tail.len() == 12);
    assert(tail[0] == ' ' && tail[1] == 'm' && tail[2] == 'i' && tail[3] == 'n' && tail[4] == 'u'
        && tail[5] == 't' && tail[6] == 'e' && tail[7] == 's' && tail[8] == ' ' && tail[9] == 'a'
        && tail[10] == 'g' && tail[11] == 'o');
    // every character already sits below the upper-case range
    assert forall|j: int| 0 <= j < phrase.len() implies crate::strutil::lower_char(#[trigger] phrase[j])
        == phrase[j] by {
        if j < d.len() {
            assert(phrase[j] == d[j]);
            assert(48 <= (phrase[j] as u32) <= 57);
        } else {
            assert(phrase[j] == tail[j - d.len()]);
            assert((' ' as u32) == 32 && ('m' as u32) == 109 && ('i' as u32) == 105 && ('n'
                as u32) == 110 && ('u' as u32) == 117 && ('t' as u32) == 116 && ('e' as u32)
                == 101 && ('s' as u32) == 115 && ('a' as u32) == 97 && ('g' as u32) == 103 && (
            'o' as u32) == 111);
        }
    }
    let l = lower_seq(phrase);
    assert(l =~= phrase);
    // neither an hour nor a day is mentioned
    assert forall|i: int| !match_at(phrase, "hour"@, i) by {
        if match_at(phrase, "hour"@, i) {
            assert(phrase.subrange(i, i + 4)[0] == phrase[i]);
            assert(phrase[i] == 'h');
            assert(('h' as u32) == 104);
            if i < d.len() {
                assert(48 <= (phrase[i] as u32) <= 57);
            } else {
                assert(phrase[i] == tail[i - d.len()]);
            }
        }
    }
    assert(!contains_seq(phrase, "hour"@));
    assert forall|i: int| !match_at(phrase, "day"@, i) by {
        if match_at(phrase, "day"@, i) {
            assert(phrase.subrange(i, i + 3)[0] == phrase[i]);
            assert(phrase[i] == 'd');
            assert(('d' as u32) == 100);
            if i < d.len() {
                assert(48 <= (phrase[i] as u32) <= 57);
            } else {
                assert(phrase[i] == tail[i - d.len()]);
            }
        }
    }
    assert(!contains_seq(phrase, "day"@));
    // a minute is mentioned, right after the number
    assert(phrase.subrange(d.len() as int + 1, d.len() as int + 7) =~= "minute"@);
    assert(match_at(phrase, "minute"@, d.len() as int + 1));
    assert(contains_seq(phrase, "minute"@));
    // the first token is exactly the number
    assert forall|k: int| 0 <= k < d.len() implies !is_space(#[trigger] phrase[k]) by {
        assert(phrase[k] == d[k]);
        assert(48 <= (phrase[k] as u32) <= 57);
        assert((' ' as u32) == 32 && ('\t' as u32) == 9 && ('\n' as u32) == 10 && ('\r' as u32)
            == 13 && ('\u{b}' as u32) == 11 && ('\u{c}' as u32) == 12);
    }
    assert(phrase[d.len() as int] == ' ');
    assert(is_space(phrase[d.len() as int]));
    crate::strutil::lemma_token_len_at(phrase, d.len() as int);
    assert(!is_space(phrase[0]));
    assert(phrase.take(d.len() as int) =~= d);
    assert(spec_tokens(phrase) == seq![d] + spec_tokens(phrase.skip(d.len() as int)));
    assert(spec_first_u32(spec_tokens(phrase)) == Some(n as nat)) by {
        assert(spec_tokens(phrase)[0] == d);
        assert(spec_tokens(phrase).len() > 0);
        assert(all_digits(d) && digits_val(d) == n as nat);
    }
    assert(spec_handshake_stale(l) == ((n as nat) >= 3));
}

/// A phrase in hours or days always counts as stale.
pub proof fn lemma_stale_hours_days(l: Seq<char>)
    requires
        contains_seq(l, "hour"@) || contains_seq(l, "day"@),
    ensures
        spec_handshake_stale(l),
{
}

/// A phrase in seconds, with no mention of minutes, hours or days,
/// always counts as fresh.
pub proof fn lemma_seconds_fresh(l: Seq<char>)
    requires
        contains_seq(l, "second"@),
        !contains_seq(l, "minute"@),
        !contains_seq(l, "hour"@),
        !contains_seq(l, "day"@),
    ensures
        !spec_handshake_stale(l),
{
}

} // verus!

