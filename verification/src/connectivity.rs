//! Host connectivity: the layered reachability snapshot and the
//! parsers for the probes' captured output.

use vstd::prelude::*;
use crate::strutil::{
    str_chars, chars_string, chars_trim, chars_contains, chars_starts_with, split_ws, split_exact,
    lines_of, spec_trim, spec_lines, spec_split, spec_tokens, contains_seq, starts_with_seq,
    all_digits, digits_val, views, chars_eq, parse_u32_chars,
};
use crate::wgstatus::{opt_view, link_iface_of_line};

verus! {

/// A device name that carries real host traffic: not the loopback,
/// not a tunnel, and not a container bridge.
pub open spec fn real_iface_name(d: Seq<char>) -> bool {
    &&& d != "lo"@
    &&& !starts_with_seq(d, "wg"@)
    &&& !starts_with_seq(d, "docker"@)
    &&& !starts_with_seq(d, "br-"@)
    &&& !starts_with_seq(d, "veth"@)
}

/// Some line of the up-link listing names a real interface.
pub open spec fn spec_has_real_iface(text: Seq<char>) -> bool {
    exists|k: int|
        0 <= k < spec_lines(text).len() && (match link_iface_of_line(
            #[trigger] spec_lines(text)[k],
        ) {
            Some(d) => real_iface_name(d),
            None => false,
        })
}

/// Whether the up-link listing shows a real interface up.
pub fn has_real_interface(text: &str) -> (r: bool)
    ensures
        r == spec_has_real_iface(text@),
{
    let tv = str_chars(text);
    let lines = lines_of(&tv);
    let ghost sl = spec_lines(text@);
    let mut k: usize = 0;
    while k < lines.len()
        invariant
            k <= lines@.len(),
            views(lines@) == sl,
            sl == spec_lines(text@),
            forall|j: int| 0 <= j < k ==> (match link_iface_of_line(#[trigger] sl[j]) {
                Some(d) => !real_iface_name(d),
                None => true,
            }),
        decreases lines@.len() - k,
    {
        proof {
            assert(sl[k as int] == lines@[k as int]@);
        }
        let p = split_exact(&lines[k], ':');
        if p.len() >= 2 {
            proof {
                assert(views(p@)[1] == p@[1]@);
            }
            let t = chars_trim(&p[1]);
            let q = split_exact(&t, '@');
            proof {
                assert(views(q@)[0] == q@[0]@);
            }
            let dev = &q[0];
            let ok = !chars_eq(dev, &str_chars("lo")) && !chars_starts_with(dev, &str_chars("wg"))
                && !chars_starts_with(dev, &str_chars("docker")) && !chars_starts_with(
                dev,
                &str_chars("br-"),
            ) && !chars_starts_with(dev, &str_chars("veth"));
            if ok {
                proof {
                    assert(link_iface_of_line(sl[k as int]) == Some(q@[0]@));
                    assert(real_iface_name(q@[0]@));
                }
                return true;
            }
        }
        k = k + 1;
    }
    false
}

/// A line of the address listing that shows a usable address: not the
/// loopback's, not a tunnel's.
pub open spec fn addr_line_usable(l: Seq<char>) -> bool {
    &&& !contains_seq(l, " lo "@)
    &&& !contains_seq(l, " wg"@)
    &&& !contains_seq(l, "127.0.0.1"@)
}

/// Some line of the address listing shows a usable address.
pub open spec fn spec_has_usable_addr(text: Seq<char>) -> bool {
    exists|k: int| 0 <= k < spec_lines(text).len() && addr_line_usable(#[trigger] spec_lines(text)[k])
}

/// Whether the address listing shows an address off the loopback and
/// the tunnels.
pub fn has_usable_address(text: &str) -> (r: bool)
    ensures
        r == spec_has_usable_addr(text@),
{
    let tv = str_chars(text);
    let lines = lines_of(&tv);
    let ghost sl = spec_lines(text@);
    let mut k: usize = 0;
    while k < lines.len()
        invariant
            k <= lines@.len(),
            views(lines@) == sl,
            sl == spec_lines(text@),
            forall|j: int| 0 <= j < k ==> !addr_line_usable(#[trigger] sl[j]),
        decreases lines@.len() - k,
    {
        proof {
            assert(sl[k as int] == lines@[k as int]@);
        }
        let line = &lines[k];
        if !chars_contains(line, &str_chars(" lo ")) && !chars_contains(line, &str_chars(" wg"))
            && !chars_contains(line, &str_chars("127.0.0.1")) {
            return true;
        }
        k = k + 1;
    }
    false
}

/// The gateway of the first default-route line: its third word.
pub open spec fn spec_gateway(text: Seq<char>) -> Option<Seq<char>>
    decreases text.len(),
{
    gateway_fold(spec_lines(text))
}

pub open spec fn gateway_fold(lines: Seq<Seq<char>>) -> Option<Seq<char>>
    decreases lines.len(),
{
    if lines.len() == 0 {
        None
    } else if starts_with_seq(lines[0], "default via "@) && spec_tokens(lines[0]).len() >= 3 {
        Some(spec_tokens(lines[0])[2])
    } else {
        gateway_fold(lines.drop_first())
    }
}

/// Reads the gateway address out of a default-route listing.
pub fn parse_gateway(text: &str) -> (r: Option<String>)
    ensures
        match r {
            Some(g) => spec_gateway(text@) == Some(g@),
            None => spec_gateway(text@) is None,
        },
{
    let tv = str_chars(text);
    let lines = lines_of(&tv);
    let ghost sl = spec_lines(text@);
    proof {
        assert(sl.skip(0) =~= sl);
    }
    let prefix = str_chars("default via ");
    let mut k: usize = 0;
    while k < lines.len()
        invariant
            k <= lines@.len(),
            views(lines@) == sl,
            sl == spec_lines(text@),
            prefix@ == "default via "@,
            gateway_fold(sl) == gateway_fold(sl.skip(k as int)),
        decreases lines@.len() - k,
    {
        proof {
            assert(sl.skip(k as int)[0] == lines@[k as int]@);
            assert(sl.skip(k as int).drop_first() =~= sl.skip(k + 1));
        }
        let line = &lines[k];
        if chars_starts_with(line, &prefix) {
            let toks = split_ws(line);
            if toks.len() >= 3 {
                proof {
                    assert(views(toks@)[2] == toks@[2]@);
                }
                return Some(chars_string(&toks[2]));
            }
        }
        k = k + 1;
    }
    proof {
        assert(sl.skip(sl.len() as int) =~= Seq::<Seq<char>>::empty());
    }
    None
}

/// A dotted quad: four `.`-separated parts, each a digit run whose
/// value fits a byte.
pub open spec fn spec_valid_ipv4(s: Seq<char>) -> bool {
    let p = spec_split(s, '.');
    p.len() == 4 && forall|k: int|
        0 <= k < 4 ==> all_digits(#[trigger] p[k]) && digits_val(p[k]) <= 255
}

/// Whether `s` reads as a dotted-quad address.
pub fn is_valid_ipv4(s: &str) -> (r: bool)
    ensures
        r == spec_valid_ipv4(s@),
{
    let sv = str_chars(s);
    let p = split_exact(&sv, '.');
    if p.len() != 4 {
        return false;
    }
    let mut k: usize = 0;
    while k < 4
        invariant
            k <= 4,
            p@.len() == 4,
            views(p@) == spec_split(s@, '.'),
            forall|j: int|
                0 <= j < k ==> all_digits(#[trigger] spec_split(s@, '.')[j]) && digits_val(
                    spec_split(s@, '.')[j],
                ) <= 255,
        decreases 4 - k,
    {
        proof {
            assert(views(p@)[k as int] == p@[k as int]@);
        }
        match parse_u32_chars(&p[k]) {
            Some(n) => {
                if n > 255 {
                    return false;
                }
            },
            None => {
                proof {
                    if all_digits(p@[k as int]@) {
                        crate::strutil::lemma_digits_val_bound(p@[k as int]@);
                    }
                    if all_digits(p@[k as int]@) && digits_val(p@[k as int]@) <= 255 {
                        assert(digits_val(p@[k as int]@) <= 0xffff_ffff);
                    }
                }
                return false;
            },
        }
        k = k + 1;
    }
    true
}

/// The host's connectivity, checked layer by layer. The layers are
/// evaluated in order and a failed one leaves the later ones false.
#[derive(Debug, Clone)]
pub struct ConnectivityStatus {
    pub has_interface: bool,
    pub has_ip_address: bool,
    pub can_reach_gateway: bool,
    pub has_internet: bool,
    pub latency_ms: Option<u32>,
}

impl Default for ConnectivityStatus {
    /// The all-failed snapshot.
    fn default() -> (r: ConnectivityStatus)
        ensures
            !r.has_interface,
            !r.has_ip_address,
            !r.can_reach_gateway,
            !r.has_internet,
            r.latency_ms is None,
    {
        ConnectivityStatus {
            has_interface: false,
            has_ip_address: false,
            can_reach_gateway: false,
            has_internet: false,
            latency_ms: None,
        }
    }
}

impl ConnectivityStatus {
    /// Fully online: an interface with an address that reaches the
    /// internet.
    pub fn is_online(&self) -> (r: bool)
        ensures
            r == (self.has_interface && self.has_ip_address && self.has_internet),
    {
        self.has_interface && self.has_ip_address && self.has_internet
    }

    /// Attached with an address, but no internet behind it.
    pub fn is_partial(&self) -> (r: bool)
        ensures
            r == (self.has_interface && self.has_ip_address && !self.has_internet),
    {
        self.has_interface && self.has_ip_address && !self.has_internet
    }
}

/// Assembles the snapshot from the layered probe outcomes,
/// short-circuiting in the strict order interface, address, gateway,
/// internet: a failed layer leaves every later one false, and latency
/// only counts once the internet layer is reached.
pub fn compose_connectivity(
    has_interface: bool,
    has_ip_address: bool,
    can_reach_gateway: bool,
    has_internet: bool,
    latency_ms: Option<u32>,
) -> (r: ConnectivityStatus)
    ensures
        r.has_interface == has_interface,
        r.has_ip_address == (has_interface && has_ip_address),
        r.can_reach_gateway == (has_interface && has_ip_address && can_reach_gateway),
        r.has_internet == (has_interface && has_ip_address && can_reach_gateway && has_internet),
        r.latency_ms == if has_interface && has_ip_address && can_reach_gateway && has_internet {
            latency_ms
        } else {
            None::<u32>
        },
{
    if !has_interface {
        let mut r = ConnectivityStatus::default();
        r.has_interface = false;
        return r;
    }
    if !has_ip_address {
        let mut r = ConnectivityStatus::default();
        r.has_interface = true;
        return r;
    }
    if !can_reach_gateway {
        let mut r = ConnectivityStatus::default();
        r.has_interface = true;
        r.has_ip_address = true;
        return r;
    }
    ConnectivityStatus {
        has_interface: true,
        has_ip_address: true,
        can_reach_gateway: true,
        has_internet,
        latency_ms: if has_internet {
            latency_ms
        } else {
            None
        },
    }
}


} // verus!
