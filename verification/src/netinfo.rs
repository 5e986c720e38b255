//! Network identity: the observed network record and the stable
//! identifier that joins it with persisted rules.

use vstd::prelude::*;
use crate::strutil::{
    str_chars, chars_string, chars_trim, chars_slice, chars_contains, chars_starts_with,
    chars_find, chars_eq, split_ws, split_exact, lines_of, spec_trim, spec_lines, spec_split, spec_tokens,
    is_space, trim_start_rec, trim_end_rec, starts_with_seq, contains_seq, find_sub, views,
    ends_with_seq, strip_suffix_rep, chars_ends_with, chars_strip_suffix_rep,
};
use crate::config::is_control_char;

verus! {

/// One observed network attachment.
#[derive(Debug, Clone)]
pub struct NetworkInfo {
    pub name: String,
    pub network_type: String,
    pub device: String,
    pub connected: bool,
    pub ssid: Option<String>,
}

/// The identifier a network is joined with rules under: the SSID when
/// one is known, else the connection name, else the device.
pub open spec fn spec_identifier(n: NetworkInfo) -> Seq<char> {
    match n.ssid {
        Some(ssid) => "wifi:"@ + ssid@,
        None => if n.name@.len() > 0 && n.name@ != n.device@ {
            "network:"@ + n.name@
        } else {
            "device:"@ + n.device@
        },
    }
}

impl NetworkInfo {
    /// The stable per-network identifier used as the rule key.
    pub fn identifier(&self) -> (r: String)
        ensures
            r@ == spec_identifier(*self),
    {
        match &self.ssid {
            Some(ssid) => {
                let mut s = String::from_str("wifi:");
                s.append(ssid.as_str());
                s
            },
            None => {
                if self.name.as_str().unicode_len() > 0 && !(self.name == self.device) {
                    let mut s = String::from_str("network:");
                    s.append(self.name.as_str());
                    s
                } else {
                    let mut s = String::from_str("device:");
                    s.append(self.device.as_str());
                    s
                }
            },
        }
    }
}

/// What remains of `s` after dropping ANSI escape sequences, starting
/// in escape state `in_esc`. An escape runs from `ESC` to the next `m`.
pub open spec fn strip_ansi_rec(s: Seq<char>, in_esc: bool) -> Seq<char>
    decreases s.len(),
{
    if s.len() == 0 {
        Seq::<char>::empty()
    } else if s[0] == '\u{1b}' {
        strip_ansi_rec(s.drop_first(), true)
    } else if in_esc {
        if s[0] == 'm' {
            strip_ansi_rec(s.drop_first(), false)
        } else {
            strip_ansi_rec(s.drop_first(), true)
        }
    } else {
        seq![s[0]] + strip_ansi_rec(s.drop_first(), false)
    }
}

/// `s` with terminal escape sequences removed.
pub open spec fn spec_strip_ansi(s: Seq<char>) -> Seq<char> {
    strip_ansi_rec(s, false)
}

/// Removes ANSI escape sequences (as colour-printing tools emit them).
pub fn strip_ansi_chars(v: &Vec<char>) -> (r: Vec<char>)
    ensures
        r@ == spec_strip_ansi(v@),
{
    let mut r: Vec<char> = Vec::new();
    let mut in_escape = false;
    let mut i: usize = 0;
    proof {
        assert(v@.skip(0) =~= v@);
    }
    while i < v.len()
        invariant
            i <= v@.len(),
            spec_strip_ansi(v@) == r@ + strip_ansi_rec(v@.skip(i as int), in_escape),
        decreases v@.len() - i,
    {
        let c = v[i];
        proof {
            assert(v@.skip(i as int).drop_first() =~= v@.skip(i + 1));
            assert(v@.skip(i as int)[0] == v@[i as int]);
        }
        if c == '\u{1b}' {
            in_escape = true;
        } else if in_escape {
            if c == 'm' {
                in_escape = false;
            }
        } else {
            let ghost old_r = r@;
            r.push(c);
            proof {
                assert(old_r + (seq![c] + strip_ansi_rec(v@.skip(i + 1), false)) =~= r@
                    + strip_ansi_rec(v@.skip(i + 1), false));
            }
        }
        i = i + 1;
    }
    proof {
        assert(v@.skip(v@.len() as int) =~= Seq::<char>::empty());
        assert(spec_strip_ansi(v@) =~= r@);
    }
    r
}

/// Exposed form of the ANSI stripper, on strings.
pub fn strip_ansi(s: &str) -> (r: String)
    ensures
        r@ == spec_strip_ansi(s@),
{
    let v = str_chars(s);
    let out = strip_ansi_chars(&v);
    chars_string(&out)
}

/// `s` with the control characters dropped, in order.
pub open spec fn drop_controls(s: Seq<char>) -> Seq<char>
    decreases s.len(),
{
    if s.len() == 0 {
        Seq::<char>::empty()
    } else {
        let rest = drop_controls(s.drop_last());
        if is_control_char(s.last()) {
            rest
        } else {
            rest.push(s.last())
        }
    }
}

/// An SSID as it is compared and stored: escape sequences stripped,
/// then trimmed, then control characters dropped.
pub open spec fn spec_normalize_ssid(s: Seq<char>) -> Seq<char> {
    drop_controls(spec_trim(spec_strip_ansi(s)))
}

pub fn drop_controls_chars(v: &Vec<char>) -> (r: Vec<char>)
    ensures
        r@ == drop_controls(v@),
{
    let mut r: Vec<char> = Vec::new();
    let mut i: usize = 0;
    while i < v.len()
        invariant
            i <= v@.len(),
            r@ == drop_controls(v@.take(i as int)),
        decreases v@.len() - i,
    {
        let c = v[i];
        let cv = c as u32;
        proof {
            assert(v@.take(i + 1).drop_last() =~= v@.take(i as int));
            assert(v@.take(i + 1).last() == v@[i as int]);
        }
        if !(cv < 32 || (127 <= cv && cv <= 159)) {
            r.push(c);
        }
        i = i + 1;
    }
    assert(v@.take(v@.len() as int) =~= v@);
    r
}

/// Normalises an SSID for comparison and storage.
pub fn normalize_ssid(s: &str) -> (r: String)
    ensures
        r@ == spec_normalize_ssid(s@),
{
    let v = str_chars(s);
    let stripped = strip_ansi_chars(&v);
    let trimmed = chars_trim(&stripped);
    let cleaned = drop_controls_chars(&trimmed);
    chars_string(&cleaned)
}

proof fn lemma_strip_ansi_id(s: Seq<char>)
    requires
        forall|k: int| 0 <= k < s.len() ==> s[k] != '\u{1b}',
    ensures
        strip_ansi_rec(s, false) == s,
    decreases s.len(),
{
    if s.len() > 0 {
        lemma_strip_ansi_id(s.drop_first());
        assert(strip_ansi_rec(s, false) =~= s);
    }
}

proof fn lemma_drop_controls_id(s: Seq<char>)
    requires
        forall|k: int| 0 <= k < s.len() ==> !is_control_char(s[k]),
    ensures
        drop_controls(s) == s,
    decreases s.len(),
{
    if s.len() > 0 {
        lemma_drop_controls_id(s.drop_last());
        assert(drop_controls(s) =~= s);
    }
}

/// A normalised SSID: trimmed and free of control characters (escape
/// sequences begin with a control character, so none survive either).
pub open spec fn ssid_normal(s: Seq<char>) -> bool {
    &&& forall|k: int| 0 <= k < s.len() ==> !is_control_char(s[k])
    &&& (s.len() > 0 ==> !is_space(s[0]) && !is_space(s[s.len() - 1]))
}

/// Normalisation leaves a normalised SSID unchanged.
pub proof fn lemma_normalize_fixpoint(s: Seq<char>)
    requires
        ssid_normal(s),
    ensures
        spec_normalize_ssid(s) == s,
{
    assert(forall|k: int| 0 <= k < s.len() ==> s[k] != '\u{1b}');
    lemma_strip_ansi_id(s);
    assert(trim_start_rec(s) == s);
    assert(trim_end_rec(s) == s);
    lemma_drop_controls_id(s);
}

// ---------------------------------------------------------------------
// Parsers for the discovery sources' captured output.
// ---------------------------------------------------------------------

/// What one wireless-daemon status report says: whether the station is
/// connected, and the network it names. A later line overrides an
/// earlier one; finding a named network implies being connected.
pub open spec fn station_fold(lines: Seq<Seq<char>>) -> (bool, Option<Seq<char>>)
    decreases lines.len(),
{
    if lines.len() == 0 {
        (false, None::<Seq<char>>)
    } else {
        let prev = station_fold(lines.drop_last());
        let l = spec_trim(lines.last());
        let c1 = prev.0 || (contains_seq(l, "State"@) && contains_seq(l, "connected"@));
        if contains_seq(l, "Connected network"@) && find_sub(l, "Connected network"@) is Some {
            let idx = find_sub(l, "Connected network"@)->0;
            let ssid = spec_normalize_ssid(l.skip(idx + "Connected network"@.len()));
            if ssid.len() > 0 {
                (true, Some(ssid))
            } else {
                (c1, prev.1)
            }
        } else {
            (c1, prev.1)
        }
    }
}

/// Reads a station report (colour codes are stripped first).
pub fn parse_iwd_station_show(text: &str) -> (r: (bool, Option<String>))
    ensures
        ({
            let f = station_fold(spec_lines(spec_strip_ansi(text@)));
            r.0 == f.0 && (match r.1 {
                Some(s) => f.1 == Some(s@),
                None => f.1 is None,
            })
        }),
{
    let tv = str_chars(text);
    let stripped = strip_ansi_chars(&tv);
    let lines = lines_of(&stripped);
    let ghost sl = spec_lines(spec_strip_ansi(text@));
    let mut connected = false;
    let mut ssid: Option<String> = None;
    proof {
        assert(sl.take(0) =~= Seq::<Seq<char>>::empty());
    }
    let key_state = str_chars("State");
    let key_conn = str_chars("connected");
    let key_net = str_chars("Connected network");
    let mut i: usize = 0;
    while i < lines.len()
        invariant
            i <= lines@.len(),
            views(lines@) == sl,
            key_state@ == "State"@,
            key_conn@ == "connected"@,
            key_net@ == "Connected network"@,
            connected == station_fold(sl.take(i as int)).0,
            match ssid {
                Some(s) => station_fold(sl.take(i as int)).1 == Some(s@),
                None => station_fold(sl.take(i as int)).1 is None,
            },
        decreases lines@.len() - i,
    {
        proof {
            assert(sl.take(i + 1).drop_last() =~= sl.take(i as int));
            assert(sl.take(i + 1).last() == lines@[i as int]@);
        }
        let l = chars_trim(&lines[i]);
        if chars_contains(&l, &key_state) && chars_contains(&l, &key_conn) {
            connected = true;
        }
        if chars_contains(&l, &key_net) {
            match chars_find(&l, &key_net) {
                Some(idx) => {
                    let ll = l.len();
                    proof {
                        assert(idx + key_net@.len() <= ll);
                    }
                    let start = idx + key_net.len();
                    let after = chars_slice(&l, start, l.len());
                    proof {
                        assert(after@ =~= l@.skip(idx + key_net@.len()));
                    }
                    let stripped2 = strip_ansi_chars(&after);
                    let trimmed2 = chars_trim(&stripped2);
                    let cleaned = drop_controls_chars(&trimmed2);
                    if cleaned.len() > 0 {
                        connected = true;
                        ssid = Some(chars_string(&cleaned));
                    }
                },
                None => {},
            }
        }
        i = i + 1;
    }
    proof {
        assert(sl.take(sl.len() as int) =~= sl);
    }
    (connected, ssid)
}

/// The wireless device names a device listing reports: after four
/// header lines, the first word of each line when it starts `wl`.
pub open spec fn devices_fold(lines: Seq<Seq<char>>) -> Seq<Seq<char>>
    decreases lines.len(),
{
    if lines.len() <= 4 {
        Seq::<Seq<char>>::empty()
    } else {
        let rest = devices_fold(lines.drop_last());
        let toks = spec_tokens(lines.last());
        if toks.len() > 0 && starts_with_seq(toks[0], "wl"@) {
            rest.push(toks[0])
        } else {
            rest
        }
    }
}

/// Reads the wireless device listing.
pub fn parse_iwd_devices(text: &str) -> (r: Vec<String>)
    ensures
        views_of_strings(r@) == devices_fold(spec_lines(text@)),
{
    let tv = str_chars(text);
    let lines = lines_of(&tv);
    let ghost sl = spec_lines(text@);
    let mut out: Vec<String> = Vec::new();
    let prefix = str_chars("wl");
    let mut i: usize = 4;
    if lines.len() <= 4 {
        proof {
            lemma_devices_short(sl);
            assert(views_of_strings(out@) =~= devices_fold(sl));
        }
        return out;
    }
    proof {
        lemma_devices_short(sl.take(4));
        assert(views_of_strings(out@) =~= devices_fold(sl.take(4)));
    }
    while i < lines.len()
        invariant
            4 <= i <= lines@.len(),
            views(lines@) == sl,
            prefix@ == "wl"@,
            views_of_strings(out@) == devices_fold(sl.take(i as int)),
        decreases lines@.len() - i,
    {
        proof {
            assert(sl.take(i + 1).drop_last() =~= sl.take(i as int));
            assert(sl.take(i + 1).last() == lines@[i as int]@);
        }
        let toks = split_ws(&lines[i]);
        if toks.len() > 0 {
            proof {
                assert(views(toks@)[0] == toks@[0]@);
            }
            if chars_starts_with(&toks[0], &prefix) {
                let ghost before = out@;
                out.push(chars_string(&toks[0]));
                proof {
                    assert(views_of_strings(out@) =~= views_of_strings(before).push(toks@[0]@));
                }
            }
        }
        i = i + 1;
    }
    proof {
        assert(sl.take(sl.len() as int) =~= sl);
    }
    out
}

/// The views of a vector of strings.
pub open spec fn views_of_strings(r: Seq<String>) -> Seq<Seq<char>> {
    r.map_values(|s: String| s@)
}

proof fn lemma_devices_short(lines: Seq<Seq<char>>)
    requires
        lines.len() <= 4,
    ensures
        devices_fold(lines) =~= Seq::<Seq<char>>::empty(),
{
}

/// One link line read as an ethernet attachment: the second `:`-field
/// up to any `@`, kept when it begins `en` or `eth`; it is connected
/// when the line reports state UP.
pub open spec fn eth_of_line(l: Seq<char>) -> Option<(Seq<char>, bool)> {
    let p = spec_split(l, ':');
    if p.len() >= 2 {
        let dev = spec_split(spec_trim(p[1]), '@')[0];
        if starts_with_seq(dev, "en"@) || starts_with_seq(dev, "eth"@) {
            Some((dev, contains_seq(l, "state UP"@)))
        } else {
            None
        }
    } else {
        None
    }
}

pub open spec fn eth_fold(lines: Seq<Seq<char>>) -> Seq<(Seq<char>, bool)>
    decreases lines.len(),
{
    if lines.len() == 0 {
        Seq::<(Seq<char>, bool)>::empty()
    } else {
        let rest = eth_fold(lines.drop_last());
        match eth_of_line(lines.last()) {
            Some(e) => rest.push(e),
            None => rest,
        }
    }
}

/// Reads the ethernet attachments out of a link listing.
pub fn parse_ethernet_links(text: &str) -> (r: Vec<NetworkInfo>)
    ensures
        r@.len() == eth_fold(spec_lines(text@)).len(),
        forall|k: int| 0 <= k < r@.len() ==> {
            let e = eth_fold(spec_lines(text@))[k];
            &&& (#[trigger] r@[k]).name@ == e.0
            &&& r@[k].device@ == e.0
            &&& r@[k].network_type@ == "ethernet"@
            &&& r@[k].connected == e.1
            &&& r@[k].ssid is None
        },
{
    let tv = str_chars(text);
    let lines = lines_of(&tv);
    let ghost sl = spec_lines(text@);
    let mut out: Vec<NetworkInfo> = Vec::new();
    proof {
        assert(sl.take(0) =~= Seq::<Seq<char>>::empty());
    }
    let pen = str_chars("en");
    let peth = str_chars("eth");
    let pup = str_chars("state UP");
    let mut i: usize = 0;
    while i < lines.len()
        invariant
            i <= lines@.len(),
            views(lines@) == sl,
            pen@ == "en"@,
            peth@ == "eth"@,
            pup@ == "state UP"@,
            out@.len() == eth_fold(sl.take(i as int)).len(),
            forall|k: int| 0 <= k < out@.len() ==> {
                let e = eth_fold(sl.take(i as int))[k];
                &&& (#[trigger] out@[k]).name@ == e.0
                &&& out@[k].device@ == e.0
                &&& out@[k].network_type@ == "ethernet"@
                &&& out@[k].connected == e.1
                &&& out@[k].ssid is None
            },
        decreases lines@.len() - i,
    {
        proof {
            assert(sl.take(i + 1).drop_last() =~= sl.take(i as int));
            assert(sl.take(i + 1).last() == lines@[i as int]@);
        }
        let p = split_exact(&lines[i], ':');
        if p.len() >= 2 {
            proof {
                assert(views(p@)[1] == p@[1]@);
            }
            let t = chars_trim(&p[1]);
            let q = split_exact(&t, '@');
            proof {
                assert(views(q@)[0] == q@[0]@);
            }
            let dev = &q[0];
            if chars_starts_with(dev, &pen) || chars_starts_with(dev, &peth) {
                let up = chars_contains(&lines[i], &pup);
                let name = chars_string(dev);
                let devs = chars_string(dev);
                out.push(
                    NetworkInfo {
                        name,
                        network_type: String::from_str("ethernet"),
                        device: devs,
                        connected: up,
                        ssid: None,
                    },
                );
                proof {
                    assert(eth_fold(sl.take(i + 1)) =~= eth_fold(sl.take(i as int)).push(
                        (q@[0]@, contains_seq(lines@[i as int]@, "state UP"@)),
                    ));
                }
            }
        }
        i = i + 1;
    }
    proof {
        assert(sl.take(sl.len() as int) =~= sl);
    }
    out
}

/// The SSID a wireless link report names: the rest of the first
/// trimmed line that starts `SSID:`, trimmed.
pub open spec fn iw_ssid_fold(lines: Seq<Seq<char>>) -> Option<Seq<char>>
    decreases lines.len(),
{
    if lines.len() == 0 {
        None
    } else {
        let l = spec_trim(lines[0]);
        if starts_with_seq(l, "SSID:"@) {
            Some(spec_trim(l.skip("SSID:"@.len() as int)))
        } else {
            iw_ssid_fold(lines.drop_first())
        }
    }
}

/// Reads the SSID out of a wireless link report.
pub fn parse_iw_link_ssid(text: &str) -> (r: Option<String>)
    ensures
        match r {
            Some(s) => iw_ssid_fold(spec_lines(text@)) == Some(s@),
            None => iw_ssid_fold(spec_lines(text@)) is None,
        },
{
    let tv = str_chars(text);
    let lines = lines_of(&tv);
    let ghost sl = spec_lines(text@);
    proof {
        assert(sl.skip(0) =~= sl);
    }
    let prefix = str_chars("SSID:");
    let mut i: usize = 0;
    while i < lines.len()
        invariant
            i <= lines@.len(),
            views(lines@) == sl,
            sl == spec_lines(text@),
            prefix@ == "SSID:"@,
            iw_ssid_fold(sl) == iw_ssid_fold(sl.skip(i as int)),
        decreases lines@.len() - i,
    {
        proof {
            assert(sl.skip(i as int)[0] == lines@[i as int]@);
            assert(sl.skip(i as int).drop_first() =~= sl.skip(i + 1));
        }
        let l = chars_trim(&lines[i]);
        if chars_starts_with(&l, &prefix) {
            let rest = chars_slice(&l, prefix.len(), l.len());
            proof {
                assert(rest@ =~= l@.skip(prefix@.len() as int));
            }
            let t = chars_trim(&rest);
            proof {
                assert(iw_ssid_fold(sl.skip(i as int)) == Some(t@));
            }
            return Some(chars_string(&t));
        }
        i = i + 1;
    }
    proof {
        assert(sl.skip(sl.len() as int) =~= Seq::<Seq<char>>::empty());
    }
    None
}

/// One terse connection-manager line (`NAME:TYPE:DEVICE:STATE`) read
/// as a network record; loopbacks and unknown kinds are dropped.
pub open spec fn nm_of_line(l: Seq<char>) -> Option<(Seq<char>, bool, Seq<char>, bool)> {
    let p = spec_split(l, ':');
    if p.len() < 4 {
        None
    } else {
        let kind = p[1];
        let wifi = kind == "wifi"@ || kind == "802-11-wireless"@;
        let eth = kind == "ethernet"@ || kind == "802-3-ethernet"@;
        if kind == "loopback"@ || (!wifi && !eth) {
            None
        } else {
            Some(
                (
                    p[0],
                    wifi,
                    if p[2].len() == 0 {
                        "-"@
                    } else {
                        p[2]
                    },
                    p[3] == "activated"@,
                ),
            )
        }
    }
}

/// Reads one terse connection-manager line. A wifi entry carries its
/// name as its SSID; an ethernet entry carries none.
pub fn parse_nm_line(line: &Vec<char>) -> (r: Option<NetworkInfo>)
    ensures
        match r {
            Some(n) => nm_of_line(line@) matches Some(e) && n.name@ == e.0 && n.device@ == e.2
                && n.connected == e.3 && n.network_type@ == (if e.1 {
                "wifi"@
            } else {
                "ethernet"@
            }) && opt_view2(n.ssid) == (if e.1 {
                Some(e.0)
            } else {
                None::<Seq<char>>
            }),
            None => nm_of_line(line@) is None,
        },
{
    let p = split_exact(line, ':');
    if p.len() < 4 {
        return None;
    }
    proof {
        assert(views(p@)[0] == p@[0]@);
        assert(views(p@)[1] == p@[1]@);
        assert(views(p@)[2] == p@[2]@);
        assert(views(p@)[3] == p@[3]@);
    }
    let kind = &p[1];
    if chars_eq(kind, &str_chars("loopback")) {
        return None;
    }
    let wifi = chars_eq(kind, &str_chars("wifi")) || chars_eq(kind, &str_chars("802-11-wireless"));
    let eth = chars_eq(kind, &str_chars("ethernet")) || chars_eq(
        kind,
        &str_chars("802-3-ethernet"),
    );
    if !wifi && !eth {
        return None;
    }
    let name = chars_string(&p[0]);
    let device = if p[2].len() == 0 {
        String::from_str("-")
    } else {
        chars_string(&p[2])
    };
    let connected = chars_eq(&p[3], &str_chars("activated"));
    let ssid = if wifi {
        Some(chars_string(&p[0]))
    } else {
        None
    };
    Some(
        NetworkInfo {
            name,
            network_type: if wifi {
                String::from_str("wifi")
            } else {
                String::from_str("ethernet")
            },
            device,
            connected,
            ssid,
        },
    )
}

/// The view of an optional string (a local copy for this module).
pub open spec fn opt_view2(o: Option<String>) -> Option<Seq<char>> {
    match o {
        Some(s) => Some(s@),
        None => None,
    }
}

/// Where the name and security columns of the saved-networks table
/// begin, taken from a header line; the conventional positions when
/// the header gives none.
pub fn known_network_cols(header: &Vec<char>) -> (r: (usize, usize))
    ensures
        ({
            let nc = match find_sub(header@, "Name"@) {
                Some(i) => i,
                None => 2,
            };
            let sc = match find_sub(header@, "Security"@) {
                Some(i) => i,
                None => 34,
            };
            r.0 == nc && r.1 == sc
        }),
{
    let nc = match chars_find(header, &str_chars("Name")) {
        Some(i) => i,
        None => 2,
    };
    let sc = match chars_find(header, &str_chars("Security")) {
        Some(i) => i,
        None => 34,
    };
    (nc, sc)
}

/// The saved network one table line names, between the two columns;
/// separators, the header word and empty results read as nothing, and
/// a name that swallowed the security word is repaired.
pub open spec fn known_of_line(l: Seq<char>, nc: int, sc: int) -> Option<Seq<char>> {
    if l.len() == 0 || (spec_trim(l).len() > 0 && spec_trim(l)[0] == '-') || contains_seq(
        l,
        "---"@,
    ) {
        None
    } else if l.len() <= nc {
        None
    } else {
        let cut = if sc < l.len() {
            sc
        } else {
            l.len() as int
        };
        let raw = if nc < cut {
            l.subrange(nc, cut)
        } else {
            l
        };
        let ssid = spec_normalize_ssid(spec_trim(raw));
        if ssid.len() == 0 || ssid == "Name"@ {
            None
        } else if ends_with_seq(ssid, "psk"@) || ends_with_seq(ssid, "open"@) || ends_with_seq(
            ssid,
            "8021x"@,
        ) {
            let clean = spec_trim(
                strip_suffix_rep(
                    strip_suffix_rep(strip_suffix_rep(ssid, "psk"@), "open"@),
                    "8021x"@,
                ),
            );
            if clean.len() > 0 {
                Some(clean)
            } else {
                None
            }
        } else {
            Some(ssid)
        }
    }
}

/// Reads one saved-network table line.
pub fn parse_known_network_line(line: &Vec<char>, nc: usize, sc: usize) -> (r: Option<String>)
    ensures
        match r {
            Some(s) => known_of_line(line@, nc as int, sc as int) == Some(s@),
            None => known_of_line(line@, nc as int, sc as int) is None,
        },
{
    let lt = chars_trim(line);
    if line.len() == 0 || (lt.len() > 0 && lt[0] == '-') || chars_contains(
        line,
        &str_chars("---"),
    ) {
        return None;
    }
    if line.len() <= nc {
        return None;
    }
    let cut = if sc < line.len() {
        sc
    } else {
        line.len()
    };
    let raw = if nc < cut {
        chars_slice(line, nc, cut)
    } else {
        chars_slice(line, 0, line.len())
    };
    proof {
        if nc < cut {
        } else {
            assert(raw@ =~= line@);
        }
    }
    let trimmed = chars_trim(&raw);
    let stripped = strip_ansi_chars(&trimmed);
    let trimmed2 = chars_trim(&stripped);
    let ssid = drop_controls_chars(&trimmed2);
    if ssid.len() == 0 || chars_eq(&ssid, &str_chars("Name")) {
        return None;
    }
    let epsk = chars_ends_with(&ssid, &str_chars("psk"));
    let eopen = chars_ends_with(&ssid, &str_chars("open"));
    let e8021 = chars_ends_with(&ssid, &str_chars("8021x"));
    if epsk || eopen || e8021 {
        let c1 = chars_strip_suffix_rep(&ssid, &str_chars("psk"));
        let c2 = chars_strip_suffix_rep(&c1, &str_chars("open"));
        let c3 = chars_strip_suffix_rep(&c2, &str_chars("8021x"));
        let clean = chars_trim(&c3);
        if clean.len() > 0 {
            return Some(chars_string(&clean));
        }
        return None;
    }
    Some(chars_string(&ssid))
}

/// Whether a network with this SSID is already in the list.
pub fn has_ssid(networks: &Vec<NetworkInfo>, ssid: &Vec<char>) -> (r: bool)
    ensures
        r == exists|k: int|
            0 <= k < networks@.len() && opt_view2((#[trigger] networks@[k]).ssid) == Some(ssid@),
{
    let mut k: usize = 0;
    while k < networks.len()
        invariant
            k <= networks@.len(),
            forall|j: int| 0 <= j < k ==> opt_view2((#[trigger] networks@[j]).ssid) != Some(
                ssid@,
            ),
        decreases networks@.len() - k,
    {
        match &networks[k].ssid {
            Some(s) => {
                let sv = str_chars(s.as_str());
                if chars_eq(&sv, ssid) {
                    proof {
                        assert(opt_view2(networks@[k as int].ssid) == Some(ssid@));
                    }
                    return true;
                }
            },
            None => {},
        }
        k = k + 1;
    }
    false
}

/// The order the network list is shown in: connected attachments
/// first, then case-insensitively by name.
pub open spec fn net_le(a: NetworkInfo, b: NetworkInfo) -> bool {
    if a.connected != b.connected {
        a.connected
    } else {
        crate::strutil::lex_le(
            crate::strutil::lower_seq(a.name@),
            crate::strutil::lower_seq(b.name@),
        )
    }
}

proof fn lemma_net_le_total(a: NetworkInfo, b: NetworkInfo)
    ensures
        net_le(a, b) || net_le(b, a),
{
    if a.connected == b.connected {
        crate::strutil::lemma_lex_le_total(
            crate::strutil::lower_seq(a.name@),
            crate::strutil::lower_seq(b.name@),
        );
    }
}

fn net_insert_pos(out: &Vec<NetworkInfo>, x: &NetworkInfo) -> (pos: usize)
    ensures
        pos <= out@.len(),
        forall|a: int| 0 <= a < pos ==> !net_le(*x, #[trigger] out@[a]),
        pos < out@.len() ==> net_le(*x, out@[pos as int]),
{
    let mut pos: usize = 0;
    while pos < out.len()
        invariant
            pos <= out@.len(),
            forall|a: int| 0 <= a < pos ==> !net_le(*x, #[trigger] out@[a]),
        decreases out@.len() - pos,
    {
        if net_le_exec(x, &out[pos]) {
            return pos;
        }
        pos = pos + 1;
    }
    pos
}

fn net_le_exec(a: &NetworkInfo, b: &NetworkInfo) -> (r: bool)
    ensures
        r == net_le(*a, *b),
{
    if a.connected != b.connected {
        a.connected
    } else {
        let la = crate::strutil::chars_lower(&str_chars(a.name.as_str()));
        let lb = crate::strutil::chars_lower(&str_chars(b.name.as_str()));
        crate::strutil::chars_lex_le(&la, &lb)
    }
}

/// Sorts the network list: connected first, then by name.
pub fn sort_networks(v: Vec<NetworkInfo>) -> (r: Vec<NetworkInfo>)
    ensures
        r@.to_multiset() == v@.to_multiset(),
        forall|i: int| 0 <= i && i + 1 < r@.len() ==> net_le(#[trigger] r@[i], r@[i + 1]),
{
    broadcast use vstd::seq_lib::to_multiset_build;
    broadcast use vstd::seq_lib::to_multiset_insert;
    broadcast use vstd::seq_lib::to_multiset_len;

    let mut out: Vec<NetworkInfo> = Vec::new();
    let mut i: usize = 0;
    proof {
        assert(v@.take(0) =~= Seq::<NetworkInfo>::empty());
    }
    while i < v.len()
        invariant
            i <= v@.len(),
            out@.to_multiset() == v@.take(i as int).to_multiset(),
            forall|a: int| 0 <= a && a + 1 < out@.len() ==> net_le(
                #[trigger] out@[a],
                out@[a + 1],
            ),
        decreases v@.len() - i,
    {
        let x = clone_network(&v[i]);
        let pos = net_insert_pos(&out, &x);
        let ghost old_out = out@;
        out.insert(pos, x);
        proof {
            assert(out@ == old_out.insert(pos as int, v@[i as int]));
            vstd::seq_lib::to_multiset_insert(old_out, pos as int, v@[i as int]);
            assert(out@.to_multiset() =~= old_out.to_multiset().insert(v@[i as int]));
            vstd::seq_lib::to_multiset_build(v@.take(i as int), v@[i as int]);
            assert(v@.take(i + 1) =~= v@.take(i as int).push(v@[i as int]));
            assert(out@.to_multiset() =~= v@.take(i + 1).to_multiset());
            assert forall|a: int| 0 <= a && a + 1 < out@.len() implies net_le(
                #[trigger] out@[a],
                out@[a + 1],
            ) by {
                if a + 1 < pos {
                    assert(out@[a] == old_out[a]);
                    assert(out@[a + 1] == old_out[a + 1]);
                } else if a + 1 == pos {
                    assert(out@[a] == old_out[a]);
                    assert(out@[a + 1] == v@[i as int]);
                    lemma_net_le_total(v@[i as int], old_out[a]);
                } else if a == pos {
                    assert(out@[a] == v@[i as int]);
                    assert(out@[a + 1] == old_out[a]);
                    assert(net_le(v@[i as int], old_out[pos as int]));
                } else {
                    assert(out@[a] == old_out[a - 1]);
                    assert(out@[a + 1] == old_out[a]);
                }
            }
        }
        i = i + 1;
    }
    proof {
        assert(v@.take(v@.len() as int) =~= v@);
    }
    out
}

pub fn clone_network(n: &NetworkInfo) -> (c: NetworkInfo)
    ensures
        c == *n,
{
    NetworkInfo {
        name: n.name.clone(),
        network_type: n.network_type.clone(),
        device: n.device.clone(),
        connected: n.connected,
        ssid: crate::config::clone_opt_string(&n.ssid),
    }
}

/// The identifier of a network with a known SSID carries the `wifi:`
/// prefix, and the SSID is recovered from it byte for byte; on a
/// normalised SSID the recovered name re-normalises to itself.
pub proof fn lemma_identifier_round_trip(n: NetworkInfo, ssid: String)
    requires
        n.ssid == Some(ssid),
        ssid@.len() > 0,
    ensures
        starts_with_seq(spec_identifier(n), "wifi:"@),
        spec_identifier(n).skip("wifi:"@.len() as int) == ssid@,
        ssid_normal(ssid@) ==> spec_normalize_ssid(spec_identifier(n).skip("wifi:"@.len() as int))
            == ssid@,
{
    let idv = spec_identifier(n);
    assert(idv == "wifi:"@ + ssid@);
    assert(idv.take("wifi:"@.len() as int) =~= "wifi:"@);
    assert(idv.skip("wifi:"@.len() as int) =~= ssid@);
    if ssid_normal(ssid@) {
        lemma_normalize_fixpoint(ssid@);
    }
}

} // verus!
