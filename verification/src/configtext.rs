//! The policy store's text form: a sectioned key/value file, written
//! and read here so that a saved configuration provably reads back.

use vstd::prelude::*;
use crate::config::{
    AppConfig, NetworkRule, TunnelInfo, spec_sanitize_rules, rule_id_ok, is_control_char,
};
use crate::strutil::{
    str_chars, chars_string, chars_trim, chars_slice, chars_eq, split_exact, lines_of, seg_len,
    spec_trim, spec_lines, spec_split, join_with, sep_free, views, is_space,
};
use crate::wgstatus::opt_view;

verus! {

/// A rule, as the text form carries it.
pub type RuleM = (Seq<char>, Option<Seq<char>>, bool, bool, bool);

/// A known tunnel, as the text form carries it.
pub type TunM = (Seq<char>, Seq<char>, bool);

/// A whole configuration: rules, default profile, last connected,
/// auto-reconnect, kill switch, notifications, known tunnels.
pub type CfgM = (Seq<RuleM>, Option<Seq<char>>, Option<Seq<char>>, bool, bool, bool, Seq<TunM>);

pub open spec fn rule_m(r: NetworkRule) -> RuleM {
    (r.identifier@, opt_view(r.tunnel_name), r.always_vpn, r.never_vpn, r.session_vpn)
}

pub open spec fn tun_m(t: TunnelInfo) -> TunM {
    (t.name@, t.protocol@, t.kill_switch)
}

/// The abstract content of a configuration value.
pub open spec fn cfg_m(c: AppConfig) -> CfgM {
    (
        c.network_rules@.map_values(|r: NetworkRule| rule_m(r)),
        opt_view(c.default_profile),
        opt_view(c.last_connected),
        c.auto_reconnect,
        c.kill_switch,
        c.notifications,
        c.known_tunnels@.map_values(|t: TunnelInfo| tun_m(t)),
    )
}

// ---------------------------------------------------------------------
// Writing.
// ---------------------------------------------------------------------

pub open spec fn quoted(v: Seq<char>) -> Seq<char> {
    "\""@ + v + "\""@
}

pub open spec fn kv_line(k: Seq<char>, v: Seq<char>) -> Seq<char> {
    k + " = "@ + v
}

pub open spec fn bool_text(b: bool) -> Seq<char> {
    if b {
        "true"@
    } else {
        "false"@
    }
}

pub open spec fn opt_line(k: Seq<char>, o: Option<Seq<char>>) -> Seq<Seq<char>> {
    match o {
        Some(v) => seq![kv_line(k, quoted(v))],
        None => Seq::<Seq<char>>::empty(),
    }
}

/// The lines of one rule block.
pub open spec fn rule_lines(r: RuleM) -> Seq<Seq<char>> {
    seq![Seq::<char>::empty(), "[[network_rules]]"@, kv_line("identifier"@, quoted(r.0))]
        + opt_line("tunnel_name"@, r.1) + seq![
        kv_line("always_vpn"@, bool_text(r.2)),
        kv_line("never_vpn"@, bool_text(r.3)),
        kv_line("session_vpn"@, bool_text(r.4)),
    ]
}

/// The lines of one known-tunnel block.
pub open spec fn tun_lines(t: TunM) -> Seq<Seq<char>> {
    seq![
        Seq::<char>::empty(),
        "[[known_tunnels]]"@,
        kv_line("name"@, quoted(t.0)),
        kv_line("protocol"@, quoted(t.1)),
        kv_line("kill_switch"@, bool_text(t.2)),
    ]
}

pub open spec fn rule_blocks(rs: Seq<RuleM>) -> Seq<Seq<char>>
    decreases rs.len(),
{
    if rs.len() == 0 {
        Seq::<Seq<char>>::empty()
    } else {
        rule_blocks(rs.drop_last()) + rule_lines(rs.last())
    }
}

pub open spec fn tun_blocks(ts: Seq<TunM>) -> Seq<Seq<char>>
    decreases ts.len(),
{
    if ts.len() == 0 {
        Seq::<Seq<char>>::empty()
    } else {
        tun_blocks(ts.drop_last()) + tun_lines(ts.last())
    }
}

/// The head of the file: the scalar settings.
pub open spec fn top_lines(m: CfgM) -> Seq<Seq<char>> {
    opt_line("default_profile"@, m.1) + opt_line("last_connected"@, m.2) + seq![
        kv_line("auto_reconnect"@, bool_text(m.3)),
        kv_line("kill_switch"@, bool_text(m.4)),
        kv_line("notifications"@, bool_text(m.5)),
    ]
}

/// Every line of the written file, in order.
pub open spec fn encode_lines(m: CfgM) -> Seq<Seq<char>> {
    top_lines(m) + rule_blocks(m.0) + tun_blocks(m.6)
}

/// The written file.
pub open spec fn spec_encode(m: CfgM) -> Seq<char> {
    join_with(encode_lines(m), '\n')
}

// ---------------------------------------------------------------------
// Reading.
// ---------------------------------------------------------------------

/// Which block the reader stands in.
#[derive(Debug, Clone, Copy, PartialEq, Eq, Structural)]
pub enum CfgSection {
    Top,
    Rules,
    Tunnels,
}

/// The key and value of a `key = value` line, both trimmed; `None`
/// when the line carries no `=`.
pub open spec fn kv_of(l: Seq<char>) -> Option<(Seq<char>, Seq<char>)> {
    let n = seg_len(l, '=') as int;
    if n >= l.len() {
        None
    } else {
        Some((spec_trim(l.take(n)), spec_trim(l.skip(n + 1))))
    }
}

/// The text inside a quoted value, `None` when it is not quoted.
pub open spec fn unquote(v: Seq<char>) -> Option<Seq<char>> {
    if v.len() >= 2 && v[0] == '"' && v[v.len() - 1] == '"' {
        Some(v.subrange(1, v.len() - 1))
    } else {
        None
    }
}

pub open spec fn empty_rule_m() -> RuleM {
    (Seq::<char>::empty(), None, false, false, false)
}

pub open spec fn empty_tun_m() -> TunM {
    (Seq::<char>::empty(), Seq::<char>::empty(), false)
}

pub open spec fn init_cfg_m() -> CfgM {
    (Seq::<RuleM>::empty(), None, None, false, false, false, Seq::<TunM>::empty())
}

/// Reads one line into the configuration being built. Blank lines
/// pass, section headers open a fresh entry, known keys fill the
/// current entry, anything else is ignored.
pub open spec fn parse_line_m(st: (CfgM, CfgSection), l0: Seq<char>) -> (CfgM, CfgSection) {
    let l = spec_trim(l0);
    let m = st.0;
    if l.len() == 0 {
        st
    } else if l == "[[network_rules]]"@ {
        ((m.0.push(empty_rule_m()), m.1, m.2, m.3, m.4, m.5, m.6), CfgSection::Rules)
    } else if l == "[[known_tunnels]]"@ {
        ((m.0, m.1, m.2, m.3, m.4, m.5, m.6.push(empty_tun_m())), CfgSection::Tunnels)
    } else {
        match kv_of(l) {
            None => st,
            Some(kv) => parse_kv_m(st, kv.0, kv.1),
        }
    }
}

/// Applies one `key = value` pair to the entry the section points at.
pub open spec fn parse_kv_m(st: (CfgM, CfgSection), k: Seq<char>, v: Seq<char>) -> (
    CfgM,
    CfgSection,
) {
    let m = st.0;
    match st.1 {
        CfgSection::Top => {
            if k == "default_profile"@ {
                match unquote(v) {
                    Some(x) => ((m.0, Some(x), m.2, m.3, m.4, m.5, m.6), st.1),
                    None => st,
                }
            } else if k == "last_connected"@ {
                match unquote(v) {
                    Some(x) => ((m.0, m.1, Some(x), m.3, m.4, m.5, m.6), st.1),
                    None => st,
                }
            } else if k == "auto_reconnect"@ {
                ((m.0, m.1, m.2, v == "true"@, m.4, m.5, m.6), st.1)
            } else if k == "kill_switch"@ {
                ((m.0, m.1, m.2, m.3, v == "true"@, m.5, m.6), st.1)
            } else if k == "notifications"@ {
                ((m.0, m.1, m.2, m.3, m.4, v == "true"@, m.6), st.1)
            } else {
                st
            }
        },
        CfgSection::Rules => {
            if m.0.len() == 0 {
                st
            } else {
                let i = m.0.len() - 1;
                let r = m.0.last();
                if k == "identifier"@ {
                    match unquote(v) {
                        Some(x) => (
                            (m.0.update(i, (x, r.1, r.2, r.3, r.4)), m.1, m.2, m.3, m.4, m.5, m.6),
                            st.1,
                        ),
                        None => st,
                    }
                } else if k == "tunnel_name"@ {
                    match unquote(v) {
                        Some(x) => (
                            (
                                m.0.update(i, (r.0, Some(x), r.2, r.3, r.4)),
                                m.1,
                                m.2,
                                m.3,
                                m.4,
                                m.5,
                                m.6,
                            ),
                            st.1,
                        ),
                        None => st,
                    }
                } else if k == "always_vpn"@ {
                    (
                        (m.0.update(i, (r.0, r.1, v == "true"@, r.3, r.4)), m.1, m.2, m.3, m.4, m.5, m.6),
                        st.1,
                    )
                } else if k == "never_vpn"@ {
                    (
                        (m.0.update(i, (r.0, r.1, r.2, v == "true"@, r.4)), m.1, m.2, m.3, m.4, m.5, m.6),
                        st.1,
                    )
                } else if k == "session_vpn"@ {
                    (
                        (m.0.update(i, (r.0, r.1, r.2, r.3, v == "true"@)), m.1, m.2, m.3, m.4, m.5, m.6),
                        st.1,
                    )
                } else {
                    st
                }
            }
        },
        CfgSection::Tunnels => {
            if m.6.len() == 0 {
                st
            } else {
                let i = m.6.len() - 1;
                let t = m.6.last();
                if k == "name"@ {
                    match unquote(v) {
                        Some(x) => (
                            (m.0, m.1, m.2, m.3, m.4, m.5, m.6.update(i, (x, t.1, t.2))),
                            st.1,
                        ),
                        None => st,
                    }
                } else if k == "protocol"@ {
                    match unquote(v) {
                        Some(x) => (
                            (m.0, m.1, m.2, m.3, m.4, m.5, m.6.update(i, (t.0, x, t.2))),
                            st.1,
                        ),
                        None => st,
                    }
                } else if k == "kill_switch"@ {
                    ((m.0, m.1, m.2, m.3, m.4, m.5, m.6.update(i, (t.0, t.1, v == "true"@))), st.1)
                } else {
                    st
                }
            }
        },
    }
}

/// Folds the reader over the lines, front to back.
pub open spec fn parse_lines_m(st: (CfgM, CfgSection), ls: Seq<Seq<char>>) -> (CfgM, CfgSection)
    decreases ls.len(),
{
    if ls.len() == 0 {
        st
    } else {
        parse_lines_m(parse_line_m(st, ls[0]), ls.drop_first())
    }
}

/// A line the reader understands: blank, a section header, or a
/// `key = value` pair whose value is quoted text or a boolean word.
/// (The format writes nothing else, so anything else means the file
/// is not this store's.)
pub open spec fn line_acceptable(l0: Seq<char>) -> bool {
    let l = spec_trim(l0);
    ||| l.len() == 0
    ||| l == "[[network_rules]]"@
    ||| l == "[[known_tunnels]]"@
    ||| (kv_of(l) matches Some(kv) && (unquote(kv.1) is Some || kv.1 == "true"@ || kv.1
        == "false"@))
}

/// The whole file is made of understood lines.
pub open spec fn spec_readable(s: Seq<char>) -> bool {
    forall|k: int| 0 <= k < spec_lines(s).len() ==> line_acceptable(#[trigger] spec_lines(s)[k])
}

/// The configuration a file reads as: the fold over its lines when
/// every line is understood, and the empty defaults otherwise (a
/// parse failure falls back rather than salvaging fragments).
pub open spec fn spec_parse(s: Seq<char>) -> CfgM {
    if spec_readable(s) {
        parse_lines_m((init_cfg_m(), CfgSection::Top), spec_lines(s)).0
    } else {
        init_cfg_m()
    }
}

// ---------------------------------------------------------------------
// The executable writer.
// ---------------------------------------------------------------------

/// The rules at model level, as a save leaves them.
pub open spec fn sanitize_rules_m(rs: Seq<RuleM>) -> Seq<RuleM>
    decreases rs.len(),
{
    if rs.len() == 0 {
        Seq::<RuleM>::empty()
    } else {
        let rest = sanitize_rules_m(rs.drop_last());
        let r = rs.last();
        if rule_id_ok(r.0) {
            rest.push(
                (
                    r.0,
                    match r.1 {
                        Some(t) => if t.len() == 0 {
                            None
                        } else {
                            Some(t)
                        },
                        None => None,
                    },
                    r.2,
                    r.3,
                    r.4,
                ),
            )
        } else {
            rest
        }
    }
}

/// A whole configuration as a save leaves it.
pub open spec fn sanitize_m(m: CfgM) -> CfgM {
    (sanitize_rules_m(m.0), m.1, m.2, m.3, m.4, m.5, m.6)
}

/// Sanitising the rules and taking the model commute.
proof fn lemma_sanitize_commutes(rs: Seq<NetworkRule>)
    ensures
        spec_sanitize_rules(rs).map_values(|r: NetworkRule| rule_m(r)) == sanitize_rules_m(
            rs.map_values(|r: NetworkRule| rule_m(r)),
        ),
    decreases rs.len(),
{
    let f = |r: NetworkRule| rule_m(r);
    if rs.len() == 0 {
        assert(spec_sanitize_rules(rs).map_values(f) =~= sanitize_rules_m(rs.map_values(f)));
    } else {
        lemma_sanitize_commutes(rs.drop_last());
        assert(rs.map_values(f).drop_last() =~= rs.drop_last().map_values(f));
        assert(rs.map_values(f).last() == rule_m(rs.last()));
        if rule_id_ok(rs.last().identifier@) {
            assert(spec_sanitize_rules(rs).map_values(f) =~= sanitize_rules_m(rs.map_values(f)));
        } else {
            assert(spec_sanitize_rules(rs).map_values(f) =~= sanitize_rules_m(rs.map_values(f)));
        }
    }
}

fn append_copy(out: &mut Vec<char>, add: &Vec<char>)
    ensures
        final(out)@ == old(out)@ + add@,
{
    let mut i: usize = 0;
    while i < add.len()
        invariant
            i <= add@.len(),
            out@ == old(out)@ + add@.take(i as int),
        decreases add@.len() - i,
    {
        out.push(add[i]);
        proof {
            assert(old(out)@ + add@.take(i + 1) =~= (old(out)@ + add@.take(i as int)).push(
                add@[i as int],
            ));
        }
        i = i + 1;
    }
    proof {
        assert(add@.take(add@.len() as int) =~= add@);
        assert(out@ =~= old(out)@ + add@);
    }
}

fn quoted_exec(v: &Vec<char>) -> (r: Vec<char>)
    ensures
        r@ == quoted(v@),
{
    let mut r = str_chars("\"");
    append_copy(&mut r, v);
    append_copy(&mut r, &str_chars("\""));
    proof {
        assert(r@ =~= quoted(v@));
    }
    r
}

fn kv_line_exec(k: &str, v: &Vec<char>) -> (r: Vec<char>)
    ensures
        r@ == kv_line(k@, v@),
{
    let mut r = str_chars(k);
    append_copy(&mut r, &str_chars(" = "));
    append_copy(&mut r, v);
    proof {
        assert(r@ =~= kv_line(k@, v@));
    }
    r
}

fn bool_chars(b: bool) -> (r: Vec<char>)
    ensures
        r@ == bool_text(b),
{
    if b {
        str_chars("true")
    } else {
        str_chars("false")
    }
}

fn join_lines(lines: &Vec<Vec<char>>) -> (r: Vec<char>)
    ensures
        r@ == join_with(views(lines@), '\n'),
{
    let mut r: Vec<char> = Vec::new();
    let mut i: usize = 0;
    while i < lines.len()
        invariant
            i <= lines@.len(),
            r@ == join_with(views(lines@).take(i as int), '\n'),
        decreases lines@.len() - i,
    {
        if i > 0 {
            r.push('\n');
        }
        append_copy(&mut r, &lines[i]);
        proof {
            crate::strutil::lemma_join_snoc(views(lines@).take(i as int), lines@[i as int]@, '\n');
            assert(views(lines@).take(i + 1) =~= views(lines@).take(i as int).push(
                lines@[i as int]@,
            ));
            if i > 0 {
                assert(r@ =~= join_with(views(lines@).take(i as int), '\n') + seq!['\n']
                    + lines@[i as int]@);
            } else {
                assert(views(lines@).take(0).len() == 0);
                assert(r@ =~= lines@[0]@);
            }
        }
        i = i + 1;
    }
    proof {
        assert(views(lines@).take(lines@.len() as int) =~= views(lines@));
    }
    r
}

/// Writes the configuration out, sanitised as a save demands.
pub fn encode_config(c: &AppConfig) -> (r: String)
    ensures
        r@ == spec_encode(sanitize_m(cfg_m(*c))),
{
    let clean = c.sanitized();
    proof {
        lemma_sanitize_commutes(c.network_rules@);
        assert(cfg_m(clean) =~= sanitize_m(cfg_m(*c)));
    }
    let ghost m = cfg_m(clean);
    let mut lines: Vec<Vec<char>> = Vec::new();
    match &clean.default_profile {
        Some(s) => {
            lines.push(kv_line_exec("default_profile", &quoted_exec(&str_chars(s.as_str()))));
        },
        None => {},
    }
    match &clean.last_connected {
        Some(s) => {
            lines.push(kv_line_exec("last_connected", &quoted_exec(&str_chars(s.as_str()))));
        },
        None => {},
    }
    lines.push(kv_line_exec("auto_reconnect", &bool_chars(clean.auto_reconnect)));
    lines.push(kv_line_exec("kill_switch", &bool_chars(clean.kill_switch)));
    lines.push(kv_line_exec("notifications", &bool_chars(clean.notifications)));
    proof {
        assert(views(lines@) =~= top_lines(m));
    }
    let ghost top = views(lines@);
    let mut i: usize = 0;
    while i < clean.network_rules.len()
        invariant
            i <= clean.network_rules@.len(),
            m == cfg_m(clean),
            views(lines@) == top_lines(m) + rule_blocks(m.0.take(i as int)),
        decreases clean.network_rules@.len() - i,
    {
        proof {
            assert(m.0.take(i + 1).drop_last() =~= m.0.take(i as int));
            assert(m.0.take(i + 1).last() == m.0[i as int]);
            assert(m.0[i as int] == rule_m(clean.network_rules@[i as int]));
        }
        let r = &clean.network_rules[i];
        lines.push(Vec::new());
        lines.push(str_chars("[[network_rules]]"));
        lines.push(kv_line_exec("identifier", &quoted_exec(&str_chars(r.identifier.as_str()))));
        match &r.tunnel_name {
            Some(t) => {
                lines.push(kv_line_exec("tunnel_name", &quoted_exec(&str_chars(t.as_str()))));
            },
            None => {},
        }
        lines.push(kv_line_exec("always_vpn", &bool_chars(r.always_vpn)));
        lines.push(kv_line_exec("never_vpn", &bool_chars(r.never_vpn)));
        lines.push(kv_line_exec("session_vpn", &bool_chars(r.session_vpn)));
        proof {
            assert(views(lines@) =~= top_lines(m) + rule_blocks(m.0.take(i as int)) + rule_lines(
                m.0[i as int],
            ));
            assert(views(lines@) =~= top_lines(m) + rule_blocks(m.0.take(i + 1)));
        }
        i = i + 1;
    }
    proof {
        assert(m.0.take(m.0.len() as int) =~= m.0);
    }
    let mut k: usize = 0;
    while k < clean.known_tunnels.len()
        invariant
            k <= clean.known_tunnels@.len(),
            m == cfg_m(clean),
            views(lines@) == top_lines(m) + rule_blocks(m.0) + tun_blocks(m.6.take(k as int)),
        decreases clean.known_tunnels@.len() - k,
    {
        proof {
            assert(m.6.take(k + 1).drop_last() =~= m.6.take(k as int));
            assert(m.6.take(k + 1).last() == m.6[k as int]);
            assert(m.6[k as int] == tun_m(clean.known_tunnels@[k as int]));
        }
        let t = &clean.known_tunnels[k];
        lines.push(Vec::new());
        lines.push(str_chars("[[known_tunnels]]"));
        lines.push(kv_line_exec("name", &quoted_exec(&str_chars(t.name.as_str()))));
        lines.push(kv_line_exec("protocol", &quoted_exec(&str_chars(t.protocol.as_str()))));
        lines.push(kv_line_exec("kill_switch", &bool_chars(t.kill_switch)));
        proof {
            assert(views(lines@) =~= top_lines(m) + rule_blocks(m.0) + tun_blocks(
                m.6.take(k as int),
            ) + tun_lines(m.6[k as int]));
            assert(views(lines@) =~= top_lines(m) + rule_blocks(m.0) + tun_blocks(
                m.6.take(k + 1),
            ));
        }
        k = k + 1;
    }
    proof {
        assert(m.6.take(m.6.len() as int) =~= m.6);
        assert(views(lines@) == encode_lines(m));
    }
    let joined = join_lines(&lines);
    chars_string(&joined)
}

// ---------------------------------------------------------------------
// The executable reader.
// ---------------------------------------------------------------------

/// Folding distributes over appended line runs.
proof fn lemma_parse_append(st: (CfgM, CfgSection), a: Seq<Seq<char>>, b: Seq<Seq<char>>)
    ensures
        parse_lines_m(st, a + b) == parse_lines_m(parse_lines_m(st, a), b),
    decreases a.len(),
{
    if a.len() == 0 {
        assert(a + b =~= b);
    } else {
        assert((a + b)[0] == a[0]);
        assert((a + b).drop_first() =~= a.drop_first() + b);
        lemma_parse_append(parse_line_m(st, a[0]), a.drop_first(), b);
    }
}

proof fn lemma_parse_snoc(st: (CfgM, CfgSection), ls: Seq<Seq<char>>, i: int)
    requires
        0 <= i < ls.len(),
    ensures
        parse_lines_m(st, ls.take(i + 1)) == parse_line_m(parse_lines_m(st, ls.take(i)), ls[i]),
    decreases ls.len(),
{
    lemma_parse_append(st, ls.take(i), seq![ls[i]]);
    assert(ls.take(i + 1) =~= ls.take(i) + seq![ls[i]]);
    let mid = parse_lines_m(st, ls.take(i));
    assert(parse_lines_m(mid, seq![ls[i]]) == parse_lines_m(parse_line_m(mid, ls[i]), seq![
        ls[i],
    ].drop_first()));
    assert(seq![ls[i]].drop_first() =~= Seq::<Seq<char>>::empty());
}

fn unquote_exec(val: &Vec<char>) -> (r: Option<Vec<char>>)
    ensures
        match r {
            Some(x) => unquote(val@) == Some(x@),
            None => unquote(val@) is None,
        },
{
    let n = val.len();
    if n >= 2 && val[0] == '"' && val[n - 1] == '"' {
        Some(chars_slice(val, 1, n - 1))
    } else {
        None
    }
}

/// Whether one line is understood.
fn line_acceptable_exec(line: &Vec<char>) -> (r: bool)
    ensures
        r == line_acceptable(line@),
{
    let l = chars_trim(line);
    if l.len() == 0 {
        return true;
    }
    if chars_eq(&l, &str_chars("[[network_rules]]")) {
        return true;
    }
    if chars_eq(&l, &str_chars("[[known_tunnels]]")) {
        return true;
    }
    let mut n: usize = 0;
    while n < l.len() && l[n] != '='
        invariant
            n <= l@.len(),
            forall|j: int| 0 <= j < n ==> l@[j] != '=',
        decreases l@.len() - n,
    {
        n = n + 1;
    }
    proof {
        crate::strutil::lemma_seg_len_at(l@, n as int, '=');
    }
    if n >= l.len() {
        proof {
            assert(kv_of(l@) is None);
        }
        return false;
    }
    let val = chars_trim(&chars_slice(&l, n + 1, l.len()));
    proof {
        assert(l@.subrange(n + 1, l@.len() as int) =~= l@.skip(n + 1));
        assert(kv_of(l@) matches Some(kv) && kv.1 == val@);
    }
    match unquote_exec(&val) {
        Some(_) => true,
        None => chars_eq(&val, &str_chars("true")) || chars_eq(&val, &str_chars("false")),
    }
}

/// Whether the reader understands the whole file.
pub fn config_text_readable(s: &str) -> (r: bool)
    ensures
        r == spec_readable(s@),
{
    let sv = str_chars(s);
    let lines = lines_of(&sv);
    let ghost sl = spec_lines(s@);
    let mut i: usize = 0;
    while i < lines.len()
        invariant
            i <= lines@.len(),
            views(lines@) == sl,
            sl == spec_lines(s@),
            forall|k: int| 0 <= k < i ==> line_acceptable(#[trigger] sl[k]),
        decreases lines@.len() - i,
    {
        proof {
            assert(sl[i as int] == lines@[i as int]@);
        }
        if !line_acceptable_exec(&lines[i]) {
            return false;
        }
        i = i + 1;
    }
    true
}

/// Reads a configuration file. A file with any line the reader does
/// not understand yields the empty defaults whole.
pub fn parse_config(s: &str) -> (r: AppConfig)
    ensures
        cfg_m(r) == spec_parse(s@),
{
    if !config_text_readable(s) {
        let r = AppConfig::default();
        proof {
            assert(cfg_m(r).0 =~= init_cfg_m().0);
            assert(cfg_m(r).6 =~= init_cfg_m().6);
            assert(cfg_m(r) == init_cfg_m());
        }
        return r;
    }
    let sv = str_chars(s);
    let lines = lines_of(&sv);
    let ghost sl = spec_lines(s@);
    let ghost st0 = (init_cfg_m(), CfgSection::Top);
    let mut cfg = AppConfig::default();
    let mut sec = CfgSection::Top;
    proof {
        assert(sl.take(0) =~= Seq::<Seq<char>>::empty());
        assert(cfg_m(cfg).0 =~= init_cfg_m().0);
        assert(cfg_m(cfg).6 =~= init_cfg_m().6);
        assert(cfg_m(cfg) == init_cfg_m());
    }
    let mut i: usize = 0;
    while i < lines.len()
        invariant
            i <= lines@.len(),
            views(lines@) == sl,
            sl == spec_lines(s@),
            st0 == (init_cfg_m(), CfgSection::Top),
            cfg_m(cfg) == parse_lines_m(st0, sl.take(i as int)).0,
            sec == parse_lines_m(st0, sl.take(i as int)).1,
        decreases lines@.len() - i,
    {
        proof {
            lemma_parse_snoc(st0, sl, i as int);
            assert(sl[i as int] == lines@[i as int]@);
        }
        let ghost st_pre = parse_lines_m(st0, sl.take(i as int));
        let ghost st_post = parse_lines_m(st0, sl.take(i + 1));
        let ghost mpre = st_pre.0;
        let t = chars_trim(&lines[i]);
        if t.len() == 0 {
        } else if chars_eq(&t, &str_chars("[[network_rules]]")) {
            let ghost before = cfg.network_rules@;
            cfg.network_rules.push(
                NetworkRule {
                    identifier: String::new(),
                    tunnel_name: None,
                    always_vpn: false,
                    never_vpn: false,
                    session_vpn: false,
                },
            );
            sec = CfgSection::Rules;
            proof {
                assert(cfg_m(cfg).0 =~= mpre.0.push(empty_rule_m()));
                assert(cfg_m(cfg).6 =~= mpre.6);
                assert(cfg_m(cfg) == st_post.0);
            }
        } else if chars_eq(&t, &str_chars("[[known_tunnels]]")) {
            cfg.known_tunnels.push(
                TunnelInfo { name: String::new(), protocol: String::new(), kill_switch: false },
            );
            sec = CfgSection::Tunnels;
            proof {
                assert(cfg_m(cfg).0 =~= mpre.0);
                assert(cfg_m(cfg).6 =~= mpre.6.push(empty_tun_m()));
                assert(cfg_m(cfg) == st_post.0);
            }
        } else {
            let mut n: usize = 0;
            while n < t.len() && t[n] != '='
                invariant
                    n <= t@.len(),
                    forall|j: int| 0 <= j < n ==> t@[j] != '=',
                decreases t@.len() - n,
            {
                n = n + 1;
            }
            proof {
                crate::strutil::lemma_seg_len_at(t@, n as int, '=');
            }
            if n >= t.len() {
                proof {
                    assert(kv_of(t@) is None);
                    assert(st_post == st_pre);
                }
            } else {
                let key = chars_trim(&chars_slice(&t, 0, n));
                let val = chars_trim(&chars_slice(&t, n + 1, t.len()));
                proof {
                    assert(t@.subrange(0, n as int) =~= t@.take(n as int));
                    assert(t@.subrange(n + 1, t@.len() as int) =~= t@.skip(n + 1));
                    assert(kv_of(t@) == Some((key@, val@)));
                    assert(st_post == parse_kv_m(st_pre, key@, val@));
                }
                let is_true = chars_eq(&val, &str_chars("true"));
                match sec {
                    CfgSection::Top => {
                        if chars_eq(&key, &str_chars("default_profile")) {
                            match unquote_exec(&val) {
                                Some(x) => {
                                    cfg.default_profile = Some(chars_string(&x));
                                },
                                None => {},
                            }
                        } else if chars_eq(&key, &str_chars("last_connected")) {
                            match unquote_exec(&val) {
                                Some(x) => {
                                    cfg.last_connected = Some(chars_string(&x));
                                },
                                None => {},
                            }
                        } else if chars_eq(&key, &str_chars("auto_reconnect")) {
                            cfg.auto_reconnect = is_true;
                        } else if chars_eq(&key, &str_chars("kill_switch")) {
                            cfg.kill_switch = is_true;
                        } else if chars_eq(&key, &str_chars("notifications")) {
                            cfg.notifications = is_true;
                        }
                        proof {
                            assert(cfg_m(cfg).0 =~= st_post.0.0);
                            assert(cfg_m(cfg).6 =~= st_post.0.6);
                            assert(cfg_m(cfg) == st_post.0);
                        }
                    },
                    CfgSection::Rules => {
                        if cfg.network_rules.len() > 0 {
                            let last = cfg.network_rules.len() - 1;
                            let cur = crate::config::clone_rule(&cfg.network_rules[last]);
                            let ghost curm = rule_m(cfg.network_rules@[last as int]);
                            if chars_eq(&key, &str_chars("identifier")) {
                                match unquote_exec(&val) {
                                    Some(x) => {
                                        cfg.network_rules.set(
                                            last,
                                            NetworkRule { identifier: chars_string(&x), ..cur },
                                        );
                                    },
                                    None => {},
                                }
                            } else if chars_eq(&key, &str_chars("tunnel_name")) {
                                match unquote_exec(&val) {
                                    Some(x) => {
                                        cfg.network_rules.set(
                                            last,
                                            NetworkRule {
                                                tunnel_name: Some(chars_string(&x)),
                                                ..cur
                                            },
                                        );
                                    },
                                    None => {},
                                }
                            } else if chars_eq(&key, &str_chars("always_vpn")) {
                                cfg.network_rules.set(
                                    last,
                                    NetworkRule { always_vpn: is_true, ..cur },
                                );
                            } else if chars_eq(&key, &str_chars("never_vpn")) {
                                cfg.network_rules.set(
                                    last,
                                    NetworkRule { never_vpn: is_true, ..cur },
                                );
                            } else if chars_eq(&key, &str_chars("session_vpn")) {
                                cfg.network_rules.set(
                                    last,
                                    NetworkRule { session_vpn: is_true, ..cur },
                                );
                            }
                        }
                        proof {
                            assert(cfg_m(cfg).0 =~= st_post.0.0);
                            assert(cfg_m(cfg).6 =~= st_post.0.6);
                            assert(cfg_m(cfg) == st_post.0);
                        }
                    },
                    CfgSection::Tunnels => {
                        if cfg.known_tunnels.len() > 0 {
                            let last = cfg.known_tunnels.len() - 1;
                            let cur = crate::config::clone_tunnel_info(&cfg.known_tunnels[last]);
                            if chars_eq(&key, &str_chars("name")) {
                                match unquote_exec(&val) {
                                    Some(x) => {
                                        cfg.known_tunnels.set(
                                            last,
                                            TunnelInfo { name: chars_string(&x), ..cur },
                                        );
                                    },
                                    None => {},
                                }
                            } else if chars_eq(&key, &str_chars("protocol")) {
                                match unquote_exec(&val) {
                                    Some(x) => {
                                        cfg.known_tunnels.set(
                                            last,
                                            TunnelInfo { protocol: chars_string(&x), ..cur },
                                        );
                                    },
                                    None => {},
                                }
                            } else if chars_eq(&key, &str_chars("kill_switch")) {
                                cfg.known_tunnels.set(
                                    last,
                                    TunnelInfo { kill_switch: is_true, ..cur },
                                );
                            }
                        }
                        proof {
                            assert(cfg_m(cfg).0 =~= st_post.0.0);
                            assert(cfg_m(cfg).6 =~= st_post.0.6);
                            assert(cfg_m(cfg) == st_post.0);
                        }
                    },
                }
            }
        }
        i = i + 1;
    }
    proof {
        assert(sl.take(sl.len() as int) =~= sl);
    }
    cfg
}

// ---------------------------------------------------------------------
// The round trip: a saved configuration reads back as saved.
// ---------------------------------------------------------------------

/// A string that can live inside a quoted value: free of newlines.
pub open spec fn text_clean(v: Seq<char>) -> bool {
    sep_free(v, '\n')
}

pub open spec fn opt_clean(o: Option<Seq<char>>) -> bool {
    match o {
        Some(v) => text_clean(v),
        None => true,
    }
}

/// A model every string of which is newline-free.
pub open spec fn cfg_clean(m: CfgM) -> bool {
    &&& forall|k: int|
        0 <= k < m.0.len() ==> text_clean((#[trigger] m.0[k]).0) && opt_clean(m.0[k].1)
    &&& opt_clean(m.1)
    &&& opt_clean(m.2)
    &&& forall|k: int|
        0 <= k < m.6.len() ==> text_clean((#[trigger] m.6[k]).0) && text_clean(m.6[k].1)
}

/// A key of the file format: non-empty, no `=`, no whitespace, not
/// starting a section header.
pub open spec fn key_ok(k: Seq<char>) -> bool {
    &&& k.len() > 0
    &&& sep_free(k, '=')
    &&& (forall|j: int| 0 <= j < k.len() ==> !is_space(#[trigger] k[j]))
    &&& k[0] != '['
}

proof fn lemma_trim_id(v: Seq<char>)
    requires
        v.len() > 0 ==> !is_space(v[0]) && !is_space(v[v.len() - 1]),
    ensures
        spec_trim(v) == v,
{
}

proof fn lemma_trim_pad_right(k: Seq<char>)
    requires
        spec_trim(k) == k,
    ensures
        spec_trim(k + " "@) == k,
{
    reveal_strlit(" ");
    let l = k + " "@;
    assert(l.last() == ' ');
    assert(l.drop_last() =~= k);
    if k.len() == 0 {
        assert(l.len() == 1);
        assert(l =~= " "@);
        assert(l[0] == ' ');
        assert(is_space(l[0]));
        assert(l.drop_first() =~= Seq::<char>::empty());
        assert(crate::strutil::trim_start_rec(Seq::<char>::empty()) =~= Seq::<char>::empty());
        assert(crate::strutil::trim_start_rec(l) == crate::strutil::trim_start_rec(
            l.drop_first(),
        ));
        assert(crate::strutil::trim_end_rec(Seq::<char>::empty()) =~= Seq::<char>::empty());
        assert(spec_trim(l) =~= k);
    } else {
        assert(!is_space(k[0])) by {
            if is_space(k[0]) {
                assert(crate::strutil::trim_start_rec(k) == crate::strutil::trim_start_rec(
                    k.drop_first(),
                ));
                crate::strutil::lemma_trim_len(k.drop_first());
            }
        }
        assert(crate::strutil::trim_start_rec(l) == l);
        assert(crate::strutil::trim_end_rec(l) == crate::strutil::trim_end_rec(k));
    }
}

proof fn lemma_trim_pad_left(v: Seq<char>)
    requires
        spec_trim(v) == v,
        v.len() > 0,
        !is_space(v[0]),
        !is_space(v[v.len() - 1]),
    ensures
        spec_trim(" "@ + v) == v,
{
    reveal_strlit(" ");
    let l = " "@ + v;
    assert(l[0] == ' ');
    assert(l.drop_first() =~= v);
    assert(crate::strutil::trim_start_rec(l) == crate::strutil::trim_start_rec(v));
    assert(crate::strutil::trim_start_rec(v) == v);
    assert(crate::strutil::trim_end_rec(v) == v);
}

/// A `key = value` line is already trimmed and splits back into
/// exactly that pair.
proof fn lemma_kv_of_line(k: Seq<char>, v: Seq<char>)
    requires
        key_ok(k),
        spec_trim(v) == v,
        v.len() > 0,
        !is_space(v[0]),
        !is_space(v[v.len() - 1]),
    ensures
        spec_trim(kv_line(k, v)) == kv_line(k, v),
        kv_line(k, v).len() > 0,
        kv_of(kv_line(k, v)) == Some((k, v)),
{
    lemma_parse_kv_line_body(k, v);
}

/// A `key = value` line reads back as exactly that pair.
proof fn lemma_parse_kv_line(st: (CfgM, CfgSection), k: Seq<char>, v: Seq<char>)
    requires
        key_ok(k),
        spec_trim(v) == v,
        v.len() > 0,
        !is_space(v[0]),
        !is_space(v[v.len() - 1]),
        kv_line(k, v) != "[[network_rules]]"@,
        kv_line(k, v) != "[[known_tunnels]]"@,
    ensures
        parse_line_m(st, kv_line(k, v)) == parse_kv_m(st, k, v),
{
    lemma_kv_of_line(k, v);
}

/// The shared computation behind the two lemmas above.
proof fn lemma_parse_kv_line_body(k: Seq<char>, v: Seq<char>)
    requires
        key_ok(k),
        spec_trim(v) == v,
        v.len() > 0,
        !is_space(v[0]),
        !is_space(v[v.len() - 1]),
    ensures
        spec_trim(kv_line(k, v)) == kv_line(k, v),
        kv_line(k, v).len() > 0,
        kv_of(kv_line(k, v)) == Some((k, v)),
{
    reveal_strlit(" = ");
    reveal_strlit(" ");
    let l = kv_line(k, v);
    assert(" = "@.len() == 3);
    assert(" = "@[0] == ' ' && " = "@[1] == '=' && " = "@[2] == ' ');
    let kl = k.len() as int;
    assert(l.len() == kl + 3 + v.len());
    assert forall|j: int| 0 <= j < kl implies l[j] == k[j] by {}
    assert(l[kl] == ' ');
    assert(l[kl + 1] == '=');
    assert(l[kl + 2] == ' ');
    assert forall|j: int| 0 <= j < v.len() implies l[kl + 3 + j] == v[j] by {}
    // the line is already trimmed
    assert(l[0] == k[0]);
    assert(!is_space(l[0]));
    assert(l[l.len() - 1] == v[v.len() - 1]);
    lemma_trim_id(l);
    assert(l.len() > 0);
    // the first '=' sits after the key and the pad
    assert forall|j: int| 0 <= j < kl + 1 implies l[j] != '=' by {
        if j < kl {
            assert(l[j] == k[j]);
        }
    }
    crate::strutil::lemma_seg_len_at(l, kl + 1, '=');
    assert(kv_of(l) is Some);
    // the key side trims back to the key
    assert(l.take(kl + 1) =~= k + " "@);
    lemma_trim_id(k);
    lemma_trim_pad_right(k);
    // the value side trims back to the value
    assert(l.skip(kl + 2) =~= " "@ + v);
    lemma_trim_id(v);
    lemma_trim_pad_left(v);
    assert(kv_of(l) == Some((k, v)));
}

/// Quoting and unquoting cancel.
proof fn lemma_unquote_quoted(x: Seq<char>)
    ensures
        unquote(quoted(x)) == Some(x),
        quoted(x).len() >= 2,
        quoted(x)[0] == '"',
        quoted(x)[quoted(x).len() - 1] == '"',
        !is_space(quoted(x)[0]),
        !is_space(quoted(x)[quoted(x).len() - 1]),
        spec_trim(quoted(x)) == quoted(x),
{
    reveal_strlit("\"");
    let q = quoted(x);
    assert(q.len() == x.len() + 2);
    assert(q[0] == '"');
    assert(q[q.len() - 1] == '"');
    assert(q.subrange(1, q.len() - 1) =~= x);
    lemma_trim_id(q);
}

/// The two boolean words read back as the booleans they write.
proof fn lemma_bool_text(b: bool)
    ensures
        (bool_text(b) == "true"@) == b,
        bool_text(b).len() > 0,
        !is_space(bool_text(b)[0]),
        !is_space(bool_text(b)[bool_text(b).len() - 1]),
        spec_trim(bool_text(b)) == bool_text(b),
{
    reveal_strlit("true");
    reveal_strlit("false");
    if !b {
        assert("false"@.len() == 5);
        assert("true"@.len() == 4);
    }
    lemma_trim_id(bool_text(b));
}

/// A line as the writer leaves it: no embedded newline and no
/// carriage return at its end (so the line survives the file split),
/// and of a shape the reader understands.
pub open spec fn line_ok(l: Seq<char>) -> bool {
    sep_free(l, '\n') && (l.len() > 0 ==> l[l.len() - 1] != '\r') && line_acceptable(l)
}

proof fn lemma_key_facts()
    ensures
        key_ok("default_profile"@) && sep_free("default_profile"@, '\n'),
        key_ok("last_connected"@) && sep_free("last_connected"@, '\n'),
        key_ok("auto_reconnect"@) && sep_free("auto_reconnect"@, '\n'),
        key_ok("kill_switch"@) && sep_free("kill_switch"@, '\n'),
        key_ok("notifications"@) && sep_free("notifications"@, '\n'),
        key_ok("identifier"@) && sep_free("identifier"@, '\n'),
        key_ok("tunnel_name"@) && sep_free("tunnel_name"@, '\n'),
        key_ok("always_vpn"@) && sep_free("always_vpn"@, '\n'),
        key_ok("never_vpn"@) && sep_free("never_vpn"@, '\n'),
        key_ok("session_vpn"@) && sep_free("session_vpn"@, '\n'),
        key_ok("name"@) && sep_free("name"@, '\n'),
        key_ok("protocol"@) && sep_free("protocol"@, '\n'),
        "last_connected"@ != "default_profile"@,
        "auto_reconnect"@ != "default_profile"@ && "auto_reconnect"@ != "last_connected"@,
        "kill_switch"@ != "default_profile"@ && "kill_switch"@ != "last_connected"@
            && "kill_switch"@ != "auto_reconnect"@,
        "notifications"@ != "default_profile"@ && "notifications"@ != "last_connected"@
            && "notifications"@ != "auto_reconnect"@ && "notifications"@ != "kill_switch"@,
        "tunnel_name"@ != "identifier"@,
        "always_vpn"@ != "identifier"@ && "always_vpn"@ != "tunnel_name"@,
        "never_vpn"@ != "identifier"@ && "never_vpn"@ != "tunnel_name"@ && "never_vpn"@
            != "always_vpn"@,
        "session_vpn"@ != "identifier"@ && "session_vpn"@ != "tunnel_name"@ && "session_vpn"@
            != "always_vpn"@ && "session_vpn"@ != "never_vpn"@,
        "protocol"@ != "name"@,
        "kill_switch"@ != "name"@ && "kill_switch"@ != "protocol"@,
{
    reveal_strlit("default_profile");
    reveal_strlit("last_connected");
    reveal_strlit("auto_reconnect");
    reveal_strlit("kill_switch");
    reveal_strlit("notifications");
    reveal_strlit("identifier");
    reveal_strlit("tunnel_name");
    reveal_strlit("always_vpn");
    reveal_strlit("never_vpn");
    reveal_strlit("session_vpn");
    reveal_strlit("name");
    reveal_strlit("protocol");
    assert("auto_reconnect"@[0] != "last_connected"@[0]);
    assert("always_vpn"@[0] != "identifier"@[0]);
    assert("session_vpn"@[0] != "tunnel_name"@[0]);
}

proof fn lemma_header_facts()
    ensures
        spec_trim("[[network_rules]]"@) == "[[network_rules]]"@,
        spec_trim("[[known_tunnels]]"@) == "[[known_tunnels]]"@,
        "[[network_rules]]"@.len() == 17,
        "[[known_tunnels]]"@.len() == 17,
        "[[network_rules]]"@ != "[[known_tunnels]]"@,
        "[[network_rules]]"@[0] == '[',
        "[[known_tunnels]]"@[0] == '[',
        line_ok("[[network_rules]]"@),
        line_ok("[[known_tunnels]]"@),
{
    reveal_strlit("[[network_rules]]");
    reveal_strlit("[[known_tunnels]]");
    assert("[[network_rules]]"@[2] != "[[known_tunnels]]"@[2]);
    lemma_trim_id("[[network_rules]]"@);
    lemma_trim_id("[[known_tunnels]]"@);
}

/// A key/value line never reads as a section header.
proof fn lemma_kv_not_header(k: Seq<char>, v: Seq<char>)
    requires
        key_ok(k),
    ensures
        kv_line(k, v) != "[[network_rules]]"@,
        kv_line(k, v) != "[[known_tunnels]]"@,
{
    lemma_header_facts();
    let l = kv_line(k, v);
    assert(l[0] == k[0]);
    if l == "[[network_rules]]"@ {
        assert(l[0] == '[');
    }
    if l == "[[known_tunnels]]"@ {
        assert(l[0] == '[');
    }
}

/// One line folds as one step.
proof fn lemma_parse_one(st: (CfgM, CfgSection), l: Seq<char>)
    ensures
        parse_lines_m(st, seq![l]) == parse_line_m(st, l),
{
    assert(seq![l][0] == l);
    assert(seq![l].drop_first() =~= Seq::<Seq<char>>::empty());
    assert(parse_lines_m(parse_line_m(st, l), Seq::<Seq<char>>::empty()) == parse_line_m(st, l));
}

/// A quoted value is newline-free when its content is.
proof fn lemma_quoted_clean(x: Seq<char>)
    requires
        text_clean(x),
    ensures
        sep_free(quoted(x), '\n'),
        quoted(x)[quoted(x).len() - 1] != '\r',
{
    reveal_strlit("\"");
    let q = quoted(x);
    assert forall|j: int| 0 <= j < q.len() implies q[j] != '\n' by {
        if j == 0 || j == q.len() - 1 {
            assert(q[j] == '"');
        } else {
            assert(q[j] == x[j - 1]);
        }
    }
    assert(q[q.len() - 1] == '"');
}

/// A written key/value line survives the file split and is of a
/// shape the reader understands.
proof fn lemma_kv_line_ok(k: Seq<char>, v: Seq<char>)
    requires
        key_ok(k),
        sep_free(k, '\n'),
        sep_free(v, '\n'),
        v.len() > 0,
        v[v.len() - 1] != '\r',
        spec_trim(v) == v,
        !is_space(v[0]),
        !is_space(v[v.len() - 1]),
        unquote(v) is Some || v == "true"@ || v == "false"@,
    ensures
        line_ok(kv_line(k, v)),
{
    lemma_kv_of_line(k, v);
    reveal_strlit(" = ");
    let l = kv_line(k, v);
    let kl = k.len() as int;
    assert(" = "@.len() == 3);
    assert(" = "@[0] == ' ' && " = "@[1] == '=' && " = "@[2] == ' ');
    assert forall|j: int| 0 <= j < l.len() implies l[j] != '\n' by {
        if j < kl {
            assert(l[j] == k[j]);
        } else if j < kl + 3 {
            assert(l[j] == " = "@[j - kl]);
        } else {
            assert(l[j] == v[j - kl - 3]);
        }
    }
    assert(l[l.len() - 1] == v[v.len() - 1]);
}

/// The booleans' words are clean line material.
proof fn lemma_bool_clean(b: bool)
    ensures
        sep_free(bool_text(b), '\n'),
        bool_text(b)[bool_text(b).len() - 1] != '\r',
{
    reveal_strlit("true");
    reveal_strlit("false");
}


/// The head lines read the scalar settings in and leave the rule and
/// tunnel lists untouched.
proof fn lemma_parse_top(w: CfgM)
    requires
        opt_clean(w.1),
        opt_clean(w.2),
    ensures
        parse_lines_m((init_cfg_m(), CfgSection::Top), top_lines(w)) == (
            (Seq::<RuleM>::empty(), w.1, w.2, w.3, w.4, w.5, Seq::<TunM>::empty()),
            CfgSection::Top,
        ),
{
    lemma_key_facts();
    let st0 = (init_cfg_m(), CfgSection::Top);
    let a = opt_line("default_profile"@, w.1);
    let b = opt_line("last_connected"@, w.2);
    let c3 = seq![
        kv_line("auto_reconnect"@, bool_text(w.3)),
        kv_line("kill_switch"@, bool_text(w.4)),
        kv_line("notifications"@, bool_text(w.5)),
    ];
    lemma_parse_append(st0, a, b + c3);
    assert(top_lines(w) =~= a + (b + c3));
    let st1 = parse_lines_m(st0, a);
    lemma_parse_append(st1, b, c3);
    let st2 = parse_lines_m(st1, b);
    // default_profile
    match w.1 {
        Some(x) => {
            lemma_unquote_quoted(x);
            lemma_kv_not_header("default_profile"@, quoted(x));
            lemma_parse_kv_line(st0, "default_profile"@, quoted(x));
            lemma_parse_one(st0, kv_line("default_profile"@, quoted(x)));
            assert(a =~= seq![kv_line("default_profile"@, quoted(x))]);
            assert(st1 == ((init_cfg_m().0, Some(x), init_cfg_m().2, false, false, false,
            init_cfg_m().6), CfgSection::Top));
        },
        None => {
            assert(a =~= Seq::<Seq<char>>::empty());
            assert(st1 == st0);
        },
    }
    // last_connected
    match w.2 {
        Some(x) => {
            lemma_unquote_quoted(x);
            lemma_kv_not_header("last_connected"@, quoted(x));
            lemma_parse_kv_line(st1, "last_connected"@, quoted(x));
            lemma_parse_one(st1, kv_line("last_connected"@, quoted(x)));
            assert(b =~= seq![kv_line("last_connected"@, quoted(x))]);
        },
        None => {
            assert(b =~= Seq::<Seq<char>>::empty());
            assert(st2 == st1);
        },
    }
    // the three booleans
    let l1 = kv_line("auto_reconnect"@, bool_text(w.3));
    let l2 = kv_line("kill_switch"@, bool_text(w.4));
    let l3 = kv_line("notifications"@, bool_text(w.5));
    lemma_bool_text(w.3);
    lemma_bool_text(w.4);
    lemma_bool_text(w.5);
    lemma_kv_not_header("auto_reconnect"@, bool_text(w.3));
    lemma_kv_not_header("kill_switch"@, bool_text(w.4));
    lemma_kv_not_header("notifications"@, bool_text(w.5));
    lemma_parse_kv_line(st2, "auto_reconnect"@, bool_text(w.3));
    let st3 = parse_line_m(st2, l1);
    lemma_parse_kv_line(st3, "kill_switch"@, bool_text(w.4));
    let st4 = parse_line_m(st3, l2);
    lemma_parse_kv_line(st4, "notifications"@, bool_text(w.5));
    let st5 = parse_line_m(st4, l3);
    assert(c3[0] == l1 && c3[1] == l2 && c3[2] == l3);
    assert(c3.drop_first() =~= seq![l2, l3]);
    assert(c3.drop_first().drop_first() =~= seq![l3]);
    lemma_parse_one(st4, l3);
    assert(parse_lines_m(st2, c3) == st5) by {
        assert(parse_lines_m(st2, c3) == parse_lines_m(st3, c3.drop_first()));
        assert(parse_lines_m(st3, c3.drop_first()) == parse_lines_m(st4, seq![l3]));
    }
    assert(st5.0.0 =~= Seq::<RuleM>::empty());
    assert(st5.0.6 =~= Seq::<TunM>::empty());
}

/// One rule block appends exactly its rule.
proof fn lemma_parse_rule_block(st: (CfgM, CfgSection), r: RuleM)
    requires
        text_clean(r.0),
        opt_clean(r.1),
    ensures
        parse_lines_m(st, rule_lines(r)) == (
            (st.0.0.push(r), st.0.1, st.0.2, st.0.3, st.0.4, st.0.5, st.0.6),
            CfgSection::Rules,
        ),
{
    lemma_key_facts();
    lemma_header_facts();
    let m = st.0;
    let ls = rule_lines(r);
    let lid = kv_line("identifier"@, quoted(r.0));
    let ltn = opt_line("tunnel_name"@, r.1);
    let la = kv_line("always_vpn"@, bool_text(r.2));
    let ln = kv_line("never_vpn"@, bool_text(r.3));
    let lsv = kv_line("session_vpn"@, bool_text(r.4));
    // blank line
    assert(ls[0] =~= Seq::<char>::empty());
    assert(spec_trim(ls[0]).len() == 0);
    let s1 = parse_line_m(st, ls[0]);
    assert(s1 == st);
    // header
    assert(ls[1] == "[[network_rules]]"@);
    let s2 = parse_line_m(s1, ls[1]);
    assert(s2 == ((m.0.push(empty_rule_m()), m.1, m.2, m.3, m.4, m.5, m.6), CfgSection::Rules));
    // identifier
    assert(ls[2] == lid);
    lemma_unquote_quoted(r.0);
    lemma_kv_not_header("identifier"@, quoted(r.0));
    lemma_parse_kv_line(s2, "identifier"@, quoted(r.0));
    let s3 = parse_line_m(s2, lid);
    let ghost ra = (r.0, None::<Seq<char>>, false, false, false);
    assert(s2.0.0.last() == empty_rule_m());
    assert(s3.0.0 =~= m.0.push(ra)) by {
        assert(s3.0.0 =~= s2.0.0.update(s2.0.0.len() - 1, ra));
    }
    assert(s3 == ((m.0.push(ra), m.1, m.2, m.3, m.4, m.5, m.6), CfgSection::Rules));
    // tunnel name, when there is one
    let s4: (CfgM, CfgSection);
    let rb: RuleM;
    match r.1 {
        Some(t) => {
            lemma_unquote_quoted(t);
            lemma_kv_not_header("tunnel_name"@, quoted(t));
            lemma_parse_kv_line(s3, "tunnel_name"@, quoted(t));
            rb = (r.0, Some(t), false, false, false);
            s4 = parse_line_m(s3, kv_line("tunnel_name"@, quoted(t)));
            assert(s3.0.0.last() == ra);
            assert(s4.0.0 =~= m.0.push(rb)) by {
                assert(s4.0.0 =~= s3.0.0.update(s3.0.0.len() - 1, rb));
            }
            assert(s4 == ((m.0.push(rb), m.1, m.2, m.3, m.4, m.5, m.6), CfgSection::Rules));
        },
        None => {
            rb = ra;
            s4 = s3;
        },
    }
    // the three flags
    lemma_bool_text(r.2);
    lemma_bool_text(r.3);
    lemma_bool_text(r.4);
    lemma_kv_not_header("always_vpn"@, bool_text(r.2));
    lemma_kv_not_header("never_vpn"@, bool_text(r.3));
    lemma_kv_not_header("session_vpn"@, bool_text(r.4));
    lemma_parse_kv_line(s4, "always_vpn"@, bool_text(r.2));
    let s5 = parse_line_m(s4, la);
    let ghost rc = (r.0, rb.1, r.2, false, false);
    assert(s5.0.0 =~= m.0.push(rc)) by {
        assert(s4.0.0.last() == rb);
        assert(s5.0.0 =~= s4.0.0.update(s4.0.0.len() - 1, rc));
    }
    assert(s5 == ((m.0.push(rc), m.1, m.2, m.3, m.4, m.5, m.6), CfgSection::Rules));
    lemma_parse_kv_line(s5, "never_vpn"@, bool_text(r.3));
    let s6 = parse_line_m(s5, ln);
    let ghost rd = (r.0, rb.1, r.2, r.3, false);
    assert(s6.0.0 =~= m.0.push(rd)) by {
        assert(s5.0.0.last() == rc);
        assert(s6.0.0 =~= s5.0.0.update(s5.0.0.len() - 1, rd));
    }
    assert(s6 == ((m.0.push(rd), m.1, m.2, m.3, m.4, m.5, m.6), CfgSection::Rules));
    lemma_parse_kv_line(s6, "session_vpn"@, bool_text(r.4));
    let s7 = parse_line_m(s6, lsv);
    assert(s7.0.0 =~= m.0.push(r)) by {
        assert(s6.0.0.last() == rd);
        assert(s7.0.0 =~= s6.0.0.update(s6.0.0.len() - 1, (r.0, rb.1, r.2, r.3, r.4)));
        assert((r.0, rb.1, r.2, r.3, r.4) == r);
    }
    assert(s7 == ((m.0.push(r), m.1, m.2, m.3, m.4, m.5, m.6), CfgSection::Rules));
    // chain the lines
    match r.1 {
        Some(t) => {
            let ltn1 = kv_line("tunnel_name"@, quoted(t));
            assert(ls =~= seq![ls[0], ls[1], lid, ltn1, la, ln, lsv]);
            lemma_parse_seq7(st, ls, s1, s2, s3, s4, s5, s6, s7);
        },
        None => {
            assert(ls =~= seq![ls[0], ls[1], lid, la, ln, lsv]);
            lemma_parse_seq6(st, ls, s1, s2, s3, s5, s6, s7);
        },
    }
}

/// Folding a six-line run, step by step.
proof fn lemma_parse_seq6(
    st: (CfgM, CfgSection),
    ls: Seq<Seq<char>>,
    s1: (CfgM, CfgSection),
    s2: (CfgM, CfgSection),
    s3: (CfgM, CfgSection),
    s4: (CfgM, CfgSection),
    s5: (CfgM, CfgSection),
    s6: (CfgM, CfgSection),
)
    requires
        ls.len() == 6,
        parse_line_m(st, ls[0]) == s1,
        parse_line_m(s1, ls[1]) == s2,
        parse_line_m(s2, ls[2]) == s3,
        parse_line_m(s3, ls[3]) == s4,
        parse_line_m(s4, ls[4]) == s5,
        parse_line_m(s5, ls[5]) == s6,
    ensures
        parse_lines_m(st, ls) == s6,
{
    let t1 = ls.drop_first();
    let t2 = t1.drop_first();
    let t3 = t2.drop_first();
    let t4 = t3.drop_first();
    let t5 = t4.drop_first();
    let t6 = t5.drop_first();
    assert(t6 =~= Seq::<Seq<char>>::empty());
    assert(t1[0] == ls[1] && t2[0] == ls[2] && t3[0] == ls[3] && t4[0] == ls[4]);
    assert(t5[0] == ls[5]);
    assert(parse_lines_m(st, ls) == parse_lines_m(s1, t1));
    assert(parse_lines_m(s1, t1) == parse_lines_m(s2, t2));
    assert(parse_lines_m(s2, t2) == parse_lines_m(s3, t3));
    assert(parse_lines_m(s3, t3) == parse_lines_m(s4, t4));
    assert(parse_lines_m(s4, t4) == parse_lines_m(s5, t5));
    assert(parse_lines_m(s5, t5) == parse_lines_m(s6, t6));
}

/// Folding a seven-line run, step by step.
proof fn lemma_parse_seq7(
    st: (CfgM, CfgSection),
    ls: Seq<Seq<char>>,
    s1: (CfgM, CfgSection),
    s2: (CfgM, CfgSection),
    s3: (CfgM, CfgSection),
    s4: (CfgM, CfgSection),
    s5: (CfgM, CfgSection),
    s6: (CfgM, CfgSection),
    s7: (CfgM, CfgSection),
)
    requires
        ls.len() == 7,
        parse_line_m(st, ls[0]) == s1,
        parse_line_m(s1, ls[1]) == s2,
        parse_line_m(s2, ls[2]) == s3,
        parse_line_m(s3, ls[3]) == s4,
        parse_line_m(s4, ls[4]) == s5,
        parse_line_m(s5, ls[5]) == s6,
        parse_line_m(s6, ls[6]) == s7,
    ensures
        parse_lines_m(st, ls) == s7,
{
    let t1 = ls.drop_first();
    assert(t1 =~= seq![ls[1], ls[2], ls[3], ls[4], ls[5], ls[6]]);
    lemma_parse_seq6(s1, t1, s2, s3, s4, s5, s6, s7);
    assert(parse_lines_m(st, ls) == parse_lines_m(s1, t1));
}


/// Folding a five-line run, step by step.
proof fn lemma_parse_seq5(
    st: (CfgM, CfgSection),
    ls: Seq<Seq<char>>,
    s1: (CfgM, CfgSection),
    s2: (CfgM, CfgSection),
    s3: (CfgM, CfgSection),
    s4: (CfgM, CfgSection),
    s5: (CfgM, CfgSection),
)
    requires
        ls.len() == 5,
        parse_line_m(st, ls[0]) == s1,
        parse_line_m(s1, ls[1]) == s2,
        parse_line_m(s2, ls[2]) == s3,
        parse_line_m(s3, ls[3]) == s4,
        parse_line_m(s4, ls[4]) == s5,
    ensures
        parse_lines_m(st, ls) == s5,
{
    let t1 = ls.drop_first();
    let t2 = t1.drop_first();
    let t3 = t2.drop_first();
    let t4 = t3.drop_first();
    let t5 = t4.drop_first();
    assert(t5 =~= Seq::<Seq<char>>::empty());
    assert(t1[0] == ls[1] && t2[0] == ls[2] && t3[0] == ls[3] && t4[0] == ls[4]);
    assert(parse_lines_m(st, ls) == parse_lines_m(s1, t1));
    assert(parse_lines_m(s1, t1) == parse_lines_m(s2, t2));
    assert(parse_lines_m(s2, t2) == parse_lines_m(s3, t3));
    assert(parse_lines_m(s3, t3) == parse_lines_m(s4, t4));
    assert(parse_lines_m(s4, t4) == parse_lines_m(s5, t5));
}

/// One tunnel block appends exactly its tunnel.
proof fn lemma_parse_tun_block(st: (CfgM, CfgSection), t: TunM)
    requires
        text_clean(t.0),
        text_clean(t.1),
    ensures
        parse_lines_m(st, tun_lines(t)) == (
            (st.0.0, st.0.1, st.0.2, st.0.3, st.0.4, st.0.5, st.0.6.push(t)),
            CfgSection::Tunnels,
        ),
{
    lemma_key_facts();
    lemma_header_facts();
    let m = st.0;
    let ls = tun_lines(t);
    let lname = kv_line("name"@, quoted(t.0));
    let lproto = kv_line("protocol"@, quoted(t.1));
    let lks = kv_line("kill_switch"@, bool_text(t.2));
    assert(ls[0] =~= Seq::<char>::empty());
    assert(spec_trim(ls[0]).len() == 0);
    let s1 = parse_line_m(st, ls[0]);
    assert(s1 == st);
    assert(ls[1] == "[[known_tunnels]]"@);
    let s2 = parse_line_m(s1, ls[1]);
    assert(s2 == ((m.0, m.1, m.2, m.3, m.4, m.5, m.6.push(empty_tun_m())), CfgSection::Tunnels));
    lemma_unquote_quoted(t.0);
    lemma_kv_not_header("name"@, quoted(t.0));
    lemma_parse_kv_line(s2, "name"@, quoted(t.0));
    let s3 = parse_line_m(s2, lname);
    let ghost ta = (t.0, Seq::<char>::empty(), false);
    assert(s3.0.6 =~= m.6.push(ta)) by {
        assert(s2.0.6.last() == empty_tun_m());
        assert(s3.0.6 =~= s2.0.6.update(s2.0.6.len() - 1, ta));
    }
    assert(s3 == ((m.0, m.1, m.2, m.3, m.4, m.5, m.6.push(ta)), CfgSection::Tunnels));
    lemma_unquote_quoted(t.1);
    lemma_kv_not_header("protocol"@, quoted(t.1));
    lemma_parse_kv_line(s3, "protocol"@, quoted(t.1));
    let s4 = parse_line_m(s3, lproto);
    let ghost tb = (t.0, t.1, false);
    assert(s4.0.6 =~= m.6.push(tb)) by {
        assert(s3.0.6.last() == ta);
        assert(s4.0.6 =~= s3.0.6.update(s3.0.6.len() - 1, tb));
    }
    assert(s4 == ((m.0, m.1, m.2, m.3, m.4, m.5, m.6.push(tb)), CfgSection::Tunnels));
    lemma_bool_text(t.2);
    lemma_kv_not_header("kill_switch"@, bool_text(t.2));
    lemma_parse_kv_line(s4, "kill_switch"@, bool_text(t.2));
    let s5 = parse_line_m(s4, lks);
    assert(s5.0.6 =~= m.6.push(t)) by {
        assert(s4.0.6.last() == tb);
        assert(s5.0.6 =~= s4.0.6.update(s4.0.6.len() - 1, (t.0, t.1, t.2)));
        assert((t.0, t.1, t.2) == t);
    }
    assert(s5 == ((m.0, m.1, m.2, m.3, m.4, m.5, m.6.push(t)), CfgSection::Tunnels));
    assert(ls =~= seq![ls[0], ls[1], lname, lproto, lks]);
    lemma_parse_seq5(st, ls, s1, s2, s3, s4, s5);
}

/// All the rule blocks append all the rules, in order.
proof fn lemma_parse_rule_blocks(st: (CfgM, CfgSection), rs: Seq<RuleM>)
    requires
        forall|k: int| 0 <= k < rs.len() ==> text_clean((#[trigger] rs[k]).0) && opt_clean(
            rs[k].1,
        ),
    ensures
        parse_lines_m(st, rule_blocks(rs)) == (
            (st.0.0 + rs, st.0.1, st.0.2, st.0.3, st.0.4, st.0.5, st.0.6),
            if rs.len() == 0 {
                st.1
            } else {
                CfgSection::Rules
            },
        ),
    decreases rs.len(),
{
    if rs.len() == 0 {
        assert(rule_blocks(rs) =~= Seq::<Seq<char>>::empty());
        assert(st.0.0 + rs =~= st.0.0);
        assert(parse_lines_m(st, rule_blocks(rs)) == st);
        assert((st.0.0, st.0.1, st.0.2, st.0.3, st.0.4, st.0.5, st.0.6) == st.0);
    } else {
        lemma_parse_rule_blocks(st, rs.drop_last());
        lemma_parse_append(st, rule_blocks(rs.drop_last()), rule_lines(rs.last()));
        let mid = parse_lines_m(st, rule_blocks(rs.drop_last()));
        lemma_parse_rule_block(mid, rs.last());
        assert(st.0.0 + rs.drop_last() + seq![rs.last()] =~= st.0.0 + rs);
        assert((st.0.0 + rs.drop_last()).push(rs.last()) =~= st.0.0 + rs);
    }
}

/// All the tunnel blocks append all the tunnels, in order.
proof fn lemma_parse_tun_blocks(st: (CfgM, CfgSection), ts: Seq<TunM>)
    requires
        forall|k: int| 0 <= k < ts.len() ==> text_clean((#[trigger] ts[k]).0) && text_clean(
            ts[k].1,
        ),
    ensures
        parse_lines_m(st, tun_blocks(ts)) == (
            (st.0.0, st.0.1, st.0.2, st.0.3, st.0.4, st.0.5, st.0.6 + ts),
            if ts.len() == 0 {
                st.1
            } else {
                CfgSection::Tunnels
            },
        ),
    decreases ts.len(),
{
    if ts.len() == 0 {
        assert(tun_blocks(ts) =~= Seq::<Seq<char>>::empty());
        assert(st.0.6 + ts =~= st.0.6);
        assert(parse_lines_m(st, tun_blocks(ts)) == st);
        assert((st.0.0, st.0.1, st.0.2, st.0.3, st.0.4, st.0.5, st.0.6) == st.0);
    } else {
        lemma_parse_tun_blocks(st, ts.drop_last());
        lemma_parse_append(st, tun_blocks(ts.drop_last()), tun_lines(ts.last()));
        let mid = parse_lines_m(st, tun_blocks(ts.drop_last()));
        lemma_parse_tun_block(mid, ts.last());
        assert((st.0.6 + ts.drop_last()).push(ts.last()) =~= st.0.6 + ts);
    }
}


proof fn lemma_top_lines_ok(m: CfgM)
    requires
        opt_clean(m.1),
        opt_clean(m.2),
    ensures
        forall|k: int| 0 <= k < top_lines(m).len() ==> line_ok(#[trigger] top_lines(m)[k]),
        top_lines(m).len() >= 3,
        top_lines(m).last().len() > 0,
{
    lemma_key_facts();
    match m.1 {
        Some(x) => {
            lemma_quoted_clean(x);
            lemma_unquote_quoted(x);
            lemma_kv_line_ok("default_profile"@, quoted(x));
        },
        None => {},
    }
    match m.2 {
        Some(x) => {
            lemma_quoted_clean(x);
            lemma_unquote_quoted(x);
            lemma_kv_line_ok("last_connected"@, quoted(x));
        },
        None => {},
    }
    lemma_bool_clean(m.3);
    lemma_bool_clean(m.4);
    lemma_bool_clean(m.5);
    lemma_bool_text(m.3);
    lemma_bool_text(m.4);
    lemma_bool_text(m.5);
    lemma_kv_line_ok("auto_reconnect"@, bool_text(m.3));
    lemma_kv_line_ok("kill_switch"@, bool_text(m.4));
    lemma_kv_line_ok("notifications"@, bool_text(m.5));
    assert forall|k: int| 0 <= k < top_lines(m).len() implies line_ok(
        #[trigger] top_lines(m)[k],
    ) by {
        let a = opt_line("default_profile"@, m.1);
        let b = opt_line("last_connected"@, m.2);
        if k < a.len() {
            assert(top_lines(m)[k] == a[0]);
        } else if k < a.len() + b.len() {
            assert(top_lines(m)[k] == b[0]);
        }
    }
    assert(top_lines(m).last() == kv_line("notifications"@, bool_text(m.5)));
}

proof fn lemma_rule_lines_ok(r: RuleM)
    requires
        text_clean(r.0),
        opt_clean(r.1),
    ensures
        forall|k: int| 0 <= k < rule_lines(r).len() ==> line_ok(#[trigger] rule_lines(r)[k]),
        rule_lines(r).len() >= 6,
        rule_lines(r).last().len() > 0,
{
    lemma_key_facts();
    lemma_header_facts();
    lemma_quoted_clean(r.0);
    lemma_unquote_quoted(r.0);
    lemma_kv_line_ok("identifier"@, quoted(r.0));
    match r.1 {
        Some(t) => {
            lemma_quoted_clean(t);
            lemma_unquote_quoted(t);
            lemma_kv_line_ok("tunnel_name"@, quoted(t));
        },
        None => {},
    }
    lemma_bool_clean(r.2);
    lemma_bool_clean(r.3);
    lemma_bool_clean(r.4);
    lemma_bool_text(r.2);
    lemma_bool_text(r.3);
    lemma_bool_text(r.4);
    lemma_kv_line_ok("always_vpn"@, bool_text(r.2));
    lemma_kv_line_ok("never_vpn"@, bool_text(r.3));
    lemma_kv_line_ok("session_vpn"@, bool_text(r.4));
    let ls = rule_lines(r);
    match r.1 {
        Some(t) => {
            assert(ls =~= seq![
                Seq::<char>::empty(),
                "[[network_rules]]"@,
                kv_line("identifier"@, quoted(r.0)),
                kv_line("tunnel_name"@, quoted(t)),
                kv_line("always_vpn"@, bool_text(r.2)),
                kv_line("never_vpn"@, bool_text(r.3)),
                kv_line("session_vpn"@, bool_text(r.4)),
            ]);
        },
        None => {
            assert(ls =~= seq![
                Seq::<char>::empty(),
                "[[network_rules]]"@,
                kv_line("identifier"@, quoted(r.0)),
                kv_line("always_vpn"@, bool_text(r.2)),
                kv_line("never_vpn"@, bool_text(r.3)),
                kv_line("session_vpn"@, bool_text(r.4)),
            ]);
        },
    }
}

proof fn lemma_tun_lines_ok(t: TunM)
    requires
        text_clean(t.0),
        text_clean(t.1),
    ensures
        forall|k: int| 0 <= k < tun_lines(t).len() ==> line_ok(#[trigger] tun_lines(t)[k]),
        tun_lines(t).len() == 5,
        tun_lines(t).last().len() > 0,
{
    lemma_key_facts();
    lemma_header_facts();
    lemma_quoted_clean(t.0);
    lemma_unquote_quoted(t.0);
    lemma_kv_line_ok("name"@, quoted(t.0));
    lemma_quoted_clean(t.1);
    lemma_unquote_quoted(t.1);
    lemma_kv_line_ok("protocol"@, quoted(t.1));
    lemma_bool_clean(t.2);
    lemma_bool_text(t.2);
    lemma_kv_line_ok("kill_switch"@, bool_text(t.2));
}

proof fn lemma_rule_blocks_ok(rs: Seq<RuleM>)
    requires
        forall|k: int| 0 <= k < rs.len() ==> text_clean((#[trigger] rs[k]).0) && opt_clean(
            rs[k].1,
        ),
    ensures
        forall|k: int| 0 <= k < rule_blocks(rs).len() ==> line_ok(#[trigger] rule_blocks(rs)[k]),
        rs.len() > 0 ==> rule_blocks(rs).len() > 0 && rule_blocks(rs).last().len() > 0,
    decreases rs.len(),
{
    if rs.len() > 0 {
        lemma_rule_blocks_ok(rs.drop_last());
        lemma_rule_lines_ok(rs.last());
        let pre = rule_blocks(rs.drop_last());
        let blk = rule_lines(rs.last());
        assert forall|k: int| 0 <= k < rule_blocks(rs).len() implies line_ok(
            #[trigger] rule_blocks(rs)[k],
        ) by {
            if k < pre.len() {
                assert(rule_blocks(rs)[k] == pre[k]);
            } else {
                assert(rule_blocks(rs)[k] == blk[k - pre.len()]);
            }
        }
        assert(rule_blocks(rs).last() == blk.last());
    }
}

proof fn lemma_tun_blocks_ok(ts: Seq<TunM>)
    requires
        forall|k: int| 0 <= k < ts.len() ==> text_clean((#[trigger] ts[k]).0) && text_clean(
            ts[k].1,
        ),
    ensures
        forall|k: int| 0 <= k < tun_blocks(ts).len() ==> line_ok(#[trigger] tun_blocks(ts)[k]),
        ts.len() > 0 ==> tun_blocks(ts).len() > 0 && tun_blocks(ts).last().len() > 0,
    decreases ts.len(),
{
    if ts.len() > 0 {
        lemma_tun_blocks_ok(ts.drop_last());
        lemma_tun_lines_ok(ts.last());
        let pre = tun_blocks(ts.drop_last());
        let blk = tun_lines(ts.last());
        assert forall|k: int| 0 <= k < tun_blocks(ts).len() implies line_ok(
            #[trigger] tun_blocks(ts)[k],
        ) by {
            if k < pre.len() {
                assert(tun_blocks(ts)[k] == pre[k]);
            } else {
                assert(tun_blocks(ts)[k] == blk[k - pre.len()]);
            }
        }
        assert(tun_blocks(ts).last() == blk.last());
    }
}

/// The written file splits back into exactly the written lines, each
/// of a shape the reader understands.
proof fn lemma_lines_of_encode(m: CfgM)
    requires
        cfg_clean(m),
    ensures
        spec_lines(spec_encode(m)) == encode_lines(m),
        forall|k: int| 0 <= k < encode_lines(m).len() ==> line_ok(#[trigger] encode_lines(m)[k]),
{
    lemma_top_lines_ok(m);
    lemma_rule_blocks_ok(m.0);
    lemma_tun_blocks_ok(m.6);
    let ls = encode_lines(m);
    let top = top_lines(m);
    let rb = rule_blocks(m.0);
    let tb = tun_blocks(m.6);
    assert forall|k: int| 0 <= k < ls.len() implies line_ok(#[trigger] ls[k]) by {
        if k < top.len() {
            assert(ls[k] == top[k]);
        } else if k < top.len() + rb.len() {
            assert(ls[k] == rb[k - top.len()]);
        } else {
            assert(ls[k] == tb[k - top.len() - rb.len()]);
        }
    }
    assert(ls.last().len() > 0) by {
        if tb.len() > 0 {
            assert(ls.last() == tb.last());
        } else if rb.len() > 0 {
            assert(ls.last() == rb.last());
        } else {
            assert(ls.last() == top.last());
        }
    }
    assert forall|k: int| 0 <= k < ls.len() implies sep_free(#[trigger] ls[k], '\n') by {}
    crate::strutil::lemma_split_join(ls, '\n');
    let p = spec_split(spec_encode(m), '\n');
    assert(p == ls);
    assert(p[p.len() - 1].len() != 0);
    assert(spec_lines(spec_encode(m)) =~= ls.map_values(
        |l: Seq<char>| crate::strutil::strip_cr(l),
    ));
    assert(ls.map_values(|l: Seq<char>| crate::strutil::strip_cr(l)) =~= ls);
}

/// Sanitising preserves cleanliness.
proof fn lemma_sanitize_clean(m: CfgM)
    requires
        cfg_clean(m),
    ensures
        cfg_clean(sanitize_m(m)),
        opt_clean(sanitize_m(m).1),
        opt_clean(sanitize_m(m).2),
{
    lemma_sanitize_rules_clean(m.0);
}

proof fn lemma_sanitize_rules_clean(rs: Seq<RuleM>)
    requires
        forall|k: int| 0 <= k < rs.len() ==> text_clean((#[trigger] rs[k]).0) && opt_clean(
            rs[k].1,
        ),
    ensures
        forall|k: int|
            0 <= k < sanitize_rules_m(rs).len() ==> text_clean(
                (#[trigger] sanitize_rules_m(rs)[k]).0,
            ) && opt_clean(sanitize_rules_m(rs)[k].1),
    decreases rs.len(),
{
    if rs.len() > 0 {
        lemma_sanitize_rules_clean(rs.drop_last());
        let pre = sanitize_rules_m(rs.drop_last());
        assert forall|k: int| 0 <= k < sanitize_rules_m(rs).len() implies text_clean(
            (#[trigger] sanitize_rules_m(rs)[k]).0,
        ) && opt_clean(sanitize_rules_m(rs)[k].1) by {
            if k < pre.len() {
                assert(sanitize_rules_m(rs)[k] == pre[k]);
            }
        }
    }
}

/// The round trip: a configuration written by a save reads back as
/// exactly what the save wrote — the given rules with suspicious
/// identifiers dropped and empty tunnel names normalised away, and
/// every other field untouched.
pub proof fn lemma_config_round_trip(m: CfgM)
    requires
        cfg_clean(m),
    ensures
        spec_parse(spec_encode(sanitize_m(m))) == sanitize_m(m),
{
    lemma_sanitize_clean(m);
    lemma_encode_parse_id(sanitize_m(m));
}

/// Writing any clean configuration and reading it back is the
/// identity.
pub proof fn lemma_encode_parse_id(w: CfgM)
    requires
        cfg_clean(w),
    ensures
        spec_parse(spec_encode(w)) == w,
{
    lemma_lines_of_encode(w);
    let st0 = (init_cfg_m(), CfgSection::Top);
    let top = top_lines(w);
    let rb = rule_blocks(w.0);
    let tb = tun_blocks(w.6);
    lemma_parse_append(st0, top, rb + tb);
    assert(encode_lines(w) =~= top + (rb + tb));
    lemma_parse_top(w);
    let st1 = parse_lines_m(st0, top);
    lemma_parse_append(st1, rb, tb);
    lemma_parse_rule_blocks(st1, w.0);
    let st2 = parse_lines_m(st1, rb);
    assert(st2.0.0 =~= w.0);
    lemma_parse_tun_blocks(st2, w.6);
    let st3 = parse_lines_m(st2, tb);
    assert(st3.0.6 =~= w.6);
    assert(st3.0 == (w.0, w.1, w.2, w.3, w.4, w.5, w.6));
    assert(w == (w.0, w.1, w.2, w.3, w.4, w.5, w.6));
    assert(spec_readable(spec_encode(w))) by {
        assert forall|k: int| 0 <= k < spec_lines(spec_encode(w)).len() implies line_acceptable(
            #[trigger] spec_lines(spec_encode(w))[k],
        ) by {
            assert(spec_lines(spec_encode(w))[k] == encode_lines(w)[k]);
            assert(line_ok(encode_lines(w)[k]));
        }
    }
    assert(spec_parse(spec_encode(w)) == st3.0);
}

} // verus!
