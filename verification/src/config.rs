//! The persisted policy store: per-network rules, per-tunnel flags and
//! global options, with the sanitisation applied on save.

use vstd::prelude::*;
use crate::strutil::{str_chars, chars_eq};

verus! {

/// A per-network policy: which tunnel to use on the network named by
/// `identifier`, and in which of the three modes. At most one of the
/// three mode flags is meant to be set.
#[derive(Debug, Clone)]
pub struct NetworkRule {
    pub identifier: String,
    pub tunnel_name: Option<String>,
    pub always_vpn: bool,
    pub never_vpn: bool,
    pub session_vpn: bool,
}

/// A tunnel the store knows about, with its kill-switch flag.
#[derive(Debug, Clone)]
pub struct TunnelInfo {
    pub name: String,
    pub protocol: String,
    pub kill_switch: bool,
}

/// The whole persisted configuration.
#[derive(Debug, Clone)]
pub struct AppConfig {
    pub network_rules: Vec<NetworkRule>,
    pub default_profile: Option<String>,
    pub last_connected: Option<String>,
    pub auto_reconnect: bool,
    pub kill_switch: bool,
    pub notifications: bool,
    pub known_tunnels: Vec<TunnelInfo>,
}

impl Default for AppConfig {
    /// The empty configuration used when nothing can be loaded.
    fn default() -> (r: AppConfig)
        ensures
            r.network_rules@.len() == 0,
            r.default_profile is None,
            r.last_connected is None,
            !r.auto_reconnect,
            !r.kill_switch,
            !r.notifications,
            r.known_tunnels@.len() == 0,
    {
        AppConfig {
            network_rules: Vec::new(),
            default_profile: None,
            last_connected: None,
            auto_reconnect: false,
            kill_switch: false,
            notifications: false,
            known_tunnels: Vec::new(),
        }
    }
}

/// A control character in the sense of Unicode's `Cc` category.
pub open spec fn is_control_char(c: char) -> bool {
    (c as u32) < 32 || (127 <= (c as u32) <= 159)
}

/// An identifier a rule may be saved under: long enough to hold a
/// prefix and a name, and free of control characters.
pub open spec fn rule_id_ok(id: Seq<char>) -> bool {
    id.len() > 5 && (forall|k: int| 0 <= k < id.len() ==> !is_control_char(id[k]))
}

/// Whether `s` names an identifier a rule may be saved under.
pub fn rule_id_ok_exec(s: &String) -> (r: bool)
    ensures
        r == rule_id_ok(s@),
{
    let v = str_chars(s.as_str());
    if v.len() <= 5 {
        return false;
    }
    let mut i: usize = 0;
    while i < v.len()
        invariant
            i <= v@.len(),
            v@ == s@,
            forall|k: int| 0 <= k < i ==> !is_control_char(s@[k]),
        decreases v@.len() - i,
    {
        let cv = v[i] as u32;
        if cv < 32 || (127 <= cv && cv <= 159) {
            return false;
        }
        i = i + 1;
    }
    true
}

/// A rule as it is written out: an empty tunnel name becomes `None`.
pub open spec fn norm_rule(r: NetworkRule) -> NetworkRule {
    NetworkRule {
        tunnel_name: match r.tunnel_name {
            Some(s) => if s@.len() == 0 {
                None
            } else {
                Some(s)
            },
            None => None,
        },
        ..r
    }
}

/// The rules that survive a save: suspicious identifiers dropped,
/// empty tunnel names normalised away.
pub open spec fn spec_sanitize_rules(rs: Seq<NetworkRule>) -> Seq<NetworkRule>
    decreases rs.len(),
{
    if rs.len() == 0 {
        Seq::<NetworkRule>::empty()
    } else {
        let rest = spec_sanitize_rules(rs.drop_last());
        if rule_id_ok(rs.last().identifier@) {
            rest.push(norm_rule(rs.last()))
        } else {
            rest
        }
    }
}

pub fn clone_opt_string(o: &Option<String>) -> (r: Option<String>)
    ensures
        r == *o,
{
    match o {
        Some(s) => Some(s.clone()),
        None => None,
    }
}

pub fn clone_rule(r: &NetworkRule) -> (c: NetworkRule)
    ensures
        c == *r,
{
    NetworkRule {
        identifier: r.identifier.clone(),
        tunnel_name: clone_opt_string(&r.tunnel_name),
        always_vpn: r.always_vpn,
        never_vpn: r.never_vpn,
        session_vpn: r.session_vpn,
    }
}

pub fn clone_tunnel_info(t: &TunnelInfo) -> (c: TunnelInfo)
    ensures
        c == *t,
{
    TunnelInfo { name: t.name.clone(), protocol: t.protocol.clone(), kill_switch: t.kill_switch }
}

pub fn clone_rules(rs: &Vec<NetworkRule>) -> (c: Vec<NetworkRule>)
    ensures
        c@ == rs@,
{
    let mut out: Vec<NetworkRule> = Vec::new();
    let mut i: usize = 0;
    while i < rs.len()
        invariant
            i <= rs@.len(),
            out@ == rs@.take(i as int),
        decreases rs@.len() - i,
    {
        out.push(clone_rule(&rs[i]));
        assert(out@ =~= rs@.take(i + 1));
        i = i + 1;
    }
    assert(out@ =~= rs@);
    out
}

pub fn clone_tunnels(ts: &Vec<TunnelInfo>) -> (c: Vec<TunnelInfo>)
    ensures
        c@ == ts@,
{
    let mut out: Vec<TunnelInfo> = Vec::new();
    let mut i: usize = 0;
    while i < ts.len()
        invariant
            i <= ts@.len(),
            out@ == ts@.take(i as int),
        decreases ts@.len() - i,
    {
        out.push(clone_tunnel_info(&ts[i]));
        assert(out@ =~= ts@.take(i + 1));
        i = i + 1;
    }
    assert(out@ =~= ts@);
    out
}

/// The first rule keyed by `id`.
pub open spec fn spec_find_rule(rs: Seq<NetworkRule>, id: Seq<char>) -> Option<NetworkRule>
    decreases rs.len(),
{
    if rs.len() == 0 {
        None
    } else if rs[0].identifier@ == id {
        Some(rs[0])
    } else {
        spec_find_rule(rs.drop_first(), id)
    }
}

/// The rules not keyed by `id`, in order.
pub open spec fn spec_remove_rules(rs: Seq<NetworkRule>, id: Seq<char>) -> Seq<NetworkRule>
    decreases rs.len(),
{
    if rs.len() == 0 {
        Seq::<NetworkRule>::empty()
    } else {
        let rest = spec_remove_rules(rs.drop_last(), id);
        if rs.last().identifier@ == id {
            rest
        } else {
            rest.push(rs.last())
        }
    }
}

/// A session rule keyed by `id` exists.
pub open spec fn spec_has_session(rs: Seq<NetworkRule>, id: Seq<char>) -> bool {
    exists|k: int| 0 <= k < rs.len() && (#[trigger] rs[k]).identifier@ == id && rs[k].session_vpn
}

/// The rules with any session rule keyed by `id` dropped.
pub open spec fn spec_remove_session(rs: Seq<NetworkRule>, id: Seq<char>) -> Seq<NetworkRule>
    decreases rs.len(),
{
    if rs.len() == 0 {
        Seq::<NetworkRule>::empty()
    } else {
        let rest = spec_remove_session(rs.drop_last(), id);
        if rs.last().identifier@ == id && rs.last().session_vpn {
            rest
        } else {
            rest.push(rs.last())
        }
    }
}

/// The first known tunnel named `name`.
pub open spec fn spec_find_tunnel(ts: Seq<TunnelInfo>, name: Seq<char>) -> Option<TunnelInfo>
    decreases ts.len(),
{
    if ts.len() == 0 {
        None
    } else if ts[0].name@ == name {
        Some(ts[0])
    } else {
        spec_find_tunnel(ts.drop_first(), name)
    }
}

/// Appending a tunnel named `name` to a list without one makes it the
/// one the lookup finds.
pub proof fn lemma_find_tunnel_push(ts: Seq<TunnelInfo>, t: TunnelInfo, name: Seq<char>)
    requires
        spec_find_tunnel(ts, name) is None,
        t.name@ == name,
    ensures
        spec_find_tunnel(ts.push(t), name) == Some(t),
    decreases ts.len(),
{
    if ts.len() == 0 {
        assert(ts.push(t)[0] == t);
    } else {
        lemma_find_tunnel_push(ts.drop_first(), t, name);
        assert(ts.push(t).drop_first() =~= ts.drop_first().push(t));
        assert(ts.push(t)[0] == ts[0]);
    }
}

/// The first known tunnel named `name`, by position.
pub open spec fn spec_tunnel_pos(ts: Seq<TunnelInfo>, name: Seq<char>) -> Option<int>
    decreases ts.len(),
{
    if ts.len() == 0 {
        None
    } else if ts[0].name@ == name {
        Some(0)
    } else {
        match spec_tunnel_pos(ts.drop_first(), name) {
            Some(i) => Some(i + 1),
            None => None,
        }
    }
}

/// The lookup finds the entry at the first matching position.
pub proof fn lemma_find_at_tunnel_pos(ts: Seq<TunnelInfo>, name: Seq<char>)
    ensures
        spec_tunnel_pos(ts, name) matches Some(i) ==> 0 <= i < ts.len() && ts[i].name@ == name
            && spec_find_tunnel(ts, name) == Some(ts[i]),
        spec_tunnel_pos(ts, name) is None ==> spec_find_tunnel(ts, name) is None,
    decreases ts.len(),
{
    if ts.len() > 0 && ts[0].name@ != name {
        lemma_find_at_tunnel_pos(ts.drop_first(), name);
    }
}

/// Updating the first entry named `name` makes the lookup return the
/// new entry.
pub proof fn lemma_find_tunnel_update_first(
    ts: Seq<TunnelInfo>,
    name: Seq<char>,
    i: int,
    t: TunnelInfo,
)
    requires
        spec_tunnel_pos(ts, name) == Some(i),
        t.name@ == name,
    ensures
        spec_find_tunnel(ts.update(i, t), name) == Some(t),
    decreases ts.len(),
{
    lemma_find_at_tunnel_pos(ts, name);
    if i == 0 {
        assert(ts.update(0, t)[0] == t);
    } else {
        lemma_find_tunnel_update_first(ts.drop_first(), name, i - 1, t);
        assert(ts.update(i, t)[0] == ts[0]);
        assert(ts.update(i, t).drop_first() =~= ts.drop_first().update(i - 1, t));
    }
}

/// Finds the position of the first known tunnel named `name`.
pub fn find_tunnel_pos(ts: &Vec<TunnelInfo>, name: &str) -> (r: Option<usize>)
    ensures
        match r {
            Some(i) => i < ts@.len() && spec_tunnel_pos(ts@, name@) == Some(i as int),
            None => spec_tunnel_pos(ts@, name@) is None,
        },
{
    let nv = str_chars(name);
    let ghost s = ts@;
    proof {
        assert(s.skip(0) =~= s);
    }
    let mut i: usize = 0;
    while i < ts.len()
        invariant
            i <= ts@.len(),
            s == ts@,
            nv@ == name@,
            spec_tunnel_pos(s, name@) == match spec_tunnel_pos(s.skip(i as int), name@) {
                Some(j) => Some(i + j),
                None => None::<int>,
            },
        decreases ts@.len() - i,
    {
        proof {
            assert(s.skip(i as int)[0] == s[i as int]);
            assert(s.skip(i as int).drop_first() =~= s.skip(i + 1));
        }
        let tv = str_chars(ts[i].name.as_str());
        if chars_eq(&tv, &nv) {
            return Some(i);
        }
        i = i + 1;
    }
    proof {
        assert(s.skip(s.len() as int) =~= Seq::<TunnelInfo>::empty());
    }
    None
}

/// The known tunnels not named `name`, in order.
pub open spec fn spec_remove_tunnels(ts: Seq<TunnelInfo>, name: Seq<char>) -> Seq<TunnelInfo>
    decreases ts.len(),
{
    if ts.len() == 0 {
        Seq::<TunnelInfo>::empty()
    } else {
        let rest = spec_remove_tunnels(ts.drop_last(), name);
        if ts.last().name@ == name {
            rest
        } else {
            rest.push(ts.last())
        }
    }
}

/// The saved kill-switch flag of tunnel `name`, `false` when unknown.
pub open spec fn spec_tunnel_ks(ts: Seq<TunnelInfo>, name: Seq<char>) -> bool {
    match spec_find_tunnel(ts, name) {
        Some(t) => t.kill_switch,
        None => false,
    }
}

/// Finds the first rule keyed by `id`.
pub fn find_rule(rules: &Vec<NetworkRule>, id: &str) -> (r: Option<NetworkRule>)
    ensures
        r == spec_find_rule(rules@, id@),
{
    let idv = str_chars(id);
    let ghost rs = rules@;
    proof {
        assert(rs.skip(0) =~= rs);
    }
    let mut i: usize = 0;
    while i < rules.len()
        invariant
            i <= rules@.len(),
            rs == rules@,
            idv@ == id@,
            spec_find_rule(rs, id@) == spec_find_rule(rs.skip(i as int), id@),
        decreases rules@.len() - i,
    {
        proof {
            assert(rs.skip(i as int)[0] == rs[i as int]);
            assert(rs.skip(i as int).drop_first() =~= rs.skip(i + 1));
        }
        let rv = str_chars(rules[i].identifier.as_str());
        if chars_eq(&rv, &idv) {
            return Some(clone_rule(&rules[i]));
        }
        i = i + 1;
    }
    proof {
        assert(rs.skip(rs.len() as int) =~= Seq::<NetworkRule>::empty());
    }
    None
}

/// Removes every rule keyed by `id`.
pub fn remove_rules(rules: &Vec<NetworkRule>, id: &str) -> (r: Vec<NetworkRule>)
    ensures
        r@ == spec_remove_rules(rules@, id@),
{
    let idv = str_chars(id);
    let mut out: Vec<NetworkRule> = Vec::new();
    let mut i: usize = 0;
    while i < rules.len()
        invariant
            i <= rules@.len(),
            idv@ == id@,
            out@ == spec_remove_rules(rules@.take(i as int), id@),
        decreases rules@.len() - i,
    {
        proof {
            assert(rules@.take(i + 1).drop_last() =~= rules@.take(i as int));
            assert(rules@.take(i + 1).last() == rules@[i as int]);
        }
        let rv = str_chars(rules[i].identifier.as_str());
        if !chars_eq(&rv, &idv) {
            out.push(clone_rule(&rules[i]));
        }
        i = i + 1;
    }
    proof {
        assert(rules@.take(rules@.len() as int) =~= rules@);
    }
    out
}

/// Removes any session rule keyed by `id`, and reports whether one
/// was there.
pub fn remove_session_rules(rules: &Vec<NetworkRule>, id: &str) -> (r: (bool, Vec<NetworkRule>))
    ensures
        r.0 == spec_has_session(rules@, id@),
        r.1@ == spec_remove_session(rules@, id@),
{
    let idv = str_chars(id);
    let mut had = false;
    let mut out: Vec<NetworkRule> = Vec::new();
    let mut i: usize = 0;
    while i < rules.len()
        invariant
            i <= rules@.len(),
            idv@ == id@,
            had == spec_has_session(rules@.take(i as int), id@),
            out@ == spec_remove_session(rules@.take(i as int), id@),
        decreases rules@.len() - i,
    {
        proof {
            assert(rules@.take(i + 1).drop_last() =~= rules@.take(i as int));
            assert(rules@.take(i + 1).last() == rules@[i as int]);
        }
        let rv = str_chars(rules[i].identifier.as_str());
        let ghost pre = rules@.take(i as int);
        if chars_eq(&rv, &idv) && rules[i].session_vpn {
            had = true;
            proof {
                assert(rules@.take(i + 1)[i as int] == rules@[i as int]);
                assert(spec_has_session(rules@.take(i + 1), id@));
            }
        } else {
            out.push(clone_rule(&rules[i]));
            proof {
                assert forall|k: int| 0 <= k < rules@.take(i + 1).len() implies (
                #[trigger] rules@.take(i + 1)[k] == if k < i {
                    pre[k]
                } else {
                    rules@[i as int]
                }) by {}
                if !had {
                    assert(!spec_has_session(rules@.take(i + 1), id@)) by {
                        if spec_has_session(rules@.take(i + 1), id@) {
                            let k = choose|k: int|
                                0 <= k < rules@.take(i + 1).len() && (#[trigger] rules@.take(
                                    i + 1,
                                )[k]).identifier@ == id@ && rules@.take(i + 1)[k].session_vpn;
                            if k < i {
                                assert(pre[k] == rules@.take(i + 1)[k]);
                                assert(spec_has_session(pre, id@));
                            }
                        }
                    }
                } else {
                    let k = choose|k: int|
                        0 <= k < pre.len() && (#[trigger] pre[k]).identifier@ == id@
                            && pre[k].session_vpn;
                    assert(rules@.take(i + 1)[k] == pre[k]);
                    assert(spec_has_session(rules@.take(i + 1), id@));
                }
            }
        }
        i = i + 1;
    }
    proof {
        assert(rules@.take(rules@.len() as int) =~= rules@);
    }
    (had, out)
}

/// Finds the first known tunnel named `name`.
pub fn find_tunnel(ts: &Vec<TunnelInfo>, name: &str) -> (r: Option<TunnelInfo>)
    ensures
        r == spec_find_tunnel(ts@, name@),
{
    let nv = str_chars(name);
    let ghost s = ts@;
    proof {
        assert(s.skip(0) =~= s);
    }
    let mut i: usize = 0;
    while i < ts.len()
        invariant
            i <= ts@.len(),
            s == ts@,
            nv@ == name@,
            spec_find_tunnel(s, name@) == spec_find_tunnel(s.skip(i as int), name@),
        decreases ts@.len() - i,
    {
        proof {
            assert(s.skip(i as int)[0] == s[i as int]);
            assert(s.skip(i as int).drop_first() =~= s.skip(i + 1));
        }
        let tv = str_chars(ts[i].name.as_str());
        if chars_eq(&tv, &nv) {
            return Some(clone_tunnel_info(&ts[i]));
        }
        i = i + 1;
    }
    proof {
        assert(s.skip(s.len() as int) =~= Seq::<TunnelInfo>::empty());
    }
    None
}

/// Removes every known tunnel named `name`.
pub fn remove_tunnels(ts: &Vec<TunnelInfo>, name: &str) -> (r: Vec<TunnelInfo>)
    ensures
        r@ == spec_remove_tunnels(ts@, name@),
{
    let nv = str_chars(name);
    let mut out: Vec<TunnelInfo> = Vec::new();
    let mut i: usize = 0;
    while i < ts.len()
        invariant
            i <= ts@.len(),
            nv@ == name@,
            out@ == spec_remove_tunnels(ts@.take(i as int), name@),
        decreases ts@.len() - i,
    {
        proof {
            assert(ts@.take(i + 1).drop_last() =~= ts@.take(i as int));
            assert(ts@.take(i + 1).last() == ts@[i as int]);
        }
        let tv = str_chars(ts[i].name.as_str());
        if !chars_eq(&tv, &nv) {
            out.push(clone_tunnel_info(&ts[i]));
        }
        i = i + 1;
    }
    proof {
        assert(ts@.take(ts@.len() as int) =~= ts@);
    }
    out
}

/// Re-registers tunnel `name`: any old entries leave, one wireguard
/// entry arrives at the end, keeping the kill-switch flag the first
/// old entry carried.
pub fn upsert_known_tunnel(ts: &Vec<TunnelInfo>, name: &str) -> (r: Vec<TunnelInfo>)
    ensures
        r@.len() == spec_remove_tunnels(ts@, name@).len() + 1,
        r@.drop_last() == spec_remove_tunnels(ts@, name@),
        r@.last().name@ == name@,
        r@.last().protocol@ == "wireguard"@,
        r@.last().kill_switch == spec_tunnel_ks(ts@, name@),
{
    let existing_ks = match find_tunnel(ts, name) {
        Some(t) => t.kill_switch,
        None => false,
    };
    let mut out = remove_tunnels(ts, name);
    let ghost kept = out@;
    out.push(
        TunnelInfo {
            name: String::from_str(name),
            protocol: String::from_str("wireguard"),
            kill_switch: existing_ks,
        },
    );
    proof {
        assert(out@.drop_last() =~= kept);
    }
    out
}

/// A rule as it stands after tunnel `name` is deleted: a rule that
/// pointed at it loses its tunnel, everything else is untouched.
pub open spec fn spec_clear_tunnel(r: NetworkRule, name: Seq<char>) -> NetworkRule {
    NetworkRule {
        tunnel_name: match r.tunnel_name {
            Some(t) => if t@ == name {
                None
            } else {
                Some(t)
            },
            None => None,
        },
        ..r
    }
}

/// Takes a deleted tunnel out of every rule that pointed at it.
pub fn clear_tunnel_from_rules(rules: &Vec<NetworkRule>, name: &str) -> (r: Vec<NetworkRule>)
    ensures
        r@.len() == rules@.len(),
        forall|k: int| 0 <= k < rules@.len() ==> r@[k] == spec_clear_tunnel(
            #[trigger] rules@[k],
            name@,
        ),
{
    let nv = str_chars(name);
    let mut out: Vec<NetworkRule> = Vec::new();
    let mut i: usize = 0;
    while i < rules.len()
        invariant
            i <= rules@.len(),
            nv@ == name@,
            out@.len() == i,
            forall|k: int| 0 <= k < i ==> out@[k] == spec_clear_tunnel(
                #[trigger] rules@[k],
                name@,
            ),
        decreases rules@.len() - i,
    {
        let r = &rules[i];
        let tunnel_name = match &r.tunnel_name {
            Some(t) => {
                let tv = str_chars(t.as_str());
                if chars_eq(&tv, &nv) {
                    None
                } else {
                    Some(t.clone())
                }
            },
            None => None,
        };
        out.push(
            NetworkRule {
                identifier: r.identifier.clone(),
                tunnel_name,
                always_vpn: r.always_vpn,
                never_vpn: r.never_vpn,
                session_vpn: r.session_vpn,
            },
        );
        i = i + 1;
    }
    out
}

impl AppConfig {
    pub fn clone_config(&self) -> (c: AppConfig)
        ensures
            c.network_rules@ == self.network_rules@,
            c.default_profile == self.default_profile,
            c.last_connected == self.last_connected,
            c.auto_reconnect == self.auto_reconnect,
            c.kill_switch == self.kill_switch,
            c.notifications == self.notifications,
            c.known_tunnels@ == self.known_tunnels@,
    {
        AppConfig {
            network_rules: clone_rules(&self.network_rules),
            default_profile: clone_opt_string(&self.default_profile),
            last_connected: clone_opt_string(&self.last_connected),
            auto_reconnect: self.auto_reconnect,
            kill_switch: self.kill_switch,
            notifications: self.notifications,
            known_tunnels: clone_tunnels(&self.known_tunnels),
        }
    }

    /// The configuration as it is written to disk: every field kept,
    /// except that the rule list is sanitised.
    pub fn sanitized(&self) -> (r: AppConfig)
        ensures
            r.network_rules@ == spec_sanitize_rules(self.network_rules@),
            r.default_profile == self.default_profile,
            r.last_connected == self.last_connected,
            r.auto_reconnect == self.auto_reconnect,
            r.kill_switch == self.kill_switch,
            r.notifications == self.notifications,
            r.known_tunnels@ == self.known_tunnels@,
    {
        let mut rules: Vec<NetworkRule> = Vec::new();
        let mut i: usize = 0;
        while i < self.network_rules.len()
            invariant
                i <= self.network_rules@.len(),
                rules@ == spec_sanitize_rules(self.network_rules@.take(i as int)),
            decreases self.network_rules@.len() - i,
        {
            let r = &self.network_rules[i];
            proof {
                assert(self.network_rules@.take(i + 1).drop_last() =~= self.network_rules@.take(
                    i as int,
                ));
            }
            if rule_id_ok_exec(&r.identifier) {
                let tunnel_name = match &r.tunnel_name {
                    Some(s) => if s.as_str().unicode_len() == 0 {
                        None
                    } else {
                        Some(s.clone())
                    },
                    None => None,
                };
                rules.push(
                    NetworkRule {
                        identifier: r.identifier.clone(),
                        tunnel_name,
                        always_vpn: r.always_vpn,
                        never_vpn: r.never_vpn,
                        session_vpn: r.session_vpn,
                    },
                );
            }
            i = i + 1;
        }
        assert(self.network_rules@.take(self.network_rules@.len() as int)
            =~= self.network_rules@);
        AppConfig {
            network_rules: rules,
            default_profile: clone_opt_string(&self.default_profile),
            last_connected: clone_opt_string(&self.last_connected),
            auto_reconnect: self.auto_reconnect,
            kill_switch: self.kill_switch,
            notifications: self.notifications,
            known_tunnels: clone_tunnels(&self.known_tunnels),
        }
    }
}

} // verus!
