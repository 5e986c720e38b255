//! Tunnel profiles: the union of what the helper's listing, the live
//! interfaces and the persisted store know, with the store's
//! self-healing rule.

use vstd::prelude::*;
use crate::config::{TunnelInfo, clone_tunnel_info};
use crate::strutil::{
    str_chars, chars_string, chars_trim, chars_eq, chars_lex_le, lines_of, split_exact,
    spec_trim, spec_lines, spec_split, views, lex_le, lemma_lex_le_total,
};
use crate::wgstatus::opt_view;
use vstd::seq_lib::{
    to_multiset_build, to_multiset_insert, to_multiset_contains, to_multiset_len,
    to_multiset_remove,
};

verus! {

/// One tunnel profile, with its live-connection flag.
#[derive(Debug, Clone)]
pub struct WgProfile {
    pub name: String,
    pub protocol: String,
    pub connected: bool,
}

pub fn clone_profile(p: &WgProfile) -> (c: WgProfile)
    ensures
        c == *p,
{
    WgProfile { name: p.name.clone(), protocol: p.protocol.clone(), connected: p.connected }
}

/// The non-empty trimmed lines of the helper's `config-list` output.
pub open spec fn spec_config_names(lines: Seq<Seq<char>>) -> Seq<Seq<char>>
    decreases lines.len(),
{
    if lines.len() == 0 {
        Seq::<Seq<char>>::empty()
    } else {
        let rest = spec_config_names(lines.drop_last());
        let t = spec_trim(lines.last());
        if t.len() > 0 {
            rest.push(t)
        } else {
            rest
        }
    }
}

/// The interface name a link line carries, when it has one.
pub open spec fn spec_link_name(l: Seq<char>) -> Option<Seq<char>> {
    let p = spec_split(l, ':');
    if p.len() >= 2 {
        let n = spec_split(spec_trim(p[1]), '@')[0];
        if n.len() > 0 {
            Some(n)
        } else {
            None
        }
    } else {
        None
    }
}

/// The interface names of a link listing, in order.
pub open spec fn spec_link_names(lines: Seq<Seq<char>>) -> Seq<Seq<char>>
    decreases lines.len(),
{
    if lines.len() == 0 {
        Seq::<Seq<char>>::empty()
    } else {
        let rest = spec_link_names(lines.drop_last());
        match spec_link_name(lines.last()) {
            Some(n) => rest.push(n),
            None => rest,
        }
    }
}

/// `n` names a config the helper or the live interfaces vouch for.
pub open spec fn spec_valid_name(
    cl: Option<Seq<char>>,
    lt: Option<Seq<char>>,
    n: Seq<char>,
) -> bool {
    ||| (cl matches Some(s) && spec_config_names(spec_lines(s)).contains(n))
    ||| (lt matches Some(s) && spec_link_names(spec_lines(s)).contains(n))
}

/// The store entries that survive the self-healing prune: everything
/// that is not a wireguard entry, and every wireguard entry whose
/// config is still vouched for.
pub open spec fn spec_prune(
    ts: Seq<TunnelInfo>,
    cl: Option<Seq<char>>,
    lt: Option<Seq<char>>,
) -> Seq<TunnelInfo>
    decreases ts.len(),
{
    if ts.len() == 0 {
        Seq::<TunnelInfo>::empty()
    } else {
        let rest = spec_prune(ts.drop_last(), cl, lt);
        let t = ts.last();
        if t.protocol@ != "wireguard"@ || spec_valid_name(cl, lt, t.name@) {
            rest.push(t)
        } else {
            rest
        }
    }
}

/// Adds `t` to the collection unless an equal name is already there.
fn push_unique(valid: &mut Vec<Vec<char>>, t: Vec<char>)
    ensures
        final(valid)@ == old(valid)@ || final(valid)@ == old(valid)@.push(t),
        views(final(valid)@).contains(t@),
        forall|n: Seq<char>|
            views(old(valid)@).contains(n) ==> views(final(valid)@).contains(n),
        forall|n: Seq<char>|
            views(final(valid)@).contains(n) ==> views(old(valid)@).contains(n) || n == t@,
{
    let mut k: usize = 0;
    while k < valid.len()
        invariant
            k <= valid@.len(),
            valid@ == old(valid)@,
            forall|j: int| 0 <= j < k ==> (#[trigger] valid@[j]@) != t@,
        decreases valid@.len() - k,
    {
        if chars_eq(&valid[k], &t) {
            proof {
                assert(views(valid@)[k as int] == t@);
            }
            return ;
        }
        k = k + 1;
    }
    let ghost before = valid@;
    valid.push(t);
    proof {
        assert(views(valid@)[before.len() as int] == t@);
        assert forall|n: Seq<char>| views(before).contains(n) implies views(valid@).contains(
            n,
        ) by {
            let w = choose|w: int| 0 <= w < views(before).len() && views(before)[w] == n;
            assert(views(valid@)[w] == n);
        }
        assert forall|n: Seq<char>| views(valid@).contains(n) implies views(before).contains(n)
            || n == t@ by {
            let w = choose|w: int| 0 <= w < views(valid@).len() && views(valid@)[w] == n;
            if w < before.len() {
                assert(views(before)[w] == n);
            }
        }
    }
}

/// Collects the vouched-for names, without duplicates.
fn collect_valid(config_list: &Option<String>, link_text: &Option<String>) -> (r: Vec<Vec<char>>)
    ensures
        forall|k: int| 0 <= k < r@.len() ==> spec_valid_name(
            opt_view(*config_list),
            opt_view(*link_text),
            #[trigger] r@[k]@,
        ),
        forall|n: Seq<char>|
            spec_valid_name(opt_view(*config_list), opt_view(*link_text), n) ==> views(
                r@,
            ).contains(n),
{
    let mut valid: Vec<Vec<char>> = Vec::new();
    let ghost cl = opt_view(*config_list);
    let ghost lt = opt_view(*link_text);
    match config_list {
        Some(s) => {
            let sv = str_chars(s.as_str());
            let lines = lines_of(&sv);
            let ghost sl = spec_lines(s@);
            let mut i: usize = 0;
            while i < lines.len()
                invariant
                    i <= lines@.len(),
                    views(lines@) == sl,
                    sl == spec_lines(s@),
                    cl == Some(s@),
                    forall|k: int| 0 <= k < valid@.len() ==> spec_config_names(sl.take(
                        i as int,
                    )).contains(#[trigger] valid@[k]@),
                    forall|n: Seq<char>| #[trigger]
                        spec_config_names(sl.take(i as int)).contains(n) ==> views(
                            valid@,
                        ).contains(n),
                decreases lines@.len() - i,
            {
                proof {
                    assert(sl.take(i + 1).drop_last() =~= sl.take(i as int));
                    assert(sl.take(i + 1).last() == lines@[i as int]@);
                }
                let t = chars_trim(&lines[i]);
                let ghost pre = spec_config_names(sl.take(i as int));
                let ghost post = spec_config_names(sl.take(i + 1));
                if t.len() > 0 {
                    let ghost tv = t@;
                    let ghost before = valid@;
                    push_unique(&mut valid, t);
                    proof {
                        assert(post == pre.push(tv));
                        assert forall|k: int| 0 <= k < valid@.len() implies spec_config_names(
                            sl.take(i + 1),
                        ).contains(#[trigger] valid@[k]@) by {
                            assert(views(valid@)[k] == valid@[k]@);
                            assert(views(valid@).contains(valid@[k]@));
                            if views(before).contains(valid@[k]@) {
                                let w = choose|w: int|
                                    0 <= w < before.len() && views(before)[w] == valid@[k]@;
                                assert(pre.contains(before[w]@));
                                let u = choose|u: int| 0 <= u < pre.len() && pre[u] == valid@[k]@;
                                assert(post[u] == valid@[k]@);
                            } else {
                                assert(valid@[k]@ == tv);
                                assert(post.last() == tv);
                            }
                        }
                        assert forall|n: Seq<char>| #[trigger] post.contains(n) implies views(
                            valid@,
                        ).contains(n) by {
                            let j = choose|j: int| 0 <= j < post.len() && post[j] == n;
                            if j < pre.len() {
                                assert(pre[j] == n);
                                assert(pre.contains(n));
                                assert(views(before).contains(n));
                            } else {
                                assert(n == tv);
                            }
                        }
                    }
                } else {
                    proof {
                        assert(post == pre);
                    }
                }
                i = i + 1;
            }
            proof {
                assert(sl.take(sl.len() as int) =~= sl);
            }
        },
        None => {},
    }
    let ghost after_cl = valid@;
    match link_text {
        Some(s) => {
            let sv = str_chars(s.as_str());
            let lines = lines_of(&sv);
            let ghost sl = spec_lines(s@);
            let mut i: usize = 0;
            while i < lines.len()
                invariant
                    i <= lines@.len(),
                    views(lines@) == sl,
                    sl == spec_lines(s@),
                    lt == Some(s@),
                    forall|k: int| 0 <= k < valid@.len() ==> spec_valid_name(
                        cl,
                        lt,
                        #[trigger] valid@[k]@,
                    ) || spec_link_names(sl.take(i as int)).contains(valid@[k]@),
                    forall|n: Seq<char>|
                        cl is Some && #[trigger] spec_config_names(spec_lines(cl->0)).contains(n)
                            ==> views(valid@).contains(n),
                    forall|n: Seq<char>| #[trigger]
                        spec_link_names(sl.take(i as int)).contains(n) ==> views(
                            valid@,
                        ).contains(n),
                decreases lines@.len() - i,
            {
                proof {
                    assert(sl.take(i + 1).drop_last() =~= sl.take(i as int));
                    assert(sl.take(i + 1).last() == lines@[i as int]@);
                }
                let ghost pre = spec_link_names(sl.take(i as int));
                let ghost post = spec_link_names(sl.take(i + 1));
                let p = split_exact(&lines[i], ':');
                let mut name: Option<Vec<char>> = None;
                if p.len() >= 2 {
                    proof {
                        assert(views(p@)[1] == p@[1]@);
                    }
                    let tr = chars_trim(&p[1]);
                    let q = split_exact(&tr, '@');
                    proof {
                        assert(views(q@)[0] == q@[0]@);
                    }
                    if q[0].len() > 0 {
                        name = Some(crate::strutil::chars_slice(&q[0], 0, q[0].len()));
                        proof {
                            assert(name->0@ =~= q@[0]@);
                        }
                    }
                }
                match name {
                    Some(nv) => {
                        proof {
                            assert(spec_link_name(lines@[i as int]@) == Some(nv@));
                            assert(post == pre.push(nv@));
                        }
                        let ghost tv = nv@;
                        let ghost before = valid@;
                        push_unique(&mut valid, nv);
                        proof {
                            assert forall|k: int| 0 <= k < valid@.len() implies spec_valid_name(
                                cl,
                                lt,
                                #[trigger] valid@[k]@,
                            ) || spec_link_names(sl.take(i + 1)).contains(valid@[k]@) by {
                                assert(views(valid@)[k] == valid@[k]@);
                                assert(views(valid@).contains(valid@[k]@));
                                if views(before).contains(valid@[k]@) {
                                    let w = choose|w: int|
                                        0 <= w < before.len() && views(before)[w] == valid@[k]@;
                                    assert(before[w]@ == valid@[k]@);
                                    if !spec_valid_name(cl, lt, valid@[k]@) {
                                        assert(pre.contains(valid@[k]@));
                                        let u = choose|u: int|
                                            0 <= u < pre.len() && pre[u] == valid@[k]@;
                                        assert(post[u] == valid@[k]@);
                                    }
                                } else {
                                    assert(valid@[k]@ == tv);
                                    assert(post.last() == tv);
                                }
                            }
                            assert forall|n: Seq<char>| #[trigger] post.contains(n) implies views(
                                valid@,
                            ).contains(n) by {
                                let j = choose|j: int| 0 <= j < post.len() && post[j] == n;
                                if j < pre.len() {
                                    assert(pre[j] == n);
                                    assert(pre.contains(n));
                                    assert(views(before).contains(n));
                                } else {
                                    assert(n == tv);
                                }
                            }
                        }
                    },
                    None => {
                        proof {
                            assert(spec_link_name(lines@[i as int]@) is None);
                            assert(post == pre);
                        }
                    },
                }
                i = i + 1;
            }
            proof {
                assert(sl.take(sl.len() as int) =~= sl);
            }
        },
        None => {},
    }
    proof {
        assert forall|n: Seq<char>| spec_valid_name(cl, lt, n) implies views(valid@).contains(
            n,
        ) by {
            if !(cl matches Some(c2) && spec_config_names(spec_lines(c2)).contains(n)) {
                assert(lt matches Some(s2) && spec_link_names(spec_lines(s2)).contains(n));
            }
        }
        assert forall|k: int| 0 <= k < valid@.len() implies spec_valid_name(
            cl,
            lt,
            #[trigger] valid@[k]@,
        ) by {
            if lt is Some {
                assert(spec_valid_name(cl, lt, valid@[k]@) || spec_link_names(
                    spec_lines(lt->0),
                ).contains(valid@[k]@));
            }
        }
    }
    valid
}

/// Whether `n` is among the collected names.
fn valid_contains(valid: &Vec<Vec<char>>, n: &Vec<char>) -> (r: bool)
    ensures
        r == views(valid@).contains(n@),
{
    let mut k: usize = 0;
    while k < valid.len()
        invariant
            k <= valid@.len(),
            forall|j: int| 0 <= j < k ==> (#[trigger] valid@[j]@) != n@,
        decreases valid@.len() - k,
    {
        if chars_eq(&valid[k], n) {
            proof {
                assert(views(valid@)[k as int] == n@);
            }
            return true;
        }
        k = k + 1;
    }
    proof {
        if views(valid@).contains(n@) {
            let j = choose|j: int| 0 <= j < views(valid@).len() && views(valid@)[j] == n@;
            assert(valid@[j]@ == n@);
        }
    }
    false
}

/// The position a name sorts in at: past everything strictly below it.
fn insert_pos(out: &Vec<WgProfile>, xv: &Vec<char>) -> (pos: usize)
    ensures
        pos <= out@.len(),
        forall|a: int| 0 <= a < pos ==> !lex_le(xv@, (#[trigger] out@[a]).name@),
        pos < out@.len() ==> lex_le(xv@, out@[pos as int].name@),
{
    let mut pos: usize = 0;
    while pos < out.len()
        invariant
            pos <= out@.len(),
            forall|a: int| 0 <= a < pos ==> !lex_le(xv@, (#[trigger] out@[a]).name@),
        decreases out@.len() - pos,
    {
        let ov = str_chars(out[pos].name.as_str());
        if chars_lex_le(xv, &ov) {
            return pos;
        }
        pos = pos + 1;
    }
    pos
}

/// Sorts profiles by name.
pub fn sort_profiles(v: Vec<WgProfile>) -> (r: Vec<WgProfile>)
    ensures
        r@.to_multiset() == v@.to_multiset(),
        forall|x: WgProfile| #[trigger] r@.contains(x) <==> v@.contains(x),
        forall|i: int| 0 <= i && i + 1 < r@.len() ==> lex_le(
            #[trigger] r@[i].name@,
            r@[i + 1].name@,
        ),
{
    broadcast use to_multiset_build;
    broadcast use to_multiset_insert;
    broadcast use to_multiset_len;

    let mut out: Vec<WgProfile> = Vec::new();
    let mut i: usize = 0;
    proof {
        assert(v@.take(0) =~= Seq::<WgProfile>::empty());
    }
    while i < v.len()
        invariant
            i <= v@.len(),
            out@.to_multiset() == v@.take(i as int).to_multiset(),
            forall|a: int| 0 <= a && a + 1 < out@.len() ==> lex_le(
                #[trigger] out@[a].name@,
                out@[a + 1].name@,
            ),
        decreases v@.len() - i,
    {
        let x = clone_profile(&v[i]);
        proof {
            assert(v@.take(i + 1).drop_last() =~= v@.take(i as int));
            assert(v@.take(i + 1) =~= v@.take(i as int).push(v@[i as int]));
        }
        let xv = str_chars(x.name.as_str());
        let pos = insert_pos(&out, &xv);
        let ghost old_out = out@;
        out.insert(pos, x);
        proof {
            assert(out@ == old_out.insert(pos as int, x));
            to_multiset_insert(old_out, pos as int, x);
            assert(out@.to_multiset() =~= old_out.to_multiset().insert(x));
            to_multiset_build(v@.take(i as int), v@[i as int]);
            assert(v@.take(i + 1) =~= v@.take(i as int).push(v@[i as int]));
            assert(out@.to_multiset() =~= v@.take(i + 1).to_multiset());
            assert forall|a: int| 0 <= a && a + 1 < out@.len() implies lex_le(
                #[trigger] out@[a].name@,
                out@[a + 1].name@,
            ) by {
                if a + 1 < pos {
                    assert(out@[a] == old_out[a]);
                    assert(out@[a + 1] == old_out[a + 1]);
                } else if a + 1 == pos {
                    assert(out@[a] == old_out[a]);
                    assert(out@[a + 1] == x);
                    lemma_lex_le_total(x.name@, old_out[a].name@);
                } else if a == pos {
                    assert(out@[a] == x);
                    assert(out@[a + 1] == old_out[a]);
                } else {
                    assert(out@[a] == old_out[a - 1]);
                    assert(out@[a + 1] == old_out[a]);
                }
            }
        }
        i = i + 1;
    }
    proof {
        assert(v@.take(v@.len() as int) =~= v@);
        broadcast use to_multiset_contains;
        broadcast use to_multiset_len;

        assert forall|x: WgProfile| #[trigger] out@.contains(x) <==> v@.contains(x) by {
            assert(out@.contains(x) <==> out@.to_multiset().count(x) > 0);
            assert(v@.contains(x) <==> v@.to_multiset().count(x) > 0);
        }
    }
    out
}

/// Builds the profile list and heals the store. The profiles are the
/// persisted wireguard entries joined with every vouched-for config,
/// one per name, each marked connected exactly when it is the live
/// interface, sorted by name. The store is pruned of wireguard
/// entries whose config is gone — but if and only if the helper's
/// listing was actually read; the second result is the pruned store,
/// absent when nothing has to be rewritten.
pub fn build_profiles(
    config_list: &Option<String>,
    link_text: &Option<String>,
    known: &Vec<TunnelInfo>,
    active: &Option<String>,
) -> (r: (Vec<WgProfile>, Option<Vec<TunnelInfo>>))
    ensures
        *config_list is None ==> r.1 is None,
        *config_list is Some ==> {
            let pruned = spec_prune(known@, opt_view(*config_list), opt_view(*link_text));
            if pruned.len() == known@.len() {
                r.1 is None
            } else {
                r.1 matches Some(p) && p@ == pruned
            }
        },
        forall|k: int| 0 <= k < r.0@.len() ==> (#[trigger] r.0@[k]).protocol@ == "wireguard"@
            && r.0@[k].connected == (opt_view(*active) == Some(r.0@[k].name@)),
        forall|i: int, j: int| 0 <= i < j < r.0@.len() ==> (#[trigger] r.0@[i]).name@ != (
        #[trigger] r.0@[j]).name@,
        forall|i: int| 0 <= i && i + 1 < r.0@.len() ==> lex_le(
            #[trigger] r.0@[i].name@,
            r.0@[i + 1].name@,
        ),
        forall|k: int| 0 <= k < r.0@.len() ==> spec_valid_name(
            opt_view(*config_list),
            opt_view(*link_text),
            (#[trigger] r.0@[k]).name@,
        ) || spec_profile_known(
            spec_prune_used(known@, *config_list, opt_view(*link_text)),
            r.0@[k].name@,
        ),
        profiles_complete(
            r.0@,
            spec_prune_used(known@, *config_list, opt_view(*link_text)),
            opt_view(*config_list),
            opt_view(*link_text),
        ),
{
    broadcast use to_multiset_contains;

    let valid = collect_valid(config_list, link_text);
    let ghost cl = opt_view(*config_list);
    let ghost lt = opt_view(*link_text);

    // Heal the store, only when the listing could actually be read.
    let kept: Vec<TunnelInfo>;
    let pruned_out: Option<Vec<TunnelInfo>>;
    match config_list {
        Some(_) => {
            let wg = str_chars("wireguard");
            let mut keep: Vec<TunnelInfo> = Vec::new();
            let mut i: usize = 0;
            while i < known.len()
                invariant
                    i <= known@.len(),
                    wg@ == "wireguard"@,
                    cl is Some,
                    forall|k: int| 0 <= k < valid@.len() ==> spec_valid_name(
                        cl,
                        lt,
                        #[trigger] valid@[k]@,
                    ),
                    forall|n: Seq<char>| spec_valid_name(cl, lt, n) ==> views(valid@).contains(n),
                    keep@ == spec_prune(known@.take(i as int), cl, lt),
                decreases known@.len() - i,
            {
                proof {
                    assert(known@.take(i + 1).drop_last() =~= known@.take(i as int));
                    assert(known@.take(i + 1).last() == known@[i as int]);
                }
                let t = &known[i];
                let pv = str_chars(t.protocol.as_str());
                let nv = str_chars(t.name.as_str());
                let is_wg = chars_eq(&pv, &wg);
                let vouched = valid_contains(&valid, &nv);
                proof {
                    if vouched {
                        let j = choose|j: int|
                            0 <= j < views(valid@).len() && views(valid@)[j] == nv@;
                        assert(spec_valid_name(cl, lt, valid@[j]@));
                    }
                }
                if !is_wg || vouched {
                    keep.push(clone_tunnel_info(t));
                }
                i = i + 1;
            }
            proof {
                assert(known@.take(known@.len() as int) =~= known@);
            }
            if keep.len() != known.len() {
                kept = crate::config::clone_tunnels(&keep);
                pruned_out = Some(keep);
            } else {
                proof {
                    lemma_prune_len_eq(known@, cl, lt);
                }
                kept = keep;
                pruned_out = None;
            }
        },
        None => {
            kept = crate::config::clone_tunnels(known);
            pruned_out = None;
        },
    }

    // The store's wireguard entries first, then any remaining
    // vouched-for configs, one profile per name.
    let wg = str_chars("wireguard");
    let mut profiles: Vec<WgProfile> = Vec::new();
    let ghost kref = spec_prune_used(known@, *config_list, lt);
    proof {
        assert(kept@ == kref);
    }
    let mut i: usize = 0;
    while i < kept.len()
        invariant
            i <= kept@.len(),
            wg@ == "wireguard"@,
            kept@ == kref,
            forall|k: int| 0 <= k < profiles@.len() ==> (#[trigger] profiles@[k]).protocol@
                == "wireguard"@ && profiles@[k].connected == (opt_view(*active) == Some(
                profiles@[k].name@,
            )),
            forall|a: int, b: int| 0 <= a < b < profiles@.len() ==> (
            #[trigger] profiles@[a]).name@ != (#[trigger] profiles@[b]).name@,
            forall|k: int| 0 <= k < profiles@.len() ==> spec_profile_known(
                kref.take(i as int),
                (#[trigger] profiles@[k]).name@,
            ),
            forall|t: Seq<char>| #[trigger]
                spec_profile_known(kref.take(i as int), t) ==> exists|k: int|
                    0 <= k < profiles@.len() && (#[trigger] profiles@[k]).name@ == t,
        decreases kept@.len() - i,
    {
        proof {
            assert(kref.take(i + 1).drop_last() =~= kref.take(i as int));
            assert(kref.take(i + 1).last() == kref[i as int]);
        }
        let t = &kept[i];
        let pv = str_chars(t.protocol.as_str());
        let is_wg = chars_eq(&pv, &wg);
        if is_wg {
            let nv = str_chars(t.name.as_str());
            let ghost prev = profiles@;
            let seen = profile_names_contain(&profiles, &nv);
            if !seen {
                let connected = match active {
                    Some(a) => {
                        let av = str_chars(a.as_str());
                        chars_eq(&av, &nv)
                    },
                    None => false,
                };
                profiles.push(
                    WgProfile {
                        name: t.name.clone(),
                        protocol: String::from_str("wireguard"),
                        connected,
                    },
                );
            }
            proof {
                assert(kref.take(i + 1)[i as int] == kref[i as int]);
                assert(exists|k: int|
                    0 <= k < profiles@.len() && (#[trigger] profiles@[k]).name@
                        == kref[i as int].name@) by {
                    if seen {
                        let w = choose|w: int|
                            0 <= w < prev.len() && (#[trigger] prev[w]).name@ == nv@;
                        assert(profiles@[w].name@ == kref[i as int].name@);
                    } else {
                        assert(profiles@.last().name@ == kref[i as int].name@);
                    }
                }
                assert forall|t2: Seq<char>| #[trigger]
                    spec_profile_known(kref.take(i + 1), t2) implies exists|k: int|
                    0 <= k < profiles@.len() && (#[trigger] profiles@[k]).name@ == t2 by {
                    let kk = choose|kk: int|
                        0 <= kk < kref.take(i + 1).len() && (#[trigger] kref.take(
                            i + 1,
                        )[kk]).name@ == t2 && kref.take(i + 1)[kk].protocol@ == "wireguard"@;
                    if kk < i {
                        assert(kref.take(i as int)[kk] == kref.take(i + 1)[kk]);
                        assert(spec_profile_known(kref.take(i as int), t2));
                        let w = choose|w: int|
                            0 <= w < prev.len() && (#[trigger] prev[w]).name@ == t2;
                        assert(profiles@[w].name@ == t2);
                    } else {
                        assert(t2 == kref[i as int].name@);
                    }
                }
                assert forall|k: int| 0 <= k < profiles@.len() implies spec_profile_known(
                    kref.take(i + 1),
                    (#[trigger] profiles@[k]).name@,
                ) by {
                    if k < prev.len() {
                        assert(profiles@[k] == prev[k]);
                        assert(spec_profile_known(kref.take(i as int), prev[k].name@));
                        let kk = choose|kk: int|
                            0 <= kk < kref.take(i as int).len() && (#[trigger] kref.take(
                                i as int,
                            )[kk]).name@ == prev[k].name@ && kref.take(i as int)[kk].protocol@
                                == "wireguard"@;
                        assert(kref.take(i + 1)[kk] == kref.take(i as int)[kk]);
                    } else {
                        assert(profiles@[k].name@ == kref[i as int].name@);
                        assert(kref.take(i + 1)[i as int].protocol@ == "wireguard"@);
                    }
                }
            }
        } else {
            proof {
                assert(kref.take(i + 1)[i as int] == kref[i as int]);
                assert forall|t2: Seq<char>| #[trigger]
                    spec_profile_known(kref.take(i + 1), t2) implies spec_profile_known(
                    kref.take(i as int),
                    t2,
                ) by {
                    let kk = choose|kk: int|
                        0 <= kk < kref.take(i + 1).len() && (#[trigger] kref.take(
                            i + 1,
                        )[kk]).name@ == t2 && kref.take(i + 1)[kk].protocol@ == "wireguard"@;
                    assert(kk < i);
                    assert(kref.take(i as int)[kk] == kref.take(i + 1)[kk]);
                }
                assert forall|k: int| 0 <= k < profiles@.len() implies spec_profile_known(
                    kref.take(i + 1),
                    (#[trigger] profiles@[k]).name@,
                ) by {
                    assert(spec_profile_known(kref.take(i as int), profiles@[k].name@));
                    let kk = choose|kk: int|
                        0 <= kk < kref.take(i as int).len() && (#[trigger] kref.take(
                            i as int,
                        )[kk]).name@ == profiles@[k].name@ && kref.take(i as int)[kk].protocol@
                            == "wireguard"@;
                    assert(kref.take(i + 1)[kk] == kref.take(i as int)[kk]);
                }
            }
        }
        i = i + 1;
    }
    proof {
        assert(kref.take(kref.len() as int) =~= kref);
    }
    // Any vouched-for configs the store does not know yet.
    let mut k: usize = 0;
    while k < valid.len()
        invariant
            k <= valid@.len(),
            forall|j: int| 0 <= j < valid@.len() ==> spec_valid_name(cl, lt, #[trigger] valid@[j]@),
            forall|n: Seq<char>| spec_valid_name(cl, lt, n) ==> views(valid@).contains(n),
            forall|j: int| 0 <= j < profiles@.len() ==> (#[trigger] profiles@[j]).protocol@
                == "wireguard"@ && profiles@[j].connected == (opt_view(*active) == Some(
                profiles@[j].name@,
            )),
            forall|a: int, b: int| 0 <= a < b < profiles@.len() ==> (
            #[trigger] profiles@[a]).name@ != (#[trigger] profiles@[b]).name@,
            forall|j: int| 0 <= j < profiles@.len() ==> spec_profile_known(
                kref,
                (#[trigger] profiles@[j]).name@,
            ) || spec_valid_name(cl, lt, profiles@[j].name@),
            forall|t: Seq<char>| #[trigger]
                spec_profile_known(kref, t) ==> exists|j: int|
                    0 <= j < profiles@.len() && (#[trigger] profiles@[j]).name@ == t,
            forall|j: int|
                0 <= j < k ==> exists|p: int|
                    0 <= p < profiles@.len() && (#[trigger] profiles@[p]).name@ == (
                    #[trigger] valid@[j]@),
        decreases valid@.len() - k,
    {
        let nv = &valid[k];
        let ghost prev = profiles@;
        let seen = profile_names_contain(&profiles, nv);
        if !seen {
            let connected = match active {
                Some(a) => {
                    let av = str_chars(a.as_str());
                    chars_eq(&av, nv)
                },
                None => false,
            };
            let name = chars_string(nv);
            profiles.push(
                WgProfile { name, protocol: String::from_str("wireguard"), connected },
            );
        }
        proof {
            assert(exists|p: int|
                0 <= p < profiles@.len() && (#[trigger] profiles@[p]).name@ == valid@[k as int]@)
                by {
                if !seen {
                    assert(profiles@.last().name@ == valid@[k as int]@);
                } else {
                    let w = choose|w: int|
                        0 <= w < prev.len() && (#[trigger] prev[w]).name@ == nv@;
                    assert(profiles@[w].name@ == valid@[k as int]@);
                }
            }
            assert forall|t2: Seq<char>| #[trigger] spec_profile_known(kref, t2) implies exists|
                j: int,
            | 0 <= j < profiles@.len() && (#[trigger] profiles@[j]).name@ == t2 by {
                let w = choose|w: int| 0 <= w < prev.len() && (#[trigger] prev[w]).name@ == t2;
                assert(profiles@[w].name@ == t2);
            }
            assert forall|j: int| 0 <= j < k + 1 implies exists|p: int|
                0 <= p < profiles@.len() && (#[trigger] profiles@[p]).name@ == (
                #[trigger] valid@[j]@) by {
                if j < k {
                    let w = choose|w: int|
                        0 <= w < prev.len() && (#[trigger] prev[w]).name@ == valid@[j]@;
                    assert(profiles@[w].name@ == valid@[j]@);
                }
            }
        }
        k = k + 1;
    }
    let sorted = sort_profiles(profiles);
    proof {
        assert forall|j: int| 0 <= j < sorted@.len() implies ((#[trigger] sorted@[j]).protocol@
            == "wireguard"@ && sorted@[j].connected == (opt_view(*active) == Some(
            sorted@[j].name@,
        )) && (spec_valid_name(cl, lt, sorted@[j].name@) || spec_profile_known(
            kref,
            sorted@[j].name@,
        ))) by {
            assert(sorted@.contains(sorted@[j]));
            assert(profiles@.contains(sorted@[j]));
            let w = choose|w: int| 0 <= w < profiles@.len() && profiles@[w] == sorted@[j];
            assert(profiles@[w] == sorted@[j]);
        }
        assert forall|a: int, b: int| 0 <= a < b < sorted@.len() implies (
        #[trigger] sorted@[a]).name@ != (#[trigger] sorted@[b]).name@ by {
            lemma_sorted_distinct(sorted@, profiles@, a, b);
        }
    }
    let result = (sorted, pruned_out);
    proof {
        assert(result.0@ == sorted@);
        assert forall|t: Seq<char>|
            spec_profile_known(kref, t) || spec_valid_name(cl, lt, t) implies exists|k: int|
            0 <= k < sorted@.len() && (#[trigger] sorted@[k]).name@ == t by {
            assert(spec_profile_known(kref, t) || spec_valid_name(cl, lt, t));
            if !spec_profile_known(kref, t) {
                let j = choose|j: int| 0 <= j < views(valid@).len() && views(valid@)[j] == t;
                assert(valid@[j]@ == t);
                assert(exists|p: int|
                    0 <= p < profiles@.len() && (#[trigger] profiles@[p]).name@ == valid@[j]@);
            }
            let p = choose|p: int|
                0 <= p < profiles@.len() && (#[trigger] profiles@[p]).name@ == t;
            assert(profiles@.contains(profiles@[p]));
            assert(sorted@.contains(profiles@[p]));
            let w = choose|w: int| 0 <= w < sorted@.len() && sorted@[w] == profiles@[p];
            assert(sorted@[w].name@ == t);
        }
        assert(profiles_complete(sorted@, kref, cl, lt));
        assert(profiles_complete(
            result.0@,
            spec_prune_used(known@, *config_list, opt_view(*link_text)),
            opt_view(*config_list),
            opt_view(*link_text),
        ));
    }
    result
}

/// The store as the profile builder reads it: pruned when the
/// helper's listing was readable, untouched otherwise.
pub open spec fn spec_prune_used(
    ts: Seq<TunnelInfo>,
    cl: Option<String>,
    lt: Option<Seq<char>>,
) -> Seq<TunnelInfo> {
    match cl {
        Some(s) => spec_prune(ts, Some(s@), lt),
        None => ts,
    }
}

/// Every stored wireguard tunnel and every vouched-for config shows
/// up among the profiles.
pub open spec fn profiles_complete(
    ps: Seq<WgProfile>,
    ts: Seq<TunnelInfo>,
    cl: Option<Seq<char>>,
    lt: Option<Seq<char>>,
) -> bool {
    forall|t: Seq<char>|
        spec_profile_known(ts, t) || spec_valid_name(cl, lt, t) ==> exists|k: int|
            0 <= k < ps.len() && (#[trigger] ps[k]).name@ == t
}

/// Some wireguard entry of `ts` is named `t`.
pub open spec fn spec_profile_known(ts: Seq<TunnelInfo>, t: Seq<char>) -> bool {
    exists|k: int|
        0 <= k < ts.len() && (#[trigger] ts[k]).name@ == t && ts[k].protocol@ == "wireguard"@
}

/// A prune that kept the length kept everything.
proof fn lemma_prune_len_eq(ts: Seq<TunnelInfo>, cl: Option<Seq<char>>, lt: Option<Seq<char>>)
    requires
        spec_prune(ts, cl, lt).len() == ts.len(),
    ensures
        spec_prune(ts, cl, lt) == ts,
    decreases ts.len(),
{
    if ts.len() > 0 {
        lemma_prune_len_eq_helper(ts, cl, lt);
        lemma_prune_len_eq(ts.drop_last(), cl, lt);
        assert(spec_prune(ts, cl, lt) =~= ts);
    } else {
        assert(spec_prune(ts, cl, lt) =~= ts);
    }
}

/// The prune never grows.
proof fn lemma_prune_len_eq_helper(ts: Seq<TunnelInfo>, cl: Option<Seq<char>>, lt: Option<
    Seq<char>,
>)
    requires
        ts.len() > 0,
        spec_prune(ts, cl, lt).len() == ts.len(),
    ensures
        spec_prune(ts.drop_last(), cl, lt).len() == ts.len() - 1,
        spec_prune(ts, cl, lt) == spec_prune(ts.drop_last(), cl, lt).push(ts.last()),
{
    lemma_prune_bound(ts.drop_last(), cl, lt);
}

/// The prune keeps at most every entry.
proof fn lemma_prune_bound(ts: Seq<TunnelInfo>, cl: Option<Seq<char>>, lt: Option<Seq<char>>)
    ensures
        spec_prune(ts, cl, lt).len() <= ts.len(),
    decreases ts.len(),
{
    if ts.len() > 0 {
        lemma_prune_bound(ts.drop_last(), cl, lt);
    }
}

/// Two positions with equal names in a duplicate-free origin cannot
/// both appear after sorting.
proof fn lemma_sorted_distinct(sorted: Seq<WgProfile>, orig: Seq<WgProfile>, a: int, b: int)
    requires
        sorted.to_multiset() == orig.to_multiset(),
        forall|i: int, j: int| 0 <= i < j < orig.len() ==> (#[trigger] orig[i]).name@ != (
        #[trigger] orig[j]).name@,
        0 <= a < b < sorted.len(),
    ensures
        sorted[a].name@ != sorted[b].name@,
{
    broadcast use to_multiset_contains;
    broadcast use to_multiset_len;

    if sorted[a].name@ == sorted[b].name@ {
        if sorted[a] == sorted[b] {
            lemma_dup_count(sorted, a, b);
            assert(orig.to_multiset().count(sorted[a]) >= 2);
            lemma_count_two_positions(orig, sorted[a]);
        } else {
            assert(sorted.to_multiset().contains(sorted[a]));
            assert(sorted.to_multiset().contains(sorted[b]));
            assert(orig.to_multiset().contains(sorted[a]));
            assert(orig.to_multiset().contains(sorted[b]));
            let i = choose|i: int| 0 <= i < orig.len() && orig[i] == sorted[a];
            let j = choose|j: int| 0 <= j < orig.len() && orig[j] == sorted[b];
            assert(i != j);
        }
    }
}

/// A value standing at two positions counts at least twice.
proof fn lemma_dup_count(s: Seq<WgProfile>, a: int, b: int)
    requires
        0 <= a < b < s.len(),
        s[a] == s[b],
    ensures
        s.to_multiset().count(s[a]) >= 2,
{
    broadcast use to_multiset_remove;
    broadcast use to_multiset_contains;
    broadcast use to_multiset_len;

    let r = s.remove(a);
    assert(r.to_multiset() == s.to_multiset().remove(s[a]));
    assert(r[b - 1] == s[b]);
    assert(r.to_multiset().contains(r[b - 1]));
    assert(s.to_multiset().count(s[a]) == r.to_multiset().count(s[a]) + 1);
}

/// A value counting at least twice stands at two positions.
proof fn lemma_count_two_positions(s: Seq<WgProfile>, x: WgProfile)
    requires
        s.to_multiset().count(x) >= 2,
    ensures
        exists|i: int, j: int| 0 <= i < j < s.len() && s[i] == x && s[j] == x,
    decreases s.len(),
{
    broadcast use to_multiset_remove;
    broadcast use to_multiset_contains;
    broadcast use to_multiset_len;

    assert(s.to_multiset().contains(x));
    let i = choose|i: int| 0 <= i < s.len() && s[i] == x;
    let r = s.remove(i);
    assert(r.to_multiset() == s.to_multiset().remove(x));
    assert(r.to_multiset().count(x) >= 1);
    assert(r.to_multiset().contains(x));
    let j = choose|j: int| 0 <= j < r.len() && r[j] == x;
    if j < i {
        assert(s[j] == r[j]);
    } else {
        assert(s[j + 1] == r[j]);
    }
}

/// A filename-safe character: alphanumeric ASCII, `-` or `_`. (The
/// original accepts any alphanumeric; names are ASCII in practice and
/// the helper enforces its own check besides.)
pub open spec fn name_char_ok(c: char) -> bool {
    ||| 48 <= (c as u32) <= 57
    ||| 65 <= (c as u32) <= 90
    ||| 97 <= (c as u32) <= 122
    ||| c == '-'
    ||| c == '_'
}

/// `s` with every character that cannot sit in a filename dropped.
pub open spec fn spec_sanitize_name(s: Seq<char>) -> Seq<char>
    decreases s.len(),
{
    if s.len() == 0 {
        Seq::<char>::empty()
    } else {
        let rest = spec_sanitize_name(s.drop_last());
        if name_char_ok(s.last()) {
            rest.push(s.last())
        } else {
            rest
        }
    }
}

/// Keeps only the filename-safe characters of a profile name; the
/// result is empty exactly when nothing safe remains, and the caller
/// rejects that.
pub fn sanitize_profile_name(name: &str) -> (r: String)
    ensures
        r@ == spec_sanitize_name(name@),
{
    let nv = str_chars(name);
    let mut out: Vec<char> = Vec::new();
    let mut i: usize = 0;
    while i < nv.len()
        invariant
            i <= nv@.len(),
            nv@ == name@,
            out@ == spec_sanitize_name(name@.take(i as int)),
        decreases nv@.len() - i,
    {
        let c = nv[i];
        let cv = c as u32;
        proof {
            assert(name@.take(i + 1).drop_last() =~= name@.take(i as int));
            assert(name@.take(i + 1).last() == name@[i as int]);
        }
        if (48 <= cv && cv <= 57) || (65 <= cv && cv <= 90) || (97 <= cv && cv <= 122) || c == '-'
            || c == '_' {
            out.push(c);
        }
        i = i + 1;
    }
    proof {
        assert(name@.take(name@.len() as int) =~= name@);
    }
    chars_string(&out)
}

/// A tunnel body is plausible when it holds both required sections.
pub fn validate_config_body(body: &str) -> (r: bool)
    ensures
        r == (crate::strutil::contains_seq(body@, "[Interface]"@) && crate::strutil::contains_seq(
            body@,
            "[Peer]"@,
        )),
{
    let bv = str_chars(body);
    crate::strutil::chars_contains(&bv, &str_chars("[Interface]"))
        && crate::strutil::chars_contains(&bv, &str_chars("[Peer]"))
}

/// The host half of an `address:port` endpoint.
pub fn endpoint_host(endpoint: &str) -> (r: String)
    ensures
        r@ == spec_split(endpoint@, ':')[0],
{
    let ev = str_chars(endpoint);
    let p = split_exact(&ev, ':');
    proof {
        assert(views(p@)[0] == p@[0]@);
    }
    chars_string(&p[0])
}

/// Whether some profile carries the name `n`.
fn profile_names_contain(ps: &Vec<WgProfile>, n: &Vec<char>) -> (r: bool)
    ensures
        r == exists|k: int| 0 <= k < ps@.len() && (#[trigger] ps@[k]).name@ == n@,
{
    let mut k: usize = 0;
    while k < ps.len()
        invariant
            k <= ps@.len(),
            forall|j: int| 0 <= j < k ==> (#[trigger] ps@[j]).name@ != n@,
        decreases ps@.len() - k,
    {
        let pv = str_chars(ps[k].name.as_str());
        if chars_eq(&pv, n) {
            return true;
        }
        k = k + 1;
    }
    false
}

} // verus!
