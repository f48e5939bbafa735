//! The status shown in the window: gateway, list size, active routes, VPN
//! interface, and the readers that find a VPN interface in what the system
//! reports about its network interfaces.
use vstd::prelude::*;
use crate::pac::{lowercase, unicode_lowercase};
use crate::text::{
    opt_view,
    chars_of, chars_of_string, contains_chars, contains_spec, first_match, lines, lines_spec,
    split_chars, split_spec, starts_with, starts_with_spec, string_of, trim, trim_spec, views,
    words, words_spec,
};

verus! {

/// What the window shows.
#[derive(Clone, Debug)]
pub struct AppStatus {
    pub gateway: Option<String>,
    pub subnet_count: usize,
    pub active_routes: usize,
    pub vpn_interface: Option<String>,
    pub last_updated: Option<String>,
    pub bypass_enabled: bool,
}


/// The status from what was found out: the gateway if it was detected, the
/// number of networks if the list could be read (else 0), the number of
/// routes read through the gateway (0 when no gateway was detected) and the
/// VPN interface.
pub fn collect(
    bypass_enabled: bool,
    last_updated: Option<String>,
    gateway: Result<String, String>,
    subnets: Result<Vec<String>, String>,
    routes_via_gateway: &Vec<String>,
    vpn_interface: Option<String>,
) -> (r: AppStatus)
    ensures
        opt_view(r.gateway) == match gateway {
            Ok(g) => Some(g@),
            Err(_) => None::<Seq<char>>,
        },
        r.subnet_count == match subnets {
            Ok(v) => v.len(),
            Err(_) => 0,
        },
        r.active_routes == match gateway {
            Ok(_) => routes_via_gateway.len(),
            Err(_) => 0,
        },
        opt_view(r.vpn_interface) == opt_view(vpn_interface),
        opt_view(r.last_updated) == opt_view(last_updated),
        r.bypass_enabled == bypass_enabled,
{
    let subnet_count = match &subnets {
        Ok(v) => v.len(),
        Err(_) => 0,
    };
    let active_routes = match &gateway {
        Ok(_) => routes_via_gateway.len(),
        Err(_) => 0,
    };
    AppStatus {
        gateway: match gateway {
            Ok(g) => Some(g),
            Err(_) => None,
        },
        subnet_count,
        active_routes,
        vpn_interface,
        last_updated,
        bypass_enabled,
    }
}

// ---------------------------------------------------------------------------
// macOS: the first `utun...` word of `netstat -rn`
// ---------------------------------------------------------------------------
pub open spec fn utun_word(w: Seq<char>) -> Option<Seq<char>> {
    if starts_with_spec(w, "utun"@) {
        Some(w)
    } else {
        None
    }
}

pub open spec fn line_utun(l: Seq<char>) -> Option<Seq<char>> {
    first_match(words_spec(l), |w: Seq<char>| utun_word(w))
}

/// The first word, line by line, that starts with `utun`.
pub open spec fn netstat_vpn_spec(text: Seq<char>) -> Option<Seq<char>> {
    first_match(lines_spec(text), |l: Seq<char>| line_utun(l))
}

fn first_utun_word(ws: &Vec<Vec<char>>) -> (r: Option<Vec<char>>)
    ensures
        match r {
            Some(v) => first_match(views(ws@), |w: Seq<char>| utun_word(w)) == Some(v@),
            None => first_match(views(ws@), |w: Seq<char>| utun_word(w)) is None,
        },
{
    let ghost pv = views(ws@);
    let ghost f = |w: Seq<char>| utun_word(w);
    let p = chars_of("utun");
    let mut i: usize = 0;
    assert(pv.skip(0) == pv);
    while i < ws.len()
        invariant
            i <= ws.len(),
            pv == views(ws@),
            p@ == "utun"@,
            f == (|w: Seq<char>| utun_word(w)),
            first_match(pv, f) == first_match(pv.skip(i as int), f),
        decreases ws.len() - i,
    {
        assert(pv.skip(i as int)[0] == ws[i as int]@);
        assert(pv.skip(i as int).drop_first() == pv.skip(i + 1));
        if starts_with(&ws[i], &p) {
            let v = sub_copy(&ws[i]);
            return Some(v);
        }
        i = i + 1;
    }
    None
}

fn sub_copy(v: &Vec<char>) -> (r: Vec<char>)
    ensures
        r@ == v@,
{
    let r = crate::text::sub_chars(v, 0, v.len());
    assert(v@.subrange(0, v@.len() as int) == v@);
    r
}

/// The VPN interface in the routing table that `netstat -rn` prints.
pub fn vpn_from_netstat(text: &str) -> (r: Option<String>)
    ensures
        opt_view(r) == netstat_vpn_spec(text@),
{
    let tc = chars_of(text);
    let ls = lines(&tc);
    let ghost pv = views(ls@);
    let ghost f = |l: Seq<char>| line_utun(l);
    let mut i: usize = 0;
    assert(pv.skip(0) == pv);
    while i < ls.len()
        invariant
            i <= ls.len(),
            pv == views(ls@),
            pv == lines_spec(text@),
            f == (|l: Seq<char>| line_utun(l)),
            first_match(pv, f) == first_match(pv.skip(i as int), f),
        decreases ls.len() - i,
    {
        assert(pv.skip(i as int)[0] == ls[i as int]@);
        assert(pv.skip(i as int).drop_first() == pv.skip(i + 1));
        let ws = words(&ls[i]);
        match first_utun_word(&ws) {
            Some(w) => {
                return Some(string_of(&w));
            },
            None => {},
        }
        i = i + 1;
    }
    None
}

// ---------------------------------------------------------------------------
// Linux: the name on the first `tun`/`ppp` line of `ip link show`
// ---------------------------------------------------------------------------
pub open spec fn tunnel_line(l: Seq<char>) -> Option<Seq<char>> {
    if contains_spec(l, "tun"@) || contains_spec(l, "ppp"@) {
        Some(l)
    } else {
        None
    }
}

/// On the first line that mentions `tun` or `ppp`, the text between its
/// first and second `:`, trimmed.
pub open spec fn ip_link_vpn_spec(text: Seq<char>) -> Option<Seq<char>> {
    match first_match(lines_spec(text), |l: Seq<char>| tunnel_line(l)) {
        None => None,
        Some(l) => {
            let parts = split_spec(l, ':');
            if parts.len() >= 2 {
                Some(trim_spec(parts[1]))
            } else {
                None
            }
        },
    }
}

/// The VPN interface among the links that `ip link show` prints.
pub fn vpn_from_ip_link(text: &str) -> (r: Option<String>)
    ensures
        opt_view(r) == ip_link_vpn_spec(text@),
{
    let tc = chars_of(text);
    let ls = lines(&tc);
    let ghost pv = views(ls@);
    let ghost f = |l: Seq<char>| tunnel_line(l);
    let p1 = chars_of("tun");
    let p2 = chars_of("ppp");
    let mut i: usize = 0;
    assert(pv.skip(0) == pv);
    while i < ls.len()
        invariant
            i <= ls.len(),
            pv == views(ls@),
            pv == lines_spec(text@),
            p1@ == "tun"@,
            p2@ == "ppp"@,
            f == (|l: Seq<char>| tunnel_line(l)),
            first_match(pv, f) == first_match(pv.skip(i as int), f),
        decreases ls.len() - i,
    {
        assert(pv.skip(i as int)[0] == ls[i as int]@);
        assert(pv.skip(i as int).drop_first() == pv.skip(i + 1));
        if contains_chars(&ls[i], &p1) || contains_chars(&ls[i], &p2) {
            let parts = split_chars(&ls[i], ':');
            if parts.len() >= 2 {
                let t = trim(&parts[1]);
                return Some(string_of(&t));
            }
            return None;
        }
        i = i + 1;
    }
    None
}

// ---------------------------------------------------------------------------
// Windows: the first adapter whose description names a tunnel
// ---------------------------------------------------------------------------
/// A lowercased adapter description that names a tunnel or VPN.
pub open spec fn vpn_description(desc: Seq<char>) -> bool {
    ||| contains_spec(desc, "tap"@)
    ||| contains_spec(desc, "tun"@)
    ||| contains_spec(desc, "vpn"@)
    ||| contains_spec(desc, "wireguard"@)
    ||| contains_spec(desc, "openvpn"@)
}

/// The name of the first adapter (description, name) whose lowercased
/// description names a tunnel.
pub open spec fn adapters_vpn_spec(adapters: Seq<(Seq<char>, Seq<char>)>) -> Option<Seq<char>>
    decreases adapters.len(),
{
    if adapters.len() == 0 {
        None
    } else if vpn_description(unicode_lowercase(adapters[0].0)) {
        Some(adapters[0].1)
    } else {
        adapters_vpn_spec(adapters.drop_first())
    }
}

/// An adapter whose lowercased description contains "vpn", "tun", "tap" or
/// "wireguard" is found: the VPN interface reported is the name of that
/// adapter or of one listed before it.
pub proof fn lemma_tunnel_adapter_reported(adapters: Seq<(Seq<char>, Seq<char>)>, j: int)
    requires
        0 <= j < adapters.len(),
        contains_spec(unicode_lowercase(adapters[j].0), "vpn"@) || contains_spec(
            unicode_lowercase(adapters[j].0),
            "tun"@,
        ) || contains_spec(unicode_lowercase(adapters[j].0), "tap"@) || contains_spec(
            unicode_lowercase(adapters[j].0),
            "wireguard"@,
        ),
    ensures
        adapters_vpn_spec(adapters) matches Some(name) && exists|i: int|
            0 <= i <= j && #[trigger] adapters[i].1 == name,
    decreases j,
{
    if j == 0 {
        assert(adapters[0].1 == adapters[0].1);
    } else if vpn_description(unicode_lowercase(adapters[0].0)) {
        assert(adapters[0].1 == adapters[0].1);
    } else {
        let rest = adapters.drop_first();
        assert(rest[j - 1] == adapters[j]);
        lemma_tunnel_adapter_reported(rest, j - 1);
        let name = adapters_vpn_spec(rest)->Some_0;
        let i = choose|i: int| 0 <= i <= j - 1 && #[trigger] rest[i].1 == name;
        assert(adapters[i + 1].1 == name);
    }
}

/// No VPN interface is reported only when no adapter's lowercased
/// description contains "vpn", "tun", "tap" or "wireguard".
pub proof fn lemma_no_tunnel_adapter(adapters: Seq<(Seq<char>, Seq<char>)>)
    requires
        adapters_vpn_spec(adapters) is None,
    ensures
        forall|j: int|
            0 <= j < adapters.len() ==> !contains_spec(unicode_lowercase(#[trigger] adapters[j].0), "vpn"@)
                && !contains_spec(unicode_lowercase(adapters[j].0), "tun"@) && !contains_spec(
                unicode_lowercase(adapters[j].0),
                "tap"@,
            ) && !contains_spec(unicode_lowercase(adapters[j].0), "wireguard"@),
{
    assert forall|j: int| 0 <= j < adapters.len() implies !contains_spec(
        unicode_lowercase(#[trigger] adapters[j].0),
        "vpn"@,
    ) && !contains_spec(unicode_lowercase(adapters[j].0), "tun"@) && !contains_spec(
        unicode_lowercase(adapters[j].0),
        "tap"@,
    ) && !contains_spec(unicode_lowercase(adapters[j].0), "wireguard"@) by {
        if contains_spec(unicode_lowercase(adapters[j].0), "vpn"@) || contains_spec(
            unicode_lowercase(adapters[j].0),
            "tun"@,
        ) || contains_spec(unicode_lowercase(adapters[j].0), "tap"@) || contains_spec(
            unicode_lowercase(adapters[j].0),
            "wireguard"@,
        ) {
            lemma_tunnel_adapter_reported(adapters, j);
        }
    }
}

pub open spec fn adapter_views(a: Seq<(String, String)>) -> Seq<(Seq<char>, Seq<char>)> {
    a.map_values(|p: (String, String)| (p.0@, p.1@))
}

/// Whether a lowercased adapter description names a tunnel or VPN.
pub fn is_vpn_description(desc: &[char]) -> (r: bool)
    ensures
        r == vpn_description(desc@),
{
    let p1 = chars_of("tap");
    let p2 = chars_of("tun");
    let p3 = chars_of("vpn");
    let p4 = chars_of("wireguard");
    let p5 = chars_of("openvpn");
    contains_chars(desc, &p1) || contains_chars(desc, &p2) || contains_chars(desc, &p3)
        || contains_chars(desc, &p4) || contains_chars(desc, &p5)
}

/// The VPN adapter among the adapters (description, name) the system lists.
pub fn vpn_from_adapters(adapters: &Vec<(String, String)>) -> (r: Option<String>)
    ensures
        opt_view(r) == adapters_vpn_spec(adapter_views(adapters@)),
{
    let ghost av = adapter_views(adapters@);
    let mut i: usize = 0;
    assert(av.skip(0) == av);
    while i < adapters.len()
        invariant
            i <= adapters.len(),
            av == adapter_views(adapters@),
            adapters_vpn_spec(av) == adapters_vpn_spec(av.skip(i as int)),
        decreases adapters.len() - i,
    {
        assert(av.skip(i as int)[0] == (adapters[i as int].0@, adapters[i as int].1@));
        assert(av.skip(i as int).drop_first() == av.skip(i + 1));
        let lower = lowercase(adapters[i].0.as_str());
        let lc = chars_of_string(&lower);
        if is_vpn_description(&lc) {
            return Some(adapters[i].1.clone());
        }
        i = i + 1;
    }
    None
}

} // verus!
