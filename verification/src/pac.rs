//! The Windows proxy router: the proxy-auto-config file that sends browser
//! traffic to a local router, the choice of the upstream VPN proxy from the
//! system proxy settings, the routing decision per request and the counters
//! shown in the diagnostics.
use vstd::prelude::*;
use crate::net::Cidr;
use crate::text::{
    copy_strings, opt_view,
    append_chars, append_str, chars_of, chars_of_string, dec_chars, dec_string, eq_ignore_ascii_case,
    eq_ignore_ascii_case_spec, first_index, first_match, find, has_char, is_last_index, last_index,
    parse_unsigned, parse_unsigned_spec, rfind, split_chars, split_spec, string_of, string_views,
    sub_chars, trim, trim_brackets, trim_brackets_spec, trim_spec, trim_start_matches,
    trim_start_matches_spec, views, ends_with, ends_with_spec, starts_with, starts_with_spec,
    words, words_spec, lines, lines_spec, trim_end_dots, trim_end_dots_spec, concat_chars,
    contains_chars, contains_spec, find_seq, first_occurrence,
};
use crate::aggregate::{aggregate_spec, aggregate_subnets, cidr_set, sorted_strict};
use crate::config::{data_dir, data_dir_spec, join_path, join_path_spec};
use vstd::slice::slice_to_vec;
use vstd::utf8::{decode_utf8, encode_utf8, valid_utf8};

verus! {

/// The address the local router listens on.
pub const ROUTER_HOST: &'static str = "127.0.0.1";

/// The port the local router listens on.
pub const ROUTER_PORT: u16 = 17890;

/// The proxy settings of the current user.
#[derive(Clone, Debug)]
pub struct ProxySettings {
    pub proxy_enable: u32,
    pub proxy_server: Option<String>,
    pub auto_config_url: Option<String>,
}

/// The proxy settings saved before the PAC was installed.
#[derive(Clone, Debug)]
pub struct ProxySnapshot {
    pub proxy_enable: Option<u32>,
    pub proxy_server: Option<String>,
    pub auto_config_url: Option<String>,
}

/// The protocol of the upstream proxy.
#[derive(Clone, Copy, Debug, PartialEq, Eq, Structural)]
pub enum ProxyKind {
    Http,
    Socks5,
}

/// The VPN's proxy, to which non-Russian traffic is forwarded.
#[derive(Clone, Debug)]
pub struct UpstreamProxy {
    pub kind: ProxyKind,
    pub host: String,
    pub port: u16,
}

/// The state the router works with.
pub struct RouterState {
    pub upstream: UpstreamProxy,
    pub cidrs: Vec<Cidr>,
}

/// The destination of a proxied request.
#[derive(Clone, Debug)]
pub struct Target {
    pub host: String,
    pub port: u16,
}

/// What the diagnostics view shows.
#[derive(Clone, Debug)]
pub struct PacDiagnostics {
    pub active: bool,
    pub direct_count: u64,
    pub vpn_count: u64,
    pub proxy_signature: String,
    pub last_decisions: Vec<String>,
}

/// Counters of routing decisions and the most recent ones.
pub struct RouterMetrics {
    direct_count: u64,
    vpn_count: u64,
    last_decisions: Vec<String>,
}

/// The first step of an installation.
#[derive(Clone, Debug)]
pub enum InstallPlan {
    /// The PAC is already active: synchronize it.
    Sync,
    /// Save the current settings (unless saved already) and install the PAC
    /// for this upstream proxy.
    Install(UpstreamProxy),
}

/// The first step of a synchronization.
#[derive(Clone, Debug)]
pub enum SyncPlan {
    /// Nothing to do.
    Skip,
    /// Replace the saved settings and install the PAC for this upstream.
    ReplaceSnapshotAndInstall(UpstreamProxy),
    /// Our PAC is active: install again for the upstream of the saved
    /// settings.
    FromSnapshot,
}

/// A change of a value under the Internet Settings registry key.
#[derive(Clone, Debug)]
pub enum RegistryChange {
    SetDword(String, u32),
    SetString(String, String),
    Delete(String),
}

// ---------------------------------------------------------------------------
// Specifications
// ---------------------------------------------------------------------------
pub open spec fn proxy_view(p: UpstreamProxy) -> (ProxyKind, Seq<char>, u16) {
    (p.kind, p.host@, p.port)
}

pub open spec fn opt_proxy_view(p: Option<UpstreamProxy>) -> Option<(ProxyKind, Seq<char>, u16)> {
    match p {
        Some(x) => Some(proxy_view(x)),
        None => None,
    }
}


/// `host:port` as the proxy address is written.
pub open spec fn host_port(host: Seq<char>, port: u16) -> Seq<char> {
    host + seq![':'] + dec_chars(port as nat)
}

/// The PAC directive of an upstream proxy.
pub open spec fn pac_directive_spec(p: (ProxyKind, Seq<char>, u16)) -> Seq<char> {
    match p.0 {
        ProxyKind::Http => "PROXY "@ + host_port(p.1, p.2),
        ProxyKind::Socks5 => "SOCKS "@ + host_port(p.1, p.2),
    }
}

/// The proxy-auto-config file: everything goes to the local router, the
/// upstream proxy being the fallback.
pub open spec fn generate_pac_spec(p: (ProxyKind, Seq<char>, u16)) -> Seq<char> {
    "function FindProxyForURL(url, host) {\n  return \"PROXY 127.0.0.1:17890; "@
        + pac_directive_spec(p) + "\";\n}\n"@
}

/// A proxy address with scheme prefixes removed, split at its last `:`.
pub open spec fn normalize_proxy_spec(value: Seq<char>, socks: bool) -> Option<
    (ProxyKind, Seq<char>, u16),
> {
    let v = trim_start_matches_spec(
        trim_start_matches_spec(
            trim_start_matches_spec(trim_start_matches_spec(trim_spec(value), "http://"@), "https://"@),
            "socks://"@,
        ),
        "socks5://"@,
    );
    if v.len() == 0 {
        None
    } else {
        match last_index(v, ':') {
            None => None,
            Some(k) => match parse_unsigned_spec(v.skip(k + 1), 65535) {
                None => None,
                Some(port) => {
                    let host = trim_brackets_spec(v.take(k));
                    if host == "127.0.0.1"@ && port == 17890 {
                        None
                    } else {
                        Some(
                            (
                                if socks {
                                    ProxyKind::Socks5
                                } else {
                                    ProxyKind::Http
                                },
                                host,
                                port as u16,
                            ),
                        )
                    }
                },
            },
        }
    }
}

/// `name=value` with `name` equal to `key` ignoring ASCII case gives the
/// trimmed value.
pub open spec fn key_value(part: Seq<char>, key: Seq<char>) -> Option<Seq<char>> {
    match first_index(part, '=') {
        None => None,
        Some(k) => if eq_ignore_ascii_case_spec(part.take(k), key) {
            Some(trim_spec(part.skip(k + 1)))
        } else {
            None
        },
    }
}

pub open spec fn find_key(parts: Seq<Seq<char>>, key: Seq<char>) -> Option<Seq<char>> {
    first_match(parts, |p: Seq<char>| key_value(p, key))
}

/// The upstream proxy of a `ProxyServer` value: a plain `host:port`, or in
/// the per-protocol form `http=...;https=...;socks=...` the `https` entry,
/// else `http`, else `socks`.
pub open spec fn proxy_for_router_spec(server: Option<Seq<char>>) -> Option<
    (ProxyKind, Seq<char>, u16),
> {
    match server {
        None => None,
        Some(s) => {
            let raw = trim_spec(s);
            if raw.len() == 0 {
                None
            } else if has_char(raw, ';') || has_char(raw, '=') {
                let parts = split_spec(raw, ';');
                match find_key(parts, "https"@) {
                    Some(v) => normalize_proxy_spec(v, false),
                    None => match find_key(parts, "http"@) {
                        Some(v) => normalize_proxy_spec(v, false),
                        None => match find_key(parts, "socks"@) {
                            Some(v) => normalize_proxy_spec(v, true),
                            None => None,
                        },
                    },
                }
            } else {
                normalize_proxy_spec(raw, false)
            }
        },
    }
}

/// `ProxyServer` is in the per-protocol form `name=value;...`.
pub open spec fn per_protocol(s: Seq<char>) -> bool {
    has_char(trim_spec(s), ';') || has_char(trim_spec(s), '=')
}

/// The entries of a per-protocol `ProxyServer` value.
pub open spec fn protocol_entries(s: Seq<char>) -> Seq<Seq<char>> {
    split_spec(trim_spec(s), ';')
}

/// In the per-protocol form the upstream is chosen by protocol: an `https`
/// entry first, else an `http` entry, both as HTTP proxies; a `socks`
/// entry is used, as a SOCKS5 proxy, only when there is neither an `https`
/// nor an `http` entry.
pub proof fn lemma_upstream_protocol_order(s: Seq<char>)
    requires
        trim_spec(s).len() > 0,
        per_protocol(s),
    ensures
        find_key(protocol_entries(s), "https"@) matches Some(v) ==> proxy_for_router_spec(Some(s))
            == normalize_proxy_spec(v, false),
        find_key(protocol_entries(s), "https"@) is None ==> (find_key(protocol_entries(s), "http"@)
            matches Some(v) ==> proxy_for_router_spec(Some(s)) == normalize_proxy_spec(v, false)),
        (find_key(protocol_entries(s), "https"@) is Some || find_key(protocol_entries(s), "http"@) is Some)
            ==> (proxy_for_router_spec(Some(s)) matches Some(p) ==> p.0 == ProxyKind::Http),
        proxy_for_router_spec(Some(s)) matches Some(p) && p.0 == ProxyKind::Socks5 ==> (find_key(
            protocol_entries(s),
            "https"@,
        ) is None && find_key(protocol_entries(s), "http"@) is None),
{
}

/// An HTTP upstream is never taken for a SOCKS5 one: a SOCKS5 upstream comes
/// only from a `socks` entry of the per-protocol form.
pub proof fn lemma_socks_only_from_socks_entry(s: Seq<char>)
    ensures
        proxy_for_router_spec(Some(s)) matches Some(p) && p.0 == ProxyKind::Socks5 ==> per_protocol(s)
            && find_key(protocol_entries(s), "socks"@) is Some,
{
}

pub open spec fn pac_url_active(settings: ProxySettings, pac_url: Seq<char>) -> bool {
    opt_view(settings.auto_config_url) == Some(pac_url)
}

/// The local router is never taken as the upstream proxy, whatever the
/// proxy settings say.
pub proof fn lemma_router_never_upstream(server: Option<Seq<char>>)
    ensures
        proxy_for_router_spec(server) matches Some(p) ==> !(p.1 == "127.0.0.1"@ && p.2 == 17890),
{
}

// ---------------------------------------------------------------------------
// Upstream proxy
// ---------------------------------------------------------------------------
impl UpstreamProxy {
    /// `PROXY host:port` or `SOCKS host:port`.
    pub fn to_pac_directive(&self) -> (r: String)
        ensures
            r@ == pac_directive_spec(proxy_view(*self)),
    {
        let mut out = String::new();
        match self.kind {
            ProxyKind::Http => append_str(&mut out, "PROXY "),
            ProxyKind::Socks5 => append_str(&mut out, "SOCKS "),
        }
        append_str(&mut out, self.host.as_str());
        out.push(':');
        let digits = dec_string(self.port as u64);
        append_chars(&mut out, &digits);
        assert(out@ =~= pac_directive_spec(proxy_view(*self)));
        out
    }
}

/// The proxy-auto-config file for an upstream proxy.
pub fn generate_pac(upstream: &UpstreamProxy) -> (r: String)
    ensures
        r@ == generate_pac_spec(proxy_view(*upstream)),
{
    let fallback = upstream.to_pac_directive();
    let mut out = String::new();
    append_str(&mut out, "function FindProxyForURL(url, host) {\n  return \"PROXY 127.0.0.1:17890; ");
    append_str(&mut out, fallback.as_str());
    append_str(&mut out, "\";\n}\n");
    out
}

/// The upstream proxy from a proxy address; `socks` selects SOCKS5.  The
/// local router itself is never an upstream.
pub fn normalize_proxy(value: &[char], socks: bool) -> (r: Option<UpstreamProxy>)
    ensures
        opt_proxy_view(r) == normalize_proxy_spec(value@, socks),
{
    let t = trim(value);
    let p1 = chars_of("http://");
    let p2 = chars_of("https://");
    let p3 = chars_of("socks://");
    let p4 = chars_of("socks5://");
    let v1 = trim_start_matches(&t, &p1);
    let v2 = trim_start_matches(&v1, &p2);
    let v3 = trim_start_matches(&v2, &p3);
    let v = trim_start_matches(&v3, &p4);
    if v.len() == 0 {
        return None;
    }
    let k = match rfind(&v, ':') {
        None => {
            return None;
        },
        Some(k) => k,
    };
    let port_part = sub_chars(&v, k + 1, v.len());
    assert(port_part@ == v@.skip(k + 1));
    let port = match parse_unsigned(&port_part, 65535) {
        None => {
            return None;
        },
        Some(p) => p,
    };
    let host_part = sub_chars(&v, 0, k);
    assert(host_part@ == v@.take(k as int));
    let host = trim_brackets(&host_part);
    let local = chars_of("127.0.0.1");
    if crate::text::chars_eq(&host, &local) && port == 17890 {
        return None;
    }
    Some(
        UpstreamProxy {
            kind: if socks {
                ProxyKind::Socks5
            } else {
                ProxyKind::Http
            },
            host: string_of(&host),
            port: port as u16,
        },
    )
}

fn key_value_of(part: &[char], key: &[char]) -> (r: Option<Vec<char>>)
    ensures
        match r {
            Some(v) => key_value(part@, key@) == Some(v@),
            None => key_value(part@, key@) is None,
        },
{
    match find(part, '=') {
        None => None,
        Some(k) => {
            let name = sub_chars(part, 0, k);
            assert(name@ == part@.take(k as int));
            if eq_ignore_ascii_case(&name, key) {
                let rest = sub_chars(part, k + 1, part.len());
                assert(rest@ == part@.skip(k + 1));
                Some(trim(&rest))
            } else {
                None
            }
        },
    }
}

fn find_key_of(parts: &Vec<Vec<char>>, key: &[char]) -> (r: Option<Vec<char>>)
    ensures
        match r {
            Some(v) => find_key(views(parts@), key@) == Some(v@),
            None => find_key(views(parts@), key@) is None,
        },
{
    let ghost pv = views(parts@);
    let ghost f = |p: Seq<char>| key_value(p, key@);
    let mut i: usize = 0;
    assert(pv.skip(0) == pv);
    while i < parts.len()
        invariant
            i <= parts.len(),
            pv == views(parts@),
            f == (|p: Seq<char>| key_value(p, key@)),
            first_match(pv, f) == first_match(pv.skip(i as int), f),
        decreases parts.len() - i,
    {
        assert(pv.skip(i as int)[0] == parts[i as int]@);
        assert(pv.skip(i as int).drop_first() == pv.skip(i + 1));
        match key_value_of(&parts[i], key) {
            Some(v) => {
                return Some(v);
            },
            None => {},
        }
        i = i + 1;
    }
    None
}

/// The upstream proxy to route through, from the `ProxyServer` setting.
pub fn proxy_for_router(proxy_server: Option<&str>) -> (r: Option<UpstreamProxy>)
    ensures
        opt_proxy_view(r) == proxy_for_router_spec(
            match proxy_server {
                Some(s) => Some(s@),
                None => None,
            },
        ),
{
    let s = match proxy_server {
        None => {
            return None;
        },
        Some(s) => s,
    };
    let chars = chars_of(s);
    let raw = trim(&chars);
    if raw.len() == 0 {
        return None;
    }
    let has_semicolon = find(&raw, ';').is_some();
    let has_equals = find(&raw, '=').is_some();
    proof {
        if has_char(raw@, ';') {
            let i = choose|i: int| 0 <= i < raw@.len() && raw@[i] == ';';
        }
        if has_char(raw@, '=') {
            let i = choose|i: int| 0 <= i < raw@.len() && raw@[i] == '=';
        }
    }
    if has_semicolon || has_equals {
        let parts = split_chars(&raw, ';');
        let k1 = chars_of("https");
        let k2 = chars_of("http");
        let k3 = chars_of("socks");
        match find_key_of(&parts, &k1) {
            Some(v) => normalize_proxy(&v, false),
            None => match find_key_of(&parts, &k2) {
                Some(v) => normalize_proxy(&v, false),
                None => match find_key_of(&parts, &k3) {
                    Some(v) => normalize_proxy(&v, true),
                    None => None,
                },
            },
        }
    } else {
        normalize_proxy(&raw, false)
    }
}

// ---------------------------------------------------------------------------
// Request targets and the routing decision
// ---------------------------------------------------------------------------
/// What `String::from_utf8_lossy` makes of a byte sequence.
pub uninterp spec fn utf8_lossy(bytes: Seq<u8>) -> Seq<char>;

/// What `str::to_lowercase` makes of a text (Unicode lowercase mapping).
pub uninterp spec fn unicode_lowercase(s: Seq<char>) -> Seq<char>;

/// `String::from_utf8_lossy`: the text of the bytes with each invalid
/// sequence replaced by U+FFFD.  Bytes that are valid UTF-8 are decoded as
/// they stand.
#[verifier::external_body]
fn decode_lossy(bytes: &[u8]) -> (r: String)
    ensures
        r@ == utf8_lossy(bytes@),
        valid_utf8(bytes@) ==> r@ == decode_utf8(bytes@),
{
    String::from_utf8_lossy(bytes).into_owned()
}

/// `str::to_lowercase`.
#[verifier::external_body]
pub(crate) fn lowercase(s: &str) -> (r: String)
    ensures
        r@ == unicode_lowercase(s@),
{
    s.to_lowercase()
}

pub open spec fn target_view(t: Target) -> (Seq<char>, u16) {
    (t.host@, t.port)
}

pub open spec fn target_result_view(r: Result<Target, String>) -> Result<(Seq<char>, u16), Seq<char>> {
    match r {
        Ok(t) => Ok(target_view(t)),
        Err(e) => Err(e@),
    }
}

/// `host:port` split at the last `:` (brackets around the host removed),
/// or the whole authority with the default port.  `None`: the port is not
/// a number that fits in 16 bits.
pub open spec fn parse_authority_spec(a: Seq<char>, default_port: u16) -> Option<(Seq<char>, u16)> {
    match last_index(a, ':') {
        None => Some((a, default_port)),
        Some(k) => match parse_unsigned_spec(a.skip(k + 1), 65535) {
            None => None,
            Some(port) => Some((trim_brackets_spec(a.take(k)), port as u16)),
        },
    }
}

pub open spec fn authority_result(a: Seq<char>, default_port: u16) -> Result<(Seq<char>, u16), Seq<char>> {
    match parse_authority_spec(a, default_port) {
        Some(t) => Ok(t),
        None => Err("invalid target port"@),
    }
}

/// The value of a `Host:` (or `host:`) header line.
pub open spec fn host_header(line: Seq<char>) -> Option<Seq<char>> {
    if starts_with_spec(line, "Host:"@) {
        Some(line.skip("Host:"@.len() as int))
    } else if starts_with_spec(line, "host:"@) {
        Some(line.skip("host:"@.len() as int))
    } else {
        None
    }
}

/// A head line that starts with `Host:` (or `host:`) gives the text after
/// it as the Host header value.
pub proof fn lemma_host_line_value(v: Seq<char>)
    ensures
        host_header("Host:"@ + v) == Some(v),
        host_header("host:"@ + v) == Some(v),
{
    reveal_strlit("Host:");
    reveal_strlit("host:");
    assert(("Host:"@ + v).take(5) =~= "Host:"@);
    assert(("Host:"@ + v).skip(5) =~= v);
    assert(("host:"@ + v).take(5) =~= "host:"@);
    assert(("host:"@ + v).skip(5) =~= v);
}

/// The first element for which `f` gives a value decides `first_match`.
proof fn lemma_first_match_at(ls: Seq<Seq<char>>, f: spec_fn(Seq<char>) -> Option<Seq<char>>, j: int)
    requires
        0 <= j < ls.len(),
        forall|k: int| 0 <= k < j ==> f(#[trigger] ls[k]) is None,
        f(ls[j]) is Some,
    ensures
        first_match(ls, f) == f(ls[j]),
    decreases j,
{
    if j > 0 {
        assert(f(ls[0]) is None);
        assert forall|k: int| 0 <= k < j - 1 implies f(#[trigger] ls.drop_first()[k]) is None by {
            assert(ls.drop_first()[k] == ls[k + 1]);
        }
        lemma_first_match_at(ls.drop_first(), f, j - 1);
    }
}

/// The part of `s` before its first `/`.
pub open spec fn before_slash(s: Seq<char>) -> Seq<char> {
    match first_index(s, '/') {
        Some(k) => s.take(k),
        None => s,
    }
}

/// The destination of a plain HTTP request: from an absolute-form target
/// `http://authority/...`, else from the first `Host` header of the head.
pub open spec fn plain_target_spec(first_line: Seq<char>, head: Seq<char>) -> Result<(Seq<char>, u16), Seq<char>> {
    let w = words_spec(first_line);
    if w.len() < 2 {
        Err("missing request target"@)
    } else if starts_with_spec(w[1], "http://"@) {
        authority_result(before_slash(w[1].skip("http://"@.len() as int)), 80)
    } else {
        match first_match(lines_spec(head), |l: Seq<char>| host_header(l)) {
            Some(h) => authority_result(trim_spec(h), 80),
            None => Err("missing Host header"@),
        }
    }
}

/// An origin-form request (its target is no `http://` URL) goes to the
/// host named by the first head line that starts with `Host:` or `host:`,
/// on port 80 unless that value names another: `GET / HTTP/1.1` with the
/// line `Host: example.com` targets example.com:80.
pub proof fn lemma_origin_form_uses_host_line(first_line: Seq<char>, head: Seq<char>, j: int, v: Seq<char>)
    requires
        words_spec(first_line).len() >= 2,
        !starts_with_spec(words_spec(first_line)[1], "http://"@),
        0 <= j < lines_spec(head).len(),
        lines_spec(head)[j] == "Host:"@ + v || lines_spec(head)[j] == "host:"@ + v,
        forall|k: int|
            0 <= k < j ==> !starts_with_spec(#[trigger] lines_spec(head)[k], "Host:"@)
                && !starts_with_spec(lines_spec(head)[k], "host:"@),
    ensures
        plain_target_spec(first_line, head) == authority_result(trim_spec(v), 80),
{
    let ls = lines_spec(head);
    let f = |l: Seq<char>| host_header(l);
    lemma_host_line_value(v);
    assert forall|k: int| 0 <= k < j implies f(#[trigger] ls[k]) is None by {}
    lemma_first_match_at(ls, f, j);
}

/// A host name under one of the Russian top-level domains.
pub open spec fn ru_suffix(h: Seq<char>) -> bool {
    ||| ends_with_spec(h, ".ru"@)
    ||| ends_with_spec(h, ".su"@)
    ||| ends_with_spec(h, ".рф"@)
    ||| ends_with_spec(h, ".рус"@)
    ||| ends_with_spec(h, ".москва"@)
    ||| ends_with_spec(h, ".moscow"@)
}

/// The router sends a host directly (around the VPN) when its name, without
/// trailing dots and in lowercase, is under a Russian top-level domain.
pub open spec fn direct_host(host: Seq<char>) -> bool {
    ru_suffix(unicode_lowercase(trim_end_dots_spec(host)))
}

/// Trailing dots of a host name do not change the routing decision.
pub proof fn lemma_trailing_dot_ignored(host: Seq<char>)
    ensures
        direct_host(host.push('.')) == direct_host(host),
{
    assert(host.push('.').drop_last() =~= host);
}

/// Splits an authority into host and port.
pub fn parse_authority(authority: &str, default_port: u16) -> (r: Result<Target, String>)
    ensures
        target_result_view(r) == authority_result(authority@, default_port),
{
    let a = chars_of(authority);
    match rfind(&a, ':') {
        None => Ok(Target { host: authority.to_owned(), port: default_port }),
        Some(k) => {
            let port_part = sub_chars(&a, k + 1, a.len());
            assert(port_part@ == a@.skip(k + 1));
            match parse_unsigned(&port_part, 65535) {
                None => Err("invalid target port".to_owned()),
                Some(port) => {
                    let host_part = sub_chars(&a, 0, k);
                    assert(host_part@ == a@.take(k as int));
                    let host = trim_brackets(&host_part);
                    Ok(Target { host: string_of(&host), port: port as u16 })
                },
            }
        },
    }
}

fn host_header_of(line: &[char]) -> (r: Option<Vec<char>>)
    ensures
        match r {
            Some(v) => host_header(line@) == Some(v@),
            None => host_header(line@) is None,
        },
{
    let p1 = chars_of("Host:");
    let p2 = chars_of("host:");
    if starts_with(line, &p1) {
        let v = sub_chars(line, p1.len(), line.len());
        Some(v)
    } else if starts_with(line, &p2) {
        let v = sub_chars(line, p2.len(), line.len());
        Some(v)
    } else {
        None
    }
}

fn first_host_header(ls: &Vec<Vec<char>>) -> (r: Option<Vec<char>>)
    ensures
        match r {
            Some(v) => first_match(views(ls@), |l: Seq<char>| host_header(l)) == Some(v@),
            None => first_match(views(ls@), |l: Seq<char>| host_header(l)) is None,
        },
{
    let ghost pv = views(ls@);
    let ghost f = |l: Seq<char>| host_header(l);
    let mut i: usize = 0;
    assert(pv.skip(0) == pv);
    while i < ls.len()
        invariant
            i <= ls.len(),
            pv == views(ls@),
            f == (|l: Seq<char>| host_header(l)),
            first_match(pv, f) == first_match(pv.skip(i as int), f),
        decreases ls.len() - i,
    {
        assert(pv.skip(i as int)[0] == ls[i as int]@);
        assert(pv.skip(i as int).drop_first() == pv.skip(i + 1));
        match host_header_of(&ls[i]) {
            Some(v) => {
                return Some(v);
            },
            None => {},
        }
        i = i + 1;
    }
    None
}

/// The destination of a plain (non-`CONNECT`) HTTP request.
pub fn parse_plain_http_target(first_line: &str, head: &str) -> (r: Result<Target, String>)
    ensures
        target_result_view(r) == plain_target_spec(first_line@, head@),
{
    let fl = chars_of(first_line);
    let w = words(&fl);
    if w.len() < 2 {
        return Err("missing request target".to_owned());
    }
    let url = &w[1];
    assert(url@ == words_spec(first_line@)[1]);
    let pfx = chars_of("http://");
    if starts_with(url, &pfx) {
        let rest = sub_chars(url, pfx.len(), url.len());
        assert(rest@ == url@.skip(pfx.len() as int));
        let authority = match find(&rest, '/') {
            Some(k) => {
                let a = sub_chars(&rest, 0, k);
                assert(a@ == rest@.take(k as int));
                a
            },
            None => rest,
        };
        let a = string_of(&authority);
        return parse_authority(a.as_str(), 80);
    }
    let hv = chars_of(head);
    let ls = lines(&hv);
    match first_host_header(&ls) {
        Some(h) => {
            let t = trim(&h);
            let a = string_of(&t);
            parse_authority(a.as_str(), 80)
        },
        None => Err("missing Host header".to_owned()),
    }
}

/// The top-level labels of the Russian domains: ru, su, рф, рус, москва and
/// moscow.
pub open spec fn russian_tld(label: Seq<char>) -> bool {
    label == "ru"@ || label == "su"@ || label == "рф"@ || label == "рус"@ || label == "москва"@
        || label == "moscow"@
}

/// `n` ends with `.label` exactly when its last `.` is followed by `label`,
/// for a label without dots.
proof fn lemma_suffix_is_top_label(n: Seq<char>, lab: Seq<char>)
    requires
        forall|i: int| 0 <= i < lab.len() ==> lab[i] != '.',
    ensures
        ends_with_spec(n, seq!['.'] + lab) <==> exists|k: int|
            #[trigger] is_last_index(n, '.', k) && n.skip(k + 1) == lab,
{
    let d = seq!['.'] + lab;
    if ends_with_spec(n, d) {
        let k = n.len() - d.len();
        assert(n.skip(k) == d);
        assert(n[k] == d[0]);
        assert forall|j: int| k < j < n.len() implies n[j] != '.' by {
            assert(n[j] == n.skip(k)[j - k]);
            assert(d[j - k] == lab[j - k - 1]);
        }
        assert forall|i: int| 0 <= i < lab.len() implies #[trigger] n.skip(k + 1)[i] == lab[i] by {
            assert(n.skip(k + 1)[i] == n[k + 1 + i]);
            assert(n[k + 1 + i] == n.skip(k)[i + 1]);
            assert(d[i + 1] == lab[i]);
        }
        assert(n.skip(k + 1) =~= lab);
        assert(is_last_index(n, '.', k));
    }
    if exists|k: int| #[trigger] is_last_index(n, '.', k) && n.skip(k + 1) == lab {
        let k = choose|k: int| #[trigger] is_last_index(n, '.', k) && n.skip(k + 1) == lab;
        assert(n.skip(k) =~= d);
        assert(n.len() - d.len() == k);
    }
}

/// A host is sent directly exactly when its name, without trailing dots and
/// in lowercase, has a Russian top-level label after its last `.`: a name
/// that merely contains `.ru` (docs.rust-lang.org) goes through the VPN.
pub proof fn lemma_direct_iff_russian_tld(host: Seq<char>)
    ensures
        direct_host(host) <==> {
            let n = unicode_lowercase(trim_end_dots_spec(host));
            exists|k: int| #[trigger] is_last_index(n, '.', k) && russian_tld(n.skip(k + 1))
        },
{
    let n = unicode_lowercase(trim_end_dots_spec(host));
    reveal_strlit("ru");
    reveal_strlit("su");
    reveal_strlit("рф");
    reveal_strlit("рус");
    reveal_strlit("москва");
    reveal_strlit("moscow");
    reveal_strlit(".ru");
    reveal_strlit(".su");
    reveal_strlit(".рф");
    reveal_strlit(".рус");
    reveal_strlit(".москва");
    reveal_strlit(".moscow");
    assert(".ru"@ =~= seq!['.'] + "ru"@);
    assert(".su"@ =~= seq!['.'] + "su"@);
    assert(".рф"@ =~= seq!['.'] + "рф"@);
    assert(".рус"@ =~= seq!['.'] + "рус"@);
    assert(".москва"@ =~= seq!['.'] + "москва"@);
    assert(".moscow"@ =~= seq!['.'] + "moscow"@);
    lemma_suffix_is_top_label(n, "ru"@);
    lemma_suffix_is_top_label(n, "su"@);
    lemma_suffix_is_top_label(n, "рф"@);
    lemma_suffix_is_top_label(n, "рус"@);
    lemma_suffix_is_top_label(n, "москва"@);
    lemma_suffix_is_top_label(n, "moscow"@);
    if exists|k: int| #[trigger] is_last_index(n, '.', k) && russian_tld(n.skip(k + 1)) {
        let k = choose|k: int| #[trigger] is_last_index(n, '.', k) && russian_tld(n.skip(k + 1));
        assert(ru_suffix(n));
    }
}

/// Whether a lowercased host name is under a Russian top-level domain.
pub fn has_russian_suffix(host: &[char]) -> (r: bool)
    ensures
        r == ru_suffix(host@),
{
    let s1 = chars_of(".ru");
    let s2 = chars_of(".su");
    let s3 = chars_of(".рф");
    let s4 = chars_of(".рус");
    let s5 = chars_of(".москва");
    let s6 = chars_of(".moscow");
    ends_with(host, &s1) || ends_with(host, &s2) || ends_with(host, &s3) || ends_with(host, &s4)
        || ends_with(host, &s5) || ends_with(host, &s6)
}

/// Whether the router sends traffic for `host` directly rather than through
/// the VPN.  Only the host name decides: the loaded networks are kept in the
/// state but not consulted.
pub fn should_direct(host: &str, state: &RouterState) -> (r: bool)
    ensures
        r == direct_host(host@),
{
    let h = chars_of(host);
    let t = trim_end_dots(&h);
    let ts = string_of(&t);
    let lower = lowercase(ts.as_str());
    let lc = chars_of_string(&lower);
    has_russian_suffix(&lc)
}

// ---------------------------------------------------------------------------
// Rewriting absolute-form requests
// ---------------------------------------------------------------------------
/// The origin-form path of what follows `http://` in a target: from the
/// first `/` on, or `/`.
pub open spec fn origin_path(rest: Seq<char>) -> Seq<char> {
    match first_index(rest, '/') {
        Some(k) => rest.skip(k),
        None => "/"@,
    }
}

/// The first line of a request head rewritten from
/// `METHOD http://authority/path VERSION` to `METHOD /path VERSION`, and the
/// rest of the head after that line.  `None`: no line end, fewer than three
/// words on the first line, or a target that is not `http://...`.
pub open spec fn origin_form_parts(text: Seq<char>) -> Option<(Seq<char>, Seq<char>)> {
    match first_occurrence(text, "\r\n"@) {
        None => None,
        Some(e) => {
            let w = words_spec(text.take(e));
            if w.len() < 3 || !starts_with_spec(w[1], "http://"@) {
                None
            } else {
                let path = origin_path(w[1].skip("http://"@.len() as int));
                Some(
                    (
                        w[0] + " "@ + path + " "@ + w[2] + "\r\n"@,
                        text.skip(e + "\r\n"@.len()),
                    ),
                )
            }
        },
    }
}

/// The rewritten line followed by the rest of the head, with a `Host`
/// header put between them when the result would have none.
pub open spec fn with_host_header(line: Seq<char>, tail: Seq<char>, host: Seq<char>) -> Seq<char> {
    if contains_spec(line + tail, "\r\nHost:"@) || contains_spec(line + tail, "\r\nhost:"@) {
        line + tail
    } else {
        line + "Host: "@ + host + "\r\n"@ + tail
    }
}

/// A request with an absolute-form target rewritten to origin form; `None`
/// where the request is left as it is.
pub open spec fn rewrite_spec(text: Seq<char>, host: Seq<char>) -> Option<Seq<char>> {
    match origin_form_parts(text) {
        None => None,
        Some((line, tail)) => Some(with_host_header(line, tail, host)),
    }
}

/// The bytes sent for a request in place of the received ones.
pub open spec fn rewritten_bytes(request: Seq<u8>, host: Seq<char>) -> Seq<u8> {
    rewritten_from(utf8_lossy(request), request, host)
}

/// The bytes sent for a request whose text is `text`: the rewritten text
/// in UTF-8, or the request as received.
pub open spec fn rewritten_from(text: Seq<char>, request: Seq<u8>, host: Seq<char>) -> Seq<u8> {
    match rewrite_spec(text, host) {
        None => request,
        Some(t) => encode_utf8(t),
    }
}

fn origin_form_parts_of(text: &[char]) -> (r: Option<(Vec<char>, Vec<char>)>)
    ensures
        match r {
            Some((line, tail)) => origin_form_parts(text@) == Some((line@, tail@)),
            None => origin_form_parts(text@) is None,
        },
{
    let crlf = chars_of("\r\n");
    let e = match find_seq(text, &crlf) {
        None => {
            return None;
        },
        Some(e) => e,
    };
    let first = sub_chars(text, 0, e);
    assert(first@ == text@.take(e as int));
    let w = words(&first);
    if w.len() < 3 {
        return None;
    }
    let pfx = chars_of("http://");
    if !starts_with(&w[1], &pfx) {
        return None;
    }
    let rest = sub_chars(&w[1], pfx.len(), w[1].len());
    assert(rest@ == w[1]@.skip(pfx.len() as int));
    let path = match find(&rest, '/') {
        Some(k) => {
            let p = sub_chars(&rest, k, rest.len());
            assert(p@ == rest@.skip(k as int));
            p
        },
        None => chars_of("/"),
    };
    assert(path@ == origin_path(rest@));
    let space = chars_of(" ");
    let l1 = concat_chars(&w[0], &space);
    let l2 = concat_chars(&l1, &path);
    let l3 = concat_chars(&l2, &space);
    let l4 = concat_chars(&l3, &w[2]);
    let line = concat_chars(&l4, &crlf);
    let tail = sub_chars(text, e + crlf.len(), text.len());
    assert(tail@ == text@.skip(e + crlf@.len()));
    Some((line, tail))
}

fn with_host_header_of(line: &[char], tail: &[char], host: &[char]) -> (r: Vec<char>)
    ensures
        r@ == with_host_header(line@, tail@, host@),
{
    let rewritten = concat_chars(line, tail);
    let h1 = chars_of("\r\nHost:");
    let h2 = chars_of("\r\nhost:");
    if contains_chars(&rewritten, &h1) || contains_chars(&rewritten, &h2) {
        return rewritten;
    }
    let crlf = chars_of("\r\n");
    let host_name = chars_of("Host: ");
    let i1 = concat_chars(line, &host_name);
    let i2 = concat_chars(&i1, host);
    let i3 = concat_chars(&i2, &crlf);
    concat_chars(&i3, tail)
}

/// The text of a request with an absolute-form target rewritten, as
/// [`rewrite_spec`] says.
pub fn rewrite_request_text(text: &[char], host: &[char]) -> (r: Option<Vec<char>>)
    ensures
        match r {
            Some(t) => rewrite_spec(text@, host@) == Some(t@),
            None => rewrite_spec(text@, host@) is None,
        },
{
    match origin_form_parts_of(text) {
        None => None,
        Some((line, tail)) => Some(with_host_header_of(&line, &tail, host)),
    }
}

/// The bytes to send for a plain HTTP request: an absolute-form target
/// rewritten to origin form with a `Host` header, other requests unchanged.
pub fn rewrite_absolute_form(request: &[u8], host: &str) -> (r: Vec<u8>)
    ensures
        r@ == rewritten_bytes(request@, host@),
        valid_utf8(request@) ==> r@ == rewritten_from(decode_utf8(request@), request@, host@),
{
    let text = decode_lossy(request);
    let tc = chars_of_string(&text);
    let hc = chars_of(host);
    match rewrite_request_text(&tc, &hc) {
        None => slice_to_vec(request),
        Some(t) => {
            let out = string_of(&t);
            slice_to_vec(out.as_str().as_bytes())
        },
    }
}

// ---------------------------------------------------------------------------
// Decision counters
// ---------------------------------------------------------------------------
/// How many decisions the diagnostics keep.
pub const RECENT_DECISIONS: usize = 8;

/// A counter one higher, wrapping around to zero past `u64::MAX`.
pub open spec fn bump(c: u64) -> u64 {
    if c == u64::MAX {
        0
    } else {
        (c + 1) as u64
    }
}

/// The line kept for a decision: `host -> DIRECT` or `host -> VPN`.
pub open spec fn decision_line(host: Seq<char>, direct: bool) -> Seq<char> {
    host + " -> "@ + if direct {
        "DIRECT"@
    } else {
        "VPN"@
    }
}

/// The recent decisions after one more: appended, the oldest dropped when
/// more than eight would be kept.
pub open spec fn recent_after(recent: Seq<Seq<char>>, line: Seq<char>) -> Seq<Seq<char>> {
    if recent.len() + 1 > 8 {
        recent.push(line).drop_first()
    } else {
        recent.push(line)
    }
}

impl RouterMetrics {
    #[verifier::type_invariant]
    spec fn keeps_recent_bounded(self) -> bool {
        self.last_decisions.len() <= 8
    }
}

impl View for RouterMetrics {
    /// Decisions sent directly, decisions sent through the VPN, and the most
    /// recent decision lines, oldest first.
    type V = (u64, u64, Seq<Seq<char>>);

    closed spec fn view(&self) -> (u64, u64, Seq<Seq<char>>) {
        (self.direct_count, self.vpn_count, string_views(self.last_decisions@))
    }
}

impl RouterMetrics {
    /// No decision counted yet.
    pub fn new() -> (r: RouterMetrics)
        ensures
            r@ == (0u64, 0u64, Seq::<Seq<char>>::empty()),
    {
        let r = RouterMetrics { direct_count: 0, vpn_count: 0, last_decisions: Vec::new() };
        assert(string_views(r.last_decisions@) =~= Seq::<Seq<char>>::empty());
        r
    }

    /// Forgets every decision.
    pub fn reset(&mut self)
        ensures
            final(self)@ == (0u64, 0u64, Seq::<Seq<char>>::empty()),
    {
        proof {
            use_type_invariant(&*self);
        }
        self.direct_count = 0;
        self.vpn_count = 0;
        self.last_decisions = Vec::new();
        assert(string_views(self.last_decisions@) =~= Seq::<Seq<char>>::empty());
    }

    /// Counts a decision for `host` and keeps its line among the recent
    /// ones; never more than eight are kept.
    pub fn record_decision(&mut self, host: &str, direct: bool)
        ensures
            final(self)@.0 == if direct {
                bump(old(self)@.0)
            } else {
                old(self)@.0
            },
            final(self)@.1 == if direct {
                old(self)@.1
            } else {
                bump(old(self)@.1)
            },
            final(self)@.2 == recent_after(old(self)@.2, decision_line(host@, direct)),
            final(self)@.2.len() <= 8,
    {
        proof {
            use_type_invariant(&*self);
        }
        if direct {
            self.direct_count = self.direct_count.wrapping_add(1);
        } else {
            self.vpn_count = self.vpn_count.wrapping_add(1);
        }
        let mut line = host.to_owned();
        append_str(&mut line, " -> ");
        if direct {
            append_str(&mut line, "DIRECT");
        } else {
            append_str(&mut line, "VPN");
        }
        assert(line@ == decision_line(host@, direct));
        let mut items: Vec<String> = Vec::new();
        std::mem::swap(&mut items, &mut self.last_decisions);
        let ghost before = string_views(items@);
        let ghost n = items.len();
        items.push(line);
        assert(string_views(items@) =~= before.push(decision_line(host@, direct)));
        if items.len() > RECENT_DECISIONS {
            let ghost pushed = string_views(items@);
            items.remove(0);
            assert(string_views(items@) =~= pushed.drop_first());
        }
        self.last_decisions = items;
    }

    /// The recent decision lines, oldest first (at most eight).
    pub fn recent(&self) -> (r: Vec<String>)
        ensures
            string_views(r@) == self@.2,
            r.len() <= 8,
    {
        proof {
            use_type_invariant(self);
        }
        copy_strings(&self.last_decisions)
    }

    pub fn direct_count(&self) -> (r: u64)
        ensures
            r == self@.0,
    {
        self.direct_count
    }

    pub fn vpn_count(&self) -> (r: u64)
        ensures
            r == self@.1,
    {
        self.vpn_count
    }
}

/// The diagnostics view: whether the router runs, the counters, the proxy
/// signature and the recent decisions.
pub fn diagnostics(active: bool, metrics: &RouterMetrics, proxy_signature: String) -> (r: PacDiagnostics)
    ensures
        r.active == active,
        r.direct_count == metrics@.0,
        r.vpn_count == metrics@.1,
        r.proxy_signature@ == proxy_signature@,
        string_views(r.last_decisions@) == metrics@.2,
{
    PacDiagnostics {
        active,
        direct_count: metrics.direct_count(),
        vpn_count: metrics.vpn_count(),
        proxy_signature,
        last_decisions: metrics.recent(),
    }
}

// ---------------------------------------------------------------------------
// The system proxy settings
// ---------------------------------------------------------------------------
pub open spec fn or_empty(o: Option<String>) -> Seq<char> {
    match o {
        Some(s) => s@,
        None => Seq::empty(),
    }
}

/// `enabled=<n>;server=<server>;pac=<url>` for the settings read, or
/// `error=<message>` when they could not be read.
pub open spec fn signature_spec(settings: Result<ProxySettings, String>) -> Seq<char> {
    match settings {
        Ok(s) => "enabled="@ + dec_chars(s.proxy_enable as nat) + ";server="@ + or_empty(
            s.proxy_server,
        ) + ";pac="@ + or_empty(s.auto_config_url),
        Err(e) => "error="@ + e@,
    }
}

/// The file URL of a path: `file:///` and the path with `\\` turned into `/`.
pub open spec fn file_url_spec(path: Seq<char>) -> Seq<char> {
    "file:///"@ + path.map_values(|c: char| if c == '\\' { '/' } else { c })
}

pub open spec fn pac_path_spec(home: Seq<char>, sep: char) -> Seq<char> {
    join_path_spec(data_dir_spec(home, sep), "rubypass.pac"@, sep)
}

pub open spec fn snapshot_path_spec(home: Seq<char>, sep: char) -> Seq<char> {
    join_path_spec(data_dir_spec(home, sep), "windows_proxy_snapshot.json"@, sep)
}

/// A short description of the current proxy settings, by which a change of
/// them is noticed.
pub fn proxy_signature(settings: &Result<ProxySettings, String>) -> (r: String)
    ensures
        r@ == signature_spec(*settings),
{
    let mut out = String::new();
    match settings {
        Ok(s) => {
            append_str(&mut out, "enabled=");
            let n = dec_string(s.proxy_enable as u64);
            append_chars(&mut out, &n);
            append_str(&mut out, ";server=");
            match &s.proxy_server {
                Some(v) => append_str(&mut out, v.as_str()),
                None => {},
            }
            append_str(&mut out, ";pac=");
            match &s.auto_config_url {
                Some(v) => append_str(&mut out, v.as_str()),
                None => {},
            }
        },
        Err(e) => {
            append_str(&mut out, "error=");
            append_str(&mut out, e.as_str());
        },
    }
    assert(out@ =~= signature_spec(*settings));
    out
}

/// `file:///` and the path with backslashes turned into slashes.
pub fn file_url(path: &str) -> (r: String)
    ensures
        r@ == file_url_spec(path@),
{
    let p = chars_of(path);
    let mut out = String::new();
    append_str(&mut out, "file:///");
    let ghost start = out@;
    let mut i: usize = 0;
    while i < p.len()
        invariant
            i <= p.len(),
            out@ == start + p@.take(i as int).map_values(|c: char| if c == '\\' { '/' } else { c }),
        decreases p.len() - i,
    {
        let c = p[i];
        if c == '\\' {
            out.push('/');
        } else {
            out.push(c);
        }
        i = i + 1;
        assert(p@.take(i as int).map_values(|c: char| if c == '\\' { '/' } else { c }) =~= p@.take(
            i - 1,
        ).map_values(|c: char| if c == '\\' { '/' } else { c }).push(if c == '\\' { '/' } else { c }));
    }
    assert(p@.take(p.len() as int) == p@);
    out
}

/// Where the PAC file is written.
pub fn pac_path(home: &str, sep: char) -> (r: String)
    ensures
        r@ == pac_path_spec(home@, sep),
{
    let dir = data_dir(home, sep);
    join_path(dir.as_str(), "rubypass.pac", sep)
}

/// Where the proxy settings are saved before the PAC is installed.
pub fn snapshot_path(home: &str, sep: char) -> (r: String)
    ensures
        r@ == snapshot_path_spec(home@, sep),
{
    let dir = data_dir(home, sep);
    join_path(dir.as_str(), "windows_proxy_snapshot.json", sep)
}

fn equals_opt(o: &Option<String>, s: &str) -> (r: bool)
    ensures
        r == (opt_view(*o) == Some(s@)),
{
    match o {
        None => false,
        Some(v) => {
            let a = chars_of_string(v);
            let b = chars_of(s);
            crate::text::chars_eq(&a, &b)
        },
    }
}

fn router_upstream(server: &Option<String>) -> (r: Option<UpstreamProxy>)
    ensures
        opt_proxy_view(r) == proxy_for_router_spec(opt_view(*server)),
{
    match server {
        Some(v) => proxy_for_router(Some(v.as_str())),
        None => proxy_for_router(None),
    }
}

/// How an installation starts, from the current settings and the URL of
/// our PAC file: with the system proxy off, our PAC already active means
/// synchronizing, anything else that there is no VPN proxy; with it on, the
/// static proxy it names becomes the upstream.
pub fn install(settings: &ProxySettings, pac_url: &str) -> (r: Result<InstallPlan, String>)
    ensures
        settings.proxy_enable == 0 && pac_url_active(*settings, pac_url@) ==> r matches Ok(
            InstallPlan::Sync,
        ),
        settings.proxy_enable == 0 && !pac_url_active(*settings, pac_url@) ==> (r matches Err(e)
            && e@ == "Системный proxy VPN не обнаружен"@),
        settings.proxy_enable != 0 ==> match proxy_for_router_spec(
            opt_view(settings.proxy_server),
        ) {
            None => r matches Err(e) && e@ == "Статический proxy VPN не обнаружен"@,
            Some(p) => r matches Ok(InstallPlan::Install(u)) && proxy_view(u) == p,
        },
{
    if settings.proxy_enable == 0 {
        if equals_opt(&settings.auto_config_url, pac_url) {
            return Ok(InstallPlan::Sync);
        }
        return Err("Системный proxy VPN не обнаружен".to_owned());
    }
    match router_upstream(&settings.proxy_server) {
        None => Err("Статический proxy VPN не обнаружен".to_owned()),
        Some(u) => Ok(InstallPlan::Install(u)),
    }
}

/// How a synchronization starts: with the system proxy on, its static proxy
/// (if any) replaces the saved settings and becomes the upstream; with it
/// off, only when our PAC is active is the saved proxy used again.
pub fn sync(settings: &ProxySettings, pac_url: &str) -> (r: SyncPlan)
    ensures
        settings.proxy_enable != 0 ==> match proxy_for_router_spec(
            opt_view(settings.proxy_server),
        ) {
            None => r is Skip,
            Some(p) => r matches SyncPlan::ReplaceSnapshotAndInstall(u) && proxy_view(u) == p,
        },
        settings.proxy_enable == 0 ==> if pac_url_active(*settings, pac_url@) {
            r is FromSnapshot
        } else {
            r is Skip
        },
{
    if settings.proxy_enable != 0 {
        return match router_upstream(&settings.proxy_server) {
            None => SyncPlan::Skip,
            Some(u) => SyncPlan::ReplaceSnapshotAndInstall(u),
        };
    }
    if !equals_opt(&settings.auto_config_url, pac_url) {
        return SyncPlan::Skip;
    }
    SyncPlan::FromSnapshot
}

/// The upstream proxy of the saved settings, if they were saved and name a
/// static proxy.
pub fn snapshot_upstream(snapshot: &Option<ProxySnapshot>) -> (r: Option<UpstreamProxy>)
    ensures
        match snapshot {
            None => r is None,
            Some(s) => opt_proxy_view(r) == proxy_for_router_spec(opt_view(s.proxy_server)),
        },
{
    match snapshot {
        None => None,
        Some(s) => router_upstream(&s.proxy_server),
    }
}

fn copy_opt(o: &Option<String>) -> (r: Option<String>)
    ensures
        opt_view(r) == opt_view(*o),
{
    match o {
        Some(s) => Some(s.clone()),
        None => None,
    }
}

/// The settings as they are saved before the PAC replaces them.
pub fn snapshot_of(settings: &ProxySettings) -> (r: ProxySnapshot)
    ensures
        r.proxy_enable == Some(settings.proxy_enable),
        opt_view(r.proxy_server) == opt_view(settings.proxy_server),
        opt_view(r.auto_config_url) == opt_view(settings.auto_config_url),
{
    ProxySnapshot {
        proxy_enable: Some(settings.proxy_enable),
        proxy_server: copy_opt(&settings.proxy_server),
        auto_config_url: copy_opt(&settings.auto_config_url),
    }
}

pub open spec fn sets_dword(c: RegistryChange, name: Seq<char>, value: u32) -> bool {
    c matches RegistryChange::SetDword(n, v) && n@ == name && v == value
}

pub open spec fn sets_string(c: RegistryChange, name: Seq<char>, value: Seq<char>) -> bool {
    c matches RegistryChange::SetString(n, v) && n@ == name && v@ == value
}

pub open spec fn deletes(c: RegistryChange, name: Seq<char>) -> bool {
    c matches RegistryChange::Delete(n) && n@ == name
}

/// The three changes that put saved settings back: each saved value set
/// again, each value that was absent deleted.
pub open spec fn restores_snapshot(c: Seq<RegistryChange>, snapshot: ProxySnapshot) -> bool {
    &&& c.len() == 3
    &&& match snapshot.proxy_enable {
        Some(v) => sets_dword(c[0], "ProxyEnable"@, v),
        None => deletes(c[0], "ProxyEnable"@),
    }
    &&& match snapshot.proxy_server {
        Some(v) => sets_string(c[1], "ProxyServer"@, v@),
        None => deletes(c[1], "ProxyServer"@),
    }
    &&& match snapshot.auto_config_url {
        Some(v) => sets_string(c[2], "AutoConfigURL"@, v@),
        None => deletes(c[2], "AutoConfigURL"@),
    }
}

/// The three changes that install the PAC: the system proxy off, no proxy
/// server, and `pac_url` as the auto-configuration URL.
pub open spec fn installs_pac(c: Seq<RegistryChange>, pac_url: Seq<char>) -> bool {
    &&& c.len() == 3
    &&& sets_dword(c[0], "ProxyEnable"@, 0)
    &&& deletes(c[1], "ProxyServer"@)
    &&& sets_string(c[2], "AutoConfigURL"@, pac_url)
}

/// Our PAC is the active auto-configuration in the settings read.
pub open spec fn pac_active_in(current: Option<ProxySettings>, pac_url: Seq<char>) -> bool {
    match current {
        Some(st) => pac_url_active(st, pac_url),
        None => false,
    }
}

/// What installing the PAC writes: the system proxy off, no proxy server,
/// and our PAC file as the auto-configuration URL.
pub fn install_changes(pac_url: &str) -> (r: Vec<RegistryChange>)
    ensures
        installs_pac(r@, pac_url@),
{
    let mut v: Vec<RegistryChange> = Vec::new();
    v.push(RegistryChange::SetDword("ProxyEnable".to_owned(), 0));
    v.push(RegistryChange::Delete("ProxyServer".to_owned()));
    v.push(RegistryChange::SetString("AutoConfigURL".to_owned(), pac_url.to_owned()));
    v
}

fn restore_one(name: &str, value: &Option<String>) -> (r: RegistryChange)
    ensures
        match value {
            Some(v) => sets_string(r, name@, v@),
            None => deletes(r, name@),
        },
{
    match value {
        Some(v) => RegistryChange::SetString(name.to_owned(), v.clone()),
        None => RegistryChange::Delete(name.to_owned()),
    }
}

/// What restoring the saved settings writes: each saved value set again,
/// each value that was absent deleted.
pub fn restore_changes(snapshot: &ProxySnapshot) -> (r: Vec<RegistryChange>)
    ensures
        restores_snapshot(r@, *snapshot),
{
    let mut v: Vec<RegistryChange> = Vec::new();
    match snapshot.proxy_enable {
        Some(x) => v.push(RegistryChange::SetDword("ProxyEnable".to_owned(), x)),
        None => v.push(RegistryChange::Delete("ProxyEnable".to_owned())),
    }
    v.push(restore_one("ProxyServer", &snapshot.proxy_server));
    v.push(restore_one("AutoConfigURL", &snapshot.auto_config_url));
    v
}

/// What restoring the proxy settings does.
#[derive(Clone, Debug)]
pub enum RestorePlan {
    /// Write these changes, then remove the saved settings and the PAC file.
    Apply(Vec<RegistryChange>),
    /// Nothing was saved and our PAC is not active: remove the PAC file only.
    PacFileOnly,
}

/// How restoring goes: with saved settings, they are written back; without
/// them, our PAC's URL is removed if it is the active one (the settings are
/// read, `current`, only in that case), else only the PAC file goes.
pub fn restore_plan(snapshot: &Option<ProxySnapshot>, current: &Option<ProxySettings>, pac_url: &str) -> (r:
    RestorePlan)
    ensures
        *snapshot matches Some(s) ==> (r matches RestorePlan::Apply(c) && restores_snapshot(c@, s)),
        snapshot is None && pac_active_in(*current, pac_url@) ==> (r matches RestorePlan::Apply(c)
            && c.len() == 1 && deletes(c[0], "AutoConfigURL"@)),
        snapshot is None && !pac_active_in(*current, pac_url@) ==> r is PacFileOnly,
{
    match snapshot {
        Some(s) => RestorePlan::Apply(restore_changes(s)),
        None => {
            let active = match current {
                Some(st) => equals_opt(&st.auto_config_url, pac_url),
                None => false,
            };
            if active {
                let mut v: Vec<RegistryChange> = Vec::new();
                v.push(RegistryChange::Delete("AutoConfigURL".to_owned()));
                RestorePlan::Apply(v)
            } else {
                RestorePlan::PacFileOnly
            }
        },
    }
}

/// A value under the Internet Settings key.
pub ghost enum RegValue {
    Dword(u32),
    Text(Seq<char>),
}

/// The key after one change.
pub open spec fn apply_change(key: Map<Seq<char>, RegValue>, c: RegistryChange) -> Map<Seq<char>, RegValue> {
    match c {
        RegistryChange::SetDword(n, v) => key.insert(n@, RegValue::Dword(v)),
        RegistryChange::SetString(n, v) => key.insert(n@, RegValue::Text(v@)),
        RegistryChange::Delete(n) => key.remove(n@),
    }
}

/// The key after the changes, in order.
pub open spec fn apply_changes(key: Map<Seq<char>, RegValue>, cs: Seq<RegistryChange>) -> Map<Seq<char>, RegValue>
    decreases cs.len(),
{
    if cs.len() == 0 {
        key
    } else {
        apply_change(apply_changes(key, cs.drop_last()), cs.last())
    }
}

/// A string value as the settings are read: present only as text.
pub open spec fn read_text(key: Map<Seq<char>, RegValue>, name: Seq<char>) -> Option<Seq<char>> {
    if key.contains_key(name) && key[name] is Text {
        Some(key[name]->Text_0)
    } else {
        None
    }
}

/// `settings` is what reading the key gives: `ProxyEnable` (0 when it is no
/// number), and the two strings where they are text.
pub open spec fn settings_read_from(key: Map<Seq<char>, RegValue>, settings: ProxySettings) -> bool {
    &&& settings.proxy_enable == (if key.contains_key("ProxyEnable"@) && key["ProxyEnable"@] is Dword {
        key["ProxyEnable"@]->Dword_0
    } else {
        0
    })
    &&& opt_view(settings.proxy_server) == read_text(key, "ProxyServer"@)
    &&& opt_view(settings.auto_config_url) == read_text(key, "AutoConfigURL"@)
}

/// Each of the three proxy values is either absent or of the type it is
/// read as, and `ProxyEnable` is present.
pub open spec fn proxy_values_typed(key: Map<Seq<char>, RegValue>) -> bool {
    &&& key.contains_key("ProxyEnable"@) && key["ProxyEnable"@] is Dword
    &&& key.contains_key("ProxyServer"@) ==> key["ProxyServer"@] is Text
    &&& key.contains_key("AutoConfigURL"@) ==> key["AutoConfigURL"@] is Text
}

/// Installing the PAC and then restoring the settings saved before it gives
/// the key back as it was: the settings are read from the key, saved as
/// [`snapshot_of`] saves them, [`install_changes`] are written and then
/// [`restore_changes`] of the saved settings.
pub proof fn lemma_install_then_restore(
    key: Map<Seq<char>, RegValue>,
    settings: ProxySettings,
    snapshot: ProxySnapshot,
    pac_url: Seq<char>,
    install: Seq<RegistryChange>,
    restore: Seq<RegistryChange>,
)
    requires
        proxy_values_typed(key),
        settings_read_from(key, settings),
        snapshot.proxy_enable == Some(settings.proxy_enable),
        opt_view(snapshot.proxy_server) == opt_view(settings.proxy_server),
        opt_view(snapshot.auto_config_url) == opt_view(settings.auto_config_url),
        installs_pac(install, pac_url),
        restores_snapshot(restore, snapshot),
    ensures
        apply_changes(apply_changes(key, install), restore) == key,
{
    reveal_with_fuel(apply_changes, 4);
    let pe = "ProxyEnable"@;
    let ps = "ProxyServer"@;
    let pa = "AutoConfigURL"@;
    assert(pe != ps && pe != pa && ps != pa) by {
        reveal_strlit("ProxyEnable");
        reveal_strlit("ProxyServer");
        reveal_strlit("AutoConfigURL");
        assert(pe[5] != ps[5]);
        assert(pe.len() != pa.len());
        assert(ps.len() != pa.len());
    }
    let mid = apply_changes(key, install);
    let out = apply_changes(mid, restore);
    assert(mid == apply_change(apply_change(apply_change(key, install[0]), install[1]), install[2])) by {
        assert(install.drop_last().drop_last().drop_last().len() == 0);
        assert(install.drop_last().drop_last().last() == install[0]);
        assert(install.drop_last().last() == install[1]);
    }
    assert(out == apply_change(apply_change(apply_change(mid, restore[0]), restore[1]), restore[2])) by {
        assert(restore.drop_last().drop_last().drop_last().len() == 0);
        assert(restore.drop_last().drop_last().last() == restore[0]);
        assert(restore.drop_last().last() == restore[1]);
    }
    assert forall|n: Seq<char>| n != pe && n != ps && n != pa implies (#[trigger] out.contains_key(n)
        == key.contains_key(n) && (key.contains_key(n) ==> out[n] == key[n])) by {}
    assert(out.contains_key(pe) && out[pe] == key[pe]);
    match snapshot.proxy_server {
        Some(v) => {
            assert(out.contains_key(ps) && out[ps] == RegValue::Text(v@));
        },
        None => {
            assert(!out.contains_key(ps));
        },
    }
    match snapshot.auto_config_url {
        Some(v) => {
            assert(out.contains_key(pa) && out[pa] == RegValue::Text(v@));
        },
        None => {
            assert(!out.contains_key(pa));
        },
    }
    assert(out =~= key);
}

// ---------------------------------------------------------------------------
// Reading a request head
// ---------------------------------------------------------------------------
/// Whether more of a request head must be read.
#[derive(Clone, Copy, Debug, PartialEq, Eq, Structural)]
pub enum HeadStatus {
    /// The head ends with an empty line: it is complete.
    Complete,
    /// No end yet and more than 64 KiB read: the request is refused.
    TooLarge,
    /// No end yet: read on.
    Incomplete,
}

/// The bytes hold an empty line (`\r\n\r\n`).
pub open spec fn has_head_end(buf: Seq<u8>) -> bool {
    exists|i: int|
        0 <= i && i + 4 <= buf.len() && #[trigger] buf.subrange(i, i + 4) == seq![13u8, 10u8, 13u8, 10u8]
}

/// Bytes read after a complete head keep it complete.
pub proof fn lemma_head_end_stays(buf: Seq<u8>, more: Seq<u8>)
    requires
        has_head_end(buf),
    ensures
        has_head_end(buf + more),
{
    let i = choose|i: int|
        0 <= i && i + 4 <= buf.len() && #[trigger] buf.subrange(i, i + 4) == seq![13u8, 10u8, 13u8, 10u8];
    assert((buf + more).subrange(i, i + 4) =~= buf.subrange(i, i + 4));
}

/// What the bytes read so far mean for the request head.
pub fn head_status(buf: &[u8]) -> (r: HeadStatus)
    ensures
        has_head_end(buf@) ==> r == HeadStatus::Complete,
        !has_head_end(buf@) && buf.len() > 65536 ==> r == HeadStatus::TooLarge,
        !has_head_end(buf@) && buf.len() <= 65536 ==> r == HeadStatus::Incomplete,
{
    let mut i: usize = 0;
    if buf.len() >= 4 {
        while i <= buf.len() - 4
            invariant
                buf.len() >= 4,
                i <= buf.len() - 3,
                forall|k: int|
                    0 <= k < i ==> #[trigger] buf@.subrange(k, k + 4) != seq![13u8, 10u8, 13u8, 10u8],
            decreases buf.len() - i,
        {
            if buf[i] == 13 && buf[i + 1] == 10 && buf[i + 2] == 13 && buf[i + 3] == 10 {
                assert(buf@.subrange(i as int, i + 4) =~= seq![13u8, 10u8, 13u8, 10u8]);
                return HeadStatus::Complete;
            }
            assert(buf@.subrange(i as int, i + 4) != seq![13u8, 10u8, 13u8, 10u8]) by {
                if buf@.subrange(i as int, i + 4) == seq![13u8, 10u8, 13u8, 10u8] {
                    assert(buf@.subrange(i as int, i + 4)[0] == buf[i as int]);
                    assert(buf@.subrange(i as int, i + 4)[1] == buf[i + 1]);
                    assert(buf@.subrange(i as int, i + 4)[2] == buf[i + 2]);
                    assert(buf@.subrange(i as int, i + 4)[3] == buf[i + 3]);
                }
            }
            i = i + 1;
        }
    }
    assert(!has_head_end(buf@));
    if buf.len() > 65536 {
        HeadStatus::TooLarge
    } else {
        HeadStatus::Incomplete
    }
}

// ---------------------------------------------------------------------------
// SOCKS5
// ---------------------------------------------------------------------------
/// What follows the first four bytes of a SOCKS5 connect reply.
#[derive(Clone, Copy, Debug, PartialEq, Eq, Structural)]
pub enum ReplyTail {
    /// So many more bytes (an IPv4 or IPv6 address and the port).
    Fixed(usize),
    /// A length byte, then that many bytes of a domain name and the port.
    Prefixed,
}

/// The greeting: version 5, one method, no authentication.
pub fn socks5_greeting() -> (r: Vec<u8>)
    ensures
        r@ == seq![5u8, 1u8, 0u8],
{
    let mut v: Vec<u8> = Vec::new();
    v.push(5);
    v.push(1);
    v.push(0);
    assert(v@ =~= seq![5u8, 1u8, 0u8]);
    v
}

/// The answer to the greeting must accept no authentication.
pub fn check_greeting_reply(reply: [u8; 2]) -> (r: Result<(), String>)
    ensures
        reply[0] == 5 && reply[1] == 0 ==> r is Ok,
        !(reply[0] == 5 && reply[1] == 0) ==> (r matches Err(e) && e@
            == "SOCKS5 upstream rejected no-auth handshake"@),
{
    if reply[0] == 5 && reply[1] == 0 {
        Ok(())
    } else {
        Err("SOCKS5 upstream rejected no-auth handshake".to_owned())
    }
}

/// The connect request for a host name and port:
/// `05 01 00 03 <len> <name> <port, big-endian>`.
pub open spec fn connect_request_spec(host: Seq<u8>, port: u16) -> Seq<u8> {
    seq![5u8, 1u8, 0u8, 3u8, host.len() as u8] + host + seq![(port / 256) as u8, (port % 256) as u8]
}

/// The SOCKS5 connect request for a target; a host name longer than 255
/// bytes cannot be sent.
pub fn socks5_connect_request(host: &str, port: u16) -> (r: Result<Vec<u8>, String>)
    ensures
        encode_utf8(host@).len() > 255 ==> (r matches Err(e) && e@
            == "SOCKS5 target host is too long"@),
        encode_utf8(host@).len() <= 255 ==> (r matches Ok(v) && v@ == connect_request_spec(
            encode_utf8(host@),
            port,
        )),
{
    let bytes = host.as_bytes();
    if bytes.len() > 255 {
        return Err("SOCKS5 target host is too long".to_owned());
    }
    let mut v: Vec<u8> = Vec::new();
    v.push(5);
    v.push(1);
    v.push(0);
    v.push(3);
    v.push(bytes.len() as u8);
    let ghost start = v@;
    let mut i: usize = 0;
    while i < bytes.len()
        invariant
            i <= bytes.len(),
            v@ == start + bytes@.take(i as int),
        decreases bytes.len() - i,
    {
        v.push(bytes[i]);
        i = i + 1;
        assert(start + bytes@.take(i as int) =~= (start + bytes@.take(i - 1)).push(bytes@[i - 1]));
    }
    assert(bytes@.take(bytes.len() as int) =~= bytes@);
    let hi = (port >> 8) as u8;
    let lo = (port & 0xff) as u8;
    assert(hi == (port / 256) as u8 && lo == (port % 256) as u8) by (bit_vector)
        requires
            hi == (port >> 8) as u8,
            lo == (port & 0xff) as u8,
    ;
    v.push(hi);
    v.push(lo);
    assert(v@ =~= connect_request_spec(encode_utf8(host@), port));
    Ok(v)
}

/// What the first four bytes of the connect reply say: success, and how
/// much of the reply is left to read.
pub fn socks5_reply(head: [u8; 4]) -> (r: Result<ReplyTail, String>)
    ensures
        head[1] != 0 ==> (r matches Err(e) && e@ == "SOCKS5 connect failed: "@ + dec_chars(
            head[1] as nat,
        )),
        head[1] == 0 && head[3] == 1 ==> r == Ok::<ReplyTail, String>(ReplyTail::Fixed(6)),
        head[1] == 0 && head[3] == 3 ==> r == Ok::<ReplyTail, String>(ReplyTail::Prefixed),
        head[1] == 0 && head[3] == 4 ==> r == Ok::<ReplyTail, String>(ReplyTail::Fixed(18)),
        head[1] == 0 && head[3] != 1 && head[3] != 3 && head[3] != 4 ==> (r matches Err(e) && e@
            == "SOCKS5 returned unknown address type"@),
{
    if head[1] != 0 {
        let mut msg = String::new();
        append_str(&mut msg, "SOCKS5 connect failed: ");
        let n = dec_string(head[1] as u64);
        append_chars(&mut msg, &n);
        return Err(msg);
    }
    if head[3] == 1 {
        Ok(ReplyTail::Fixed(6))
    } else if head[3] == 3 {
        Ok(ReplyTail::Prefixed)
    } else if head[3] == 4 {
        Ok(ReplyTail::Fixed(18))
    } else {
        Err("SOCKS5 returned unknown address type".to_owned())
    }
}

/// After a domain-name reply's length byte: the name and the port.
pub fn prefixed_tail_len(len: u8) -> (r: usize)
    ensures
        r == len + 2,
{
    len as usize + 2
}

// ---------------------------------------------------------------------------
// Handling a client of the router
// ---------------------------------------------------------------------------
/// What the router does with a client.
#[derive(Clone, Debug)]
pub enum ClientAction {
    /// Connect to the target, answer `200 Connection Established`, relay.
    TunnelDirect,
    /// Connect to the HTTP upstream, send it the request as received, relay.
    ForwardToUpstream,
    /// Open a SOCKS5 tunnel to the target, answer
    /// `200 Connection Established`, relay.
    TunnelViaSocks,
    /// Connect to the target, send these bytes, relay.
    SendDirect(Vec<u8>),
    /// Open a SOCKS5 tunnel to the target, send these bytes, relay.
    SendViaSocks(Vec<u8>),
}

/// The destination of a client's request, whether it goes around the VPN,
/// and what to do.
#[derive(Clone, Debug)]
pub struct ClientPlan {
    pub target: Target,
    pub direct: bool,
    pub action: ClientAction,
}

/// The authority of a `CONNECT authority ...` first line.
pub open spec fn connect_authority(first_line: Seq<char>) -> Option<Seq<char>> {
    if starts_with_spec(first_line, "CONNECT "@) {
        let w = words_spec(first_line.skip("CONNECT "@.len() as int));
        if w.len() > 0 {
            Some(w[0])
        } else {
            None
        }
    } else {
        None
    }
}

/// Whether a request is a `CONNECT`, and its destination.
pub open spec fn request_target(head: Seq<char>) -> Result<(bool, (Seq<char>, u16)), Seq<char>> {
    let ls = lines_spec(head);
    if ls.len() == 0 {
        Err("empty request"@)
    } else {
        match connect_authority(ls[0]) {
            Some(a) => match authority_result(a, 443) {
                Ok(t) => Ok((true, t)),
                Err(e) => Err(e),
            },
            None => match plain_target_spec(ls[0], head) {
                Ok(t) => Ok((false, t)),
                Err(e) => Err(e),
            },
        }
    }
}

/// The action for a request: direct or through the upstream, tunnelled
/// (`CONNECT`) or sent on (plain HTTP, rewritten where it leaves the proxy
/// chain).
pub open spec fn action_spec(
    a: ClientAction,
    connect: bool,
    direct: bool,
    kind: ProxyKind,
    text: Seq<char>,
    request: Seq<u8>,
    host: Seq<char>,
) -> bool {
    if connect {
        if direct {
            a is TunnelDirect
        } else if kind == ProxyKind::Http {
            a is ForwardToUpstream
        } else {
            a is TunnelViaSocks
        }
    } else {
        if direct {
            a matches ClientAction::SendDirect(b) && b@ == rewritten_from(text, request, host)
        } else if kind == ProxyKind::Http {
            a is ForwardToUpstream
        } else {
            a matches ClientAction::SendViaSocks(b) && b@ == rewritten_from(text, request, host)
        }
    }
}

/// The plan for a request whose head reads as `text`: its error, or its
/// destination, the decision and the action.
pub open spec fn plan_of(r: Result<ClientPlan, String>, text: Seq<char>, request: Seq<u8>, kind: ProxyKind) -> bool {
    match request_target(text) {
        Err(e) => r matches Err(x) && x@ == e,
        Ok((connect, t)) => r matches Ok(p) && target_view(p.target) == t && p.direct == direct_host(
            t.0,
        ) && action_spec(p.action, connect, p.direct, kind, text, request, t.0),
    }
}

fn connect_authority_of(first_line: &[char]) -> (r: Option<Vec<char>>)
    ensures
        match r {
            Some(a) => connect_authority(first_line@) == Some(a@),
            None => connect_authority(first_line@) is None,
        },
{
    let p = chars_of("CONNECT ");
    if !starts_with(first_line, &p) {
        return None;
    }
    let rest = sub_chars(first_line, p.len(), first_line.len());
    assert(rest@ == first_line@.skip(p.len() as int));
    let mut w = words(&rest);
    if w.len() == 0 {
        return None;
    }
    let a = w.swap_remove(0);
    Some(a)
}

/// What the router does with a client's request head.
pub fn plan_client(request: &[u8], state: &RouterState) -> (r: Result<ClientPlan, String>)
    ensures
        plan_of(r, utf8_lossy(request@), request@, state.upstream.kind),
        valid_utf8(request@) ==> plan_of(r, decode_utf8(request@), request@, state.upstream.kind),
{
    let head = decode_lossy(request);
    let hc = chars_of_string(&head);
    let ls = lines(&hc);
    if ls.len() == 0 {
        return Err("empty request".to_owned());
    }
    assert(ls[0]@ == lines_spec(head@)[0]);
    match connect_authority_of(&ls[0]) {
        Some(a) => {
            let a_str = string_of(&a);
            let target = match parse_authority(a_str.as_str(), 443) {
                Err(e) => {
                    return Err(e);
                },
                Ok(t) => t,
            };
            let direct = should_direct(target.host.as_str(), state);
            let action = if direct {
                ClientAction::TunnelDirect
            } else {
                match state.upstream.kind {
                    ProxyKind::Http => ClientAction::ForwardToUpstream,
                    ProxyKind::Socks5 => ClientAction::TunnelViaSocks,
                }
            };
            Ok(ClientPlan { target, direct, action })
        },
        None => {
            let first = string_of(&ls[0]);
            let target = match parse_plain_http_target(first.as_str(), head.as_str()) {
                Err(e) => {
                    return Err(e);
                },
                Ok(t) => t,
            };
            let direct = should_direct(target.host.as_str(), state);
            let action = if direct {
                ClientAction::SendDirect(rewrite_absolute_form(request, target.host.as_str()))
            } else {
                match state.upstream.kind {
                    ProxyKind::Http => ClientAction::ForwardToUpstream,
                    ProxyKind::Socks5 => ClientAction::SendViaSocks(
                        rewrite_absolute_form(request, target.host.as_str()),
                    ),
                }
            };
            Ok(ClientPlan { target, direct, action })
        },
    }
}

/// The router's state for an upstream proxy and a list of networks: the
/// networks parsed and merged.
pub fn router_state(upstream: UpstreamProxy, subnets: &[String]) -> (r: RouterState)
    ensures
        proxy_view(r.upstream) == proxy_view(upstream),
        sorted_strict(r.cidrs@),
        r.cidrs@.to_set() == aggregate_spec(cidr_set(string_views(subnets@))),
{
    RouterState { upstream, cidrs: aggregate_subnets(subnets) }
}

} // verus!
