//! Planning of route changes: which subnets and which gateway are handed to
//! the system, the shell scripts used when no helper is installed, and the
//! reading of routes back from the system's routing table.
use vstd::prelude::*;
use crate::net::{
    Cidr, format_ipv4, format_ipv4_spec, lemma_dec_chars_parses, lemma_dec_chars_reads_back,
    lemma_format_ipv4_chars, lemma_ipv4_round_trip, parse_ipv4, parse_ipv4_spec,
};
use crate::text::{
    append_chars, append_str, chars_eq, chars_of, chars_of_string, dec_chars, dec_string,
    first_index, find_char, has_char, is_digit, is_first_index, lines, lines_spec,
    parse_unsigned, parse_unsigned_spec, string_of, string_views, sub_chars, views, words,
    words_spec,
};

verus! {

/// What is done with a route.
#[derive(Clone, Copy, Debug, PartialEq, Eq, Structural)]
pub enum RouteAction {
    Add,
    Delete,
    Change,
}

/// Routes to hand to the system in one privileged call.
#[derive(Clone, Debug)]
pub struct RouteBatch {
    pub action: RouteAction,
    pub gateway: String,
    pub cidrs: Vec<String>,
}

/// The shell script forms used when no helper is installed.
#[derive(Clone, Copy, Debug, PartialEq, Eq, Structural)]
pub enum ScriptKind {
    MacAdd,
    MacDelete,
    MacChange,
    LinuxAdd,
    LinuxDelete,
}

// ---------------------------------------------------------------------------
// Specifications
// ---------------------------------------------------------------------------
pub open spec fn safe_char(c: char) -> bool {
    is_digit(c) || c == '.' || c == '/'
}

/// Only digits, dots and slashes: nothing a shell would interpret.
pub open spec fn is_safe_ip_spec(s: Seq<char>) -> bool {
    forall|i: int| 0 <= i < s.len() ==> safe_char(#[trigger] s[i])
}

pub open spec fn keep_safe(s: Seq<char>) -> Option<Seq<char>> {
    if is_safe_ip_spec(s) {
        Some(s)
    } else {
        None
    }
}

/// The entries of a list that pass [`is_safe_ip_spec`], in order.
pub open spec fn safe_list(l: Seq<Seq<char>>) -> Seq<Seq<char>> {
    l.filter_map(|s: Seq<char>| keep_safe(s))
}

pub open spec fn batch_view(b: RouteBatch) -> (RouteAction, Seq<char>, Seq<Seq<char>>) {
    (b.action, b.gateway@, string_views(b.cidrs@))
}

/// The validated batch: nothing when the gateway is not a plain address or
/// no subnet is.
pub open spec fn plan_spec(subnets: Seq<Seq<char>>, gateway: Seq<char>, action: RouteAction) -> Option<
    (RouteAction, Seq<char>, Seq<Seq<char>>),
> {
    if !is_safe_ip_spec(gateway) || safe_list(subnets).len() == 0 {
        None
    } else {
        Some((action, gateway, safe_list(subnets)))
    }
}

pub open spec fn plan_view(r: Option<RouteBatch>) -> Option<(RouteAction, Seq<char>, Seq<Seq<char>>)> {
    match r {
        Some(b) => Some(batch_view(b)),
        None => None,
    }
}

/// The helper's action argument.
pub open spec fn action_word_spec(a: RouteAction) -> Seq<char> {
    match a {
        RouteAction::Add => "add"@,
        RouteAction::Delete => "delete"@,
        RouteAction::Change => "change"@,
    }
}

/// One line of a fallback script.
pub open spec fn script_line_spec(kind: ScriptKind, c: Seq<char>, gw: Seq<char>) -> Seq<char> {
    match kind {
        ScriptKind::MacAdd => "route add -net "@ + c + " "@ + gw + " 2>/dev/null || true\n"@,
        ScriptKind::MacDelete => "route delete -net "@ + c + " "@ + gw
            + " 2>/dev/null || true\n"@,
        ScriptKind::MacChange => "route change -net "@ + c + " "@ + gw
            + " 2>/dev/null || route add -net "@ + c + " "@ + gw + " 2>/dev/null || true\n"@,
        ScriptKind::LinuxAdd => "ip route add "@ + c + " via "@ + gw + " 2>/dev/null || true\n"@,
        ScriptKind::LinuxDelete => "ip route del "@ + c + " via "@ + gw
            + " 2>/dev/null || true\n"@,
    }
}

pub open spec fn script_header_spec(kind: ScriptKind) -> Seq<char> {
    match kind {
        ScriptKind::LinuxAdd | ScriptKind::LinuxDelete => "#!/bin/sh\n"@,
        _ => Seq::empty(),
    }
}

pub open spec fn script_body_spec(kind: ScriptKind, cidrs: Seq<Seq<char>>, gw: Seq<char>) -> Seq<
    char,
>
    decreases cidrs.len(),
{
    if cidrs.len() == 0 {
        Seq::empty()
    } else {
        script_body_spec(kind, cidrs.drop_last(), gw) + script_line_spec(kind, cidrs.last(), gw)
    }
}

/// A whole fallback script for a batch of subnets.
pub open spec fn script_spec(kind: ScriptKind, cidrs: Seq<Seq<char>>, gw: Seq<char>) -> Seq<char> {
    script_header_spec(kind) + script_body_spec(kind, cidrs, gw)
}

/// What the helper reads on its standard input: one subnet per line.
pub open spec fn helper_input_spec(cidrs: Seq<Seq<char>>) -> Seq<char>
    decreases cidrs.len(),
{
    if cidrs.len() == 0 {
        Seq::empty()
    } else {
        helper_input_spec(cidrs.drop_last()) + cidrs.last() + seq!['\n']
    }
}

/// A subnet as the Windows route calls take it: a plain `ADDRESS/PREFIX`
/// with a `u8` prefix.
pub open spec fn windows_entry(s: Seq<char>) -> Option<Cidr> {
    if !is_safe_ip_spec(s) {
        None
    } else {
        match first_index(s, '/') {
            None => None,
            Some(k) => match (parse_ipv4_spec(s.take(k)), parse_unsigned_spec(s.skip(k + 1), 255)) {
                (Some(ip), Some(p)) => Some(Cidr { network: ip, prefix: p as u8 }),
                _ => None,
            },
        }
    }
}

pub open spec fn windows_entries(subnets: Seq<Seq<char>>) -> Seq<Cidr> {
    subnets.filter_map(|s: Seq<char>| windows_entry(s))
}

/// The gateway (host byte order) and the routes for the Windows route calls.
pub open spec fn windows_plan_spec(subnets: Seq<Seq<char>>, gateway: Seq<char>) -> Option<
    (u32, Seq<Cidr>),
> {
    if !is_safe_ip_spec(gateway) {
        None
    } else {
        match parse_ipv4_spec(gateway) {
            None => None,
            Some(gw) => if windows_entries(subnets).len() == 0 {
                None
            } else {
                Some((gw, windows_entries(subnets)))
            },
        }
    }
}

/// A `netstat -rn` line whose second column is the gateway and whose first
/// is a `ADDRESS/PREFIX` destination.
pub open spec fn netstat_route(line: Seq<char>, gateway: Seq<char>) -> Option<Seq<char>> {
    let w = words_spec(line);
    if w.len() >= 2 && w[1] == gateway && has_char(w[0], '/') && is_safe_ip_spec(w[0]) {
        Some(w[0])
    } else {
        None
    }
}

pub open spec fn has_via(w: Seq<Seq<char>>, gateway: Seq<char>) -> bool {
    exists|i: int| 0 <= i < w.len() - 1 && w[i] == "via"@ && #[trigger] w[i + 1] == gateway
}

/// An `ip route show` line that routes through `via GATEWAY` and whose first
/// word is a `ADDRESS/PREFIX` destination.
pub open spec fn ip_route_line(line: Seq<char>, gateway: Seq<char>) -> Option<Seq<char>> {
    let w = words_spec(line);
    if w.len() >= 1 && has_via(w, gateway) && has_char(w[0], '/') && is_safe_ip_spec(w[0]) {
        Some(w[0])
    } else {
        None
    }
}

pub open spec fn macos_routes_spec(text: Seq<char>, gateway: Seq<char>) -> Seq<Seq<char>> {
    if !is_safe_ip_spec(gateway) {
        Seq::empty()
    } else {
        lines_spec(text).filter_map(|l: Seq<char>| netstat_route(l, gateway))
    }
}

pub open spec fn linux_routes_spec(text: Seq<char>, gateway: Seq<char>) -> Seq<Seq<char>> {
    if !is_safe_ip_spec(gateway) {
        Seq::empty()
    } else {
        lines_spec(text).filter_map(|l: Seq<char>| ip_route_line(l, gateway))
    }
}

/// Every destination read back from `netstat -rn` is a network written with
/// a `/`: host routes through the gateway are never returned.
pub proof fn lemma_macos_routes_are_networks(text: Seq<char>, gateway: Seq<char>)
    ensures
        forall|d: Seq<char>| #[trigger] macos_routes_spec(text, gateway).contains(d) ==> d.contains('/'),
{
    if is_safe_ip_spec(gateway) {
        let ls = lines_spec(text);
        let f = |l: Seq<char>| netstat_route(l, gateway);
        assert forall|d: Seq<char>| #[trigger] macos_routes_spec(text, gateway).contains(d) implies d.contains(
            '/',
        ) by {
            assert(macos_routes_spec(text, gateway) == ls.filter_map(f));
            ls.lemma_filter_map_contains(f, d);
            let t = choose|t: Seq<char>| #[trigger] ls.contains(t) && f(t) == Some(d);
            assert(has_char(d, '/'));
            let k = choose|k: int| 0 <= k < d.len() && d[k] == '/';
            assert(d[k] == '/');
        }
    }
}

/// Every destination read back from `ip route show` is a network written
/// with a `/`: a host route (`203.0.113.7 via GW`, such as the route to the
/// VPN server) is never returned, so it is never removed.
pub proof fn lemma_linux_routes_are_networks(text: Seq<char>, gateway: Seq<char>)
    ensures
        forall|d: Seq<char>| #[trigger] linux_routes_spec(text, gateway).contains(d) ==> d.contains('/'),
{
    if is_safe_ip_spec(gateway) {
        let ls = lines_spec(text);
        let f = |l: Seq<char>| ip_route_line(l, gateway);
        assert forall|d: Seq<char>| #[trigger] linux_routes_spec(text, gateway).contains(d) implies d.contains(
            '/',
        ) by {
            assert(linux_routes_spec(text, gateway) == ls.filter_map(f));
            ls.lemma_filter_map_contains(f, d);
            let t = choose|t: Seq<char>| #[trigger] ls.contains(t) && f(t) == Some(d);
            assert(has_char(d, '/'));
            let k = choose|k: int| 0 <= k < d.len() && d[k] == '/';
            assert(d[k] == '/');
        }
    }
}

/// One row of the Windows forwarding table: next hop, prefix length and
/// destination, the addresses in host byte order.
pub open spec fn table_route(row: (u32, u8, u32), gw: u32) -> Option<Seq<char>> {
    if row.0 != gw || row.1 == 0 {
        None
    } else {
        Some(format_ipv4_spec(row.2) + seq!['/'] + dec_chars(row.1 as nat))
    }
}

pub open spec fn windows_routes_spec(rows: Seq<(u32, u8, u32)>, gateway: Seq<char>) -> Seq<
    Seq<char>,
> {
    if !is_safe_ip_spec(gateway) {
        Seq::empty()
    } else {
        match parse_ipv4_spec(gateway) {
            None => Seq::empty(),
            Some(gw) => rows.filter_map(|r: (u32, u8, u32)| table_route(r, gw)),
        }
    }
}

/// Disabling (with no live routes read back) removes exactly the routes
/// that enabling added, via the same gateway; moving routes removes via the
/// old gateway and adds via the new one the same subnets.
pub proof fn lemma_removal_matches_addition(subnets: Seq<Seq<char>>, gateway: Seq<char>, other: Seq<char>)
    ensures
        plan_spec(subnets, gateway, RouteAction::Add) matches Some(a) ==> plan_spec(
            subnets,
            gateway,
            RouteAction::Delete,
        ) == Some((RouteAction::Delete, a.1, a.2)),
        plan_spec(subnets, gateway, RouteAction::Add) is None ==> plan_spec(
            subnets,
            gateway,
            RouteAction::Delete,
        ) is None,
        plan_spec(subnets, gateway, RouteAction::Delete) matches Some(d) ==> (plan_spec(
            subnets,
            other,
            RouteAction::Add,
        ) matches Some(a) ==> d.2 == a.2),
{
}

/// A route read back from the Windows forwarding table is taken, when it is
/// planned again (for removal), as the same network and prefix.
pub proof fn lemma_windows_route_round_trip(row: (u32, u8, u32), gw: u32)
    ensures
        table_route(row, gw) matches Some(s) ==> windows_entry(s) == Some(
            Cidr { network: row.2, prefix: row.1 },
        ),
{
    if let Some(s) = table_route(row, gw) {
        let f = format_ipv4_spec(row.2);
        let p = dec_chars(row.1 as nat);
        lemma_format_ipv4_chars(row.2);
        lemma_dec_chars_reads_back(row.1 as nat);
        lemma_dec_chars_parses(row.1 as nat, 255);
        lemma_ipv4_round_trip(row.2);
        assert(s == f + seq!['/'] + p);
        assert forall|i: int| 0 <= i < s.len() implies safe_char(#[trigger] s[i]) by {
            if i < f.len() {
                assert(s[i] == f[i]);
            } else if i > f.len() {
                assert(s[i] == p[i - f.len() - 1]);
            }
        }
        let k = f.len() as int;
        assert(is_first_index(s, '/', k)) by {
            assert forall|j: int| 0 <= j < k implies s[j] != '/' by {
                assert(s[j] == f[j]);
            }
        }
        assert(first_index(s, '/') == Some(k)) by {
            let c = choose|i: int| 0 <= i < s.len() && s[i] == '/' && forall|j: int| 0 <= j < i ==> s[j] != '/';
            assert(s[k] == '/');
            if c < k {
                assert(s[c] == f[c]);
            } else if c > k {
                assert(s[k] != '/');
            }
        }
        assert(s.take(k) =~= f);
        assert(s.skip(k + 1) =~= p);
    }
}

// ---------------------------------------------------------------------------
// Executable functions
// ---------------------------------------------------------------------------
fn is_safe_chars(s: &[char]) -> (r: bool)
    ensures
        r == is_safe_ip_spec(s@),
{
    let mut i: usize = 0;
    while i < s.len()
        invariant
            i <= s.len(),
            forall|j: int| 0 <= j < i ==> safe_char(#[trigger] s@[j]),
        decreases s.len() - i,
    {
        let c = s[i];
        if !(('0' <= c && c <= '9') || c == '.' || c == '/') {
            assert(!safe_char(s@[i as int]));
            return false;
        }
        i = i + 1;
    }
    true
}

/// Whether the string looks like an IPv4 address or CIDR: only ASCII digits,
/// `.` and `/`, so that no shell metacharacter can get through.
pub fn is_safe_ip(s: &str) -> (r: bool)
    ensures
        r == is_safe_ip_spec(s@),
{
    let v = chars_of(s);
    is_safe_chars(&v)
}

/// The entries of the list that pass [`is_safe_ip`], in order.
pub fn safe_subnets(subnets: &[String]) -> (r: Vec<String>)
    ensures
        string_views(r@) == safe_list(string_views(subnets@)),
{
    let ghost l = string_views(subnets@);
    let mut out: Vec<String> = Vec::new();
    let mut i: usize = 0;
    while i < subnets.len()
        invariant
            i <= subnets.len(),
            l == string_views(subnets@),
            string_views(out@) == safe_list(l.take(i as int)),
        decreases subnets.len() - i,
    {
        assert(l.take(i + 1).drop_last() == l.take(i as int));
        assert(l.take(i + 1).last() == subnets@[i as int]@);
        let ghost before = string_views(out@);
        if is_safe_ip(subnets[i].as_str()) {
            out.push(subnets[i].clone());
            assert(string_views(out@) =~= before + seq![subnets@[i as int]@]);
        }
        i = i + 1;
    }
    assert(l.take(subnets.len() as int) == l);
    out
}

/// Validates a batch: the gateway must be a plain address and at least one
/// subnet must be; the subnets that are not are left out.
pub fn plan_batch(subnets: &[String], gateway: &str, action: RouteAction) -> (r: Option<
    RouteBatch,
>)
    ensures
        plan_view(r) == plan_spec(string_views(subnets@), gateway@, action),
{
    if !is_safe_ip(gateway) {
        return None;
    }
    let valid = safe_subnets(subnets);
    if valid.len() == 0 {
        return None;
    }
    Some(RouteBatch { action, gateway: gateway.to_owned(), cidrs: valid })
}

/// The batch that adds every subnet as a route via the gateway.
pub fn add_routes(subnets: &[String], gateway: &str) -> (r: Option<RouteBatch>)
    ensures
        plan_view(r) == plan_spec(string_views(subnets@), gateway@, RouteAction::Add),
{
    plan_batch(subnets, gateway, RouteAction::Add)
}

/// The batch that removes routes via the gateway: the routes read from the
/// live routing table when there are any (so that routes of older lists go
/// too), else the given subnets.
pub fn remove_routes(subnets: &[String], live: &[String], gateway: &str) -> (r: Option<
    RouteBatch,
>)
    ensures
        live.len() > 0 ==> plan_view(r) == plan_spec(
            string_views(live@),
            gateway@,
            RouteAction::Delete,
        ),
        live.len() == 0 ==> plan_view(r) == plan_spec(
            string_views(subnets@),
            gateway@,
            RouteAction::Delete,
        ),
{
    if live.len() > 0 {
        plan_batch(live, gateway, RouteAction::Delete)
    } else {
        plan_batch(subnets, gateway, RouteAction::Delete)
    }
}

/// A move of routes to a new gateway: the batch of `change` actions, and
/// the removal via the old gateway and addition via the new one where the
/// routes are not changed in place.
#[derive(Clone, Debug)]
pub struct ChangePlan {
    pub change: Option<RouteBatch>,
    pub delete_old: Option<RouteBatch>,
    pub add_new: Option<RouteBatch>,
}

/// The batches that move every subnet's route from the old gateway to the
/// new one.
pub fn change_routes(subnets: &[String], old_gateway: &str, new_gateway: &str) -> (r: ChangePlan)
    ensures
        plan_view(r.change) == plan_spec(string_views(subnets@), new_gateway@, RouteAction::Change),
        plan_view(r.delete_old) == plan_spec(string_views(subnets@), old_gateway@, RouteAction::Delete),
        plan_view(r.add_new) == plan_spec(string_views(subnets@), new_gateway@, RouteAction::Add),
{
    ChangePlan {
        change: plan_batch(subnets, new_gateway, RouteAction::Change),
        delete_old: plan_batch(subnets, old_gateway, RouteAction::Delete),
        add_new: plan_batch(subnets, new_gateway, RouteAction::Add),
    }
}

/// What the system answered for one route row.
#[derive(Clone, Copy, Debug, PartialEq, Eq, Structural)]
pub enum RowOutcome {
    /// The row was added or deleted.
    Done,
    /// The route is there already.
    AlreadyExists,
    /// Any other error.
    Failed,
}

/// A row counts as done when the call succeeded; when adding, a route that
/// is there already counts too.
pub open spec fn row_counts(add: bool, o: RowOutcome) -> bool {
    match o {
        RowOutcome::Done => true,
        RowOutcome::AlreadyExists => add,
        RowOutcome::Failed => false,
    }
}

/// The number of rows that count as done.
pub open spec fn rows_done(add: bool, outcomes: Seq<RowOutcome>) -> nat
    decreases outcomes.len(),
{
    if outcomes.len() == 0 {
        0
    } else {
        rows_done(add, outcomes.drop_last()) + if row_counts(add, outcomes.last()) {
            1nat
        } else {
            0nat
        }
    }
}

/// The number of routes a batch of single-row calls reports: the rows whose
/// call succeeded, and when adding also those whose route was there already.
pub fn count_rows_done(add: bool, outcomes: &[RowOutcome]) -> (n: usize)
    ensures
        n == rows_done(add, outcomes@),
        n <= outcomes.len(),
{
    let mut n: usize = 0;
    let mut i: usize = 0;
    while i < outcomes.len()
        invariant
            i <= outcomes.len(),
            n == rows_done(add, outcomes@.take(i as int)),
            n <= i,
        decreases outcomes.len() - i,
    {
        assert(outcomes@.take(i + 1).drop_last() == outcomes@.take(i as int));
        let counts = match outcomes[i] {
            RowOutcome::Done => true,
            RowOutcome::AlreadyExists => add,
            RowOutcome::Failed => false,
        };
        if counts {
            n = n + 1;
        }
        i = i + 1;
    }
    assert(outcomes@.take(outcomes.len() as int) == outcomes@);
    n
}

/// The number of routes a batch reports: all of them when the privileged
/// call succeeded, none otherwise.
pub fn batch_count(batch: &RouteBatch, ok: bool) -> (n: usize)
    ensures
        n == (if ok {
            batch.cidrs.len()
        } else {
            0
        }),
{
    if ok {
        batch.cidrs.len()
    } else {
        0
    }
}

/// The helper's action argument.
pub fn action_word(a: RouteAction) -> (r: String)
    ensures
        r@ == action_word_spec(a),
{
    match a {
        RouteAction::Add => "add".to_owned(),
        RouteAction::Delete => "delete".to_owned(),
        RouteAction::Change => "change".to_owned(),
    }
}

/// What is written to the helper's standard input: one subnet per line.
pub fn helper_input(cidrs: &[String]) -> (r: String)
    ensures
        r@ == helper_input_spec(string_views(cidrs@)),
{
    let ghost l = string_views(cidrs@);
    let mut out = String::new();
    let mut i: usize = 0;
    while i < cidrs.len()
        invariant
            i <= cidrs.len(),
            l == string_views(cidrs@),
            out@ == helper_input_spec(l.take(i as int)),
        decreases cidrs.len() - i,
    {
        assert(l.take(i + 1).drop_last() == l.take(i as int));
        assert(l.take(i + 1).last() == cidrs@[i as int]@);
        append_str(&mut out, cidrs[i].as_str());
        out.push('\n');
        i = i + 1;
    }
    assert(l.take(cidrs.len() as int) == l);
    out
}

fn script_line(kind: ScriptKind, c: &str, gw: &str) -> (r: String)
    ensures
        r@ == script_line_spec(kind, c@, gw@),
{
    let mut out = String::new();
    match kind {
        ScriptKind::MacAdd => {
            append_str(&mut out, "route add -net ");
            append_str(&mut out, c);
            append_str(&mut out, " ");
            append_str(&mut out, gw);
            append_str(&mut out, " 2>/dev/null || true\n");
        },
        ScriptKind::MacDelete => {
            append_str(&mut out, "route delete -net ");
            append_str(&mut out, c);
            append_str(&mut out, " ");
            append_str(&mut out, gw);
            append_str(&mut out, " 2>/dev/null || true\n");
        },
        ScriptKind::MacChange => {
            append_str(&mut out, "route change -net ");
            append_str(&mut out, c);
            append_str(&mut out, " ");
            append_str(&mut out, gw);
            append_str(&mut out, " 2>/dev/null || route add -net ");
            append_str(&mut out, c);
            append_str(&mut out, " ");
            append_str(&mut out, gw);
            append_str(&mut out, " 2>/dev/null || true\n");
        },
        ScriptKind::LinuxAdd => {
            append_str(&mut out, "ip route add ");
            append_str(&mut out, c);
            append_str(&mut out, " via ");
            append_str(&mut out, gw);
            append_str(&mut out, " 2>/dev/null || true\n");
        },
        ScriptKind::LinuxDelete => {
            append_str(&mut out, "ip route del ");
            append_str(&mut out, c);
            append_str(&mut out, " via ");
            append_str(&mut out, gw);
            append_str(&mut out, " 2>/dev/null || true\n");
        },
    }
    assert(out@ =~= script_line_spec(kind, c@, gw@));
    out
}

/// The fallback script that applies a batch when no helper is installed.
pub fn fallback_script(kind: ScriptKind, cidrs: &[String], gateway: &str) -> (r: String)
    ensures
        r@ == script_spec(kind, string_views(cidrs@), gateway@),
{
    let ghost l = string_views(cidrs@);
    let mut out = String::new();
    match kind {
        ScriptKind::LinuxAdd | ScriptKind::LinuxDelete => {
            append_str(&mut out, "#!/bin/sh\n");
        },
        _ => {},
    }
    let ghost header = out@;
    assert(header == script_header_spec(kind));
    let mut i: usize = 0;
    while i < cidrs.len()
        invariant
            i <= cidrs.len(),
            l == string_views(cidrs@),
            out@ == header + script_body_spec(kind, l.take(i as int), gateway@),
        decreases cidrs.len() - i,
    {
        assert(l.take(i + 1).drop_last() == l.take(i as int));
        assert(l.take(i + 1).last() == cidrs@[i as int]@);
        let line = script_line(kind, cidrs[i].as_str(), gateway);
        append_str(&mut out, line.as_str());
        i = i + 1;
        assert(out@ =~= header + script_body_spec(kind, l.take(i as int), gateway@));
    }
    assert(l.take(cidrs.len() as int) == l);
    out
}

fn windows_entry_of(s: &String) -> (r: Option<Cidr>)
    ensures
        r == windows_entry(s@),
{
    let v = chars_of_string(s);
    if !is_safe_chars(&v) {
        return None;
    }
    match find_char(&v, '/') {
        None => {
            assert(first_index(v@, '/') is None);
            None
        },
        Some(k) => {
            assert(is_first_index(v@, '/', k as int));
            assert(first_index(v@, '/') == Some(k as int));
            assert(k < v.len());
            let a = sub_chars(&v, 0, k);
            let b = sub_chars(&v, k + 1, v.len());
            assert(a@ == v@.take(k as int));
            assert(b@ == v@.skip(k + 1));
            match (parse_ipv4(&a), parse_unsigned(&b, 255)) {
                (Some(ip), Some(p)) => Some(Cidr { network: ip, prefix: p as u8 }),
                _ => None,
            }
        },
    }
}

/// The gateway (host byte order) and routes for the Windows route calls;
/// nothing when the gateway does not parse or no subnet does.
pub fn windows_plan(subnets: &[String], gateway: &str) -> (r: Option<(u32, Vec<Cidr>)>)
    ensures
        match r {
            Some((gw, v)) => windows_plan_spec(string_views(subnets@), gateway@) == Some(
                (gw, v@),
            ),
            None => windows_plan_spec(string_views(subnets@), gateway@) is None,
        },
{
    let g = chars_of(gateway);
    if !is_safe_chars(&g) {
        return None;
    }
    let gw = match parse_ipv4(&g) {
        None => {
            return None;
        },
        Some(x) => x,
    };
    let ghost l = string_views(subnets@);
    let mut out: Vec<Cidr> = Vec::new();
    let mut i: usize = 0;
    while i < subnets.len()
        invariant
            i <= subnets.len(),
            l == string_views(subnets@),
            out@ == l.take(i as int).filter_map(|s: Seq<char>| windows_entry(s)),
        decreases subnets.len() - i,
    {
        assert(l.take(i + 1).drop_last() == l.take(i as int));
        assert(l.take(i + 1).last() == subnets@[i as int]@);
        match windows_entry_of(&subnets[i]) {
            Some(c) => {
                out.push(c);
            },
            None => {},
        }
        i = i + 1;
    }
    assert(l.take(subnets.len() as int) == l);
    if out.len() == 0 {
        return None;
    }
    Some((gw, out))
}

fn is_via(w: &[char]) -> (r: bool)
    ensures
        r == (w@ == "via"@),
{
    let via = chars_of("via");
    chars_eq(w, &via)
}

/// Routes via the gateway in the output of `netstat -rn -f inet` (macOS).
pub fn routes_via_gateway_macos(netstat: &str, gateway: &str) -> (r: Vec<String>)
    ensures
        string_views(r@) == macos_routes_spec(netstat@, gateway@),
{
    let mut out: Vec<String> = Vec::new();
    let g = chars_of(gateway);
    if !is_safe_chars(&g) {
        return out;
    }
    let text = chars_of(netstat);
    let ls = lines(&text);
    let ghost lv = views(ls@);
    let mut i: usize = 0;
    while i < ls.len()
        invariant
            i <= ls.len(),
            lv == views(ls@),
            lv == lines_spec(netstat@),
            g@ == gateway@,
            string_views(out@) == lv.take(i as int).filter_map(
                |l: Seq<char>| netstat_route(l, gateway@),
            ),
        decreases ls.len() - i,
    {
        assert(lv.take(i + 1).drop_last() == lv.take(i as int));
        assert(lv.take(i + 1).last() == ls[i as int]@);
        let w = words(&ls[i]);
        let ghost wv = views(w@);
        let ghost before = string_views(out@);
        if w.len() >= 2 && chars_eq(&w[1], &g) {
            assert(wv[1] == w[1 as int]@ && wv[0] == w[0 as int]@);
            let has_slash = find_char(&w[0], '/').is_some();
            if has_slash && is_safe_chars(&w[0]) {
                let d = string_of(&w[0]);
                out.push(d);
                assert(string_views(out@) =~= before + seq![d@]);
            }
        } else {
            assert(w.len() >= 2 ==> wv[1] == w[1 as int]@);
        }
        i = i + 1;
    }
    assert(lv.take(ls.len() as int) == lv);
    out
}

fn words_have_via(w: &Vec<Vec<char>>, g: &[char]) -> (r: bool)
    ensures
        r == has_via(views(w@), g@),
{
    let ghost wv = views(w@);
    let mut i: usize = 0;
    while w.len() > 0 && i < w.len() - 1
        invariant
            wv == views(w@),
            i <= w.len(),
            forall|j: int| 0 <= j < i && j < wv.len() - 1 ==> !(wv[j] == "via"@ && #[trigger] wv[j
                + 1] == g@),
        decreases w.len() - i,
    {
        assert(wv[i as int] == w[i as int]@ && wv[i + 1] == w[i + 1]@);
        if is_via(&w[i]) && chars_eq(&w[i + 1], g) {
            return true;
        }
        i = i + 1;
    }
    false
}

/// Routes via the gateway in the output of `ip route show` (Linux).
pub fn routes_via_gateway_linux(ip_route: &str, gateway: &str) -> (r: Vec<String>)
    ensures
        string_views(r@) == linux_routes_spec(ip_route@, gateway@),
        forall|i: int| 0 <= i < r.len() ==> (#[trigger] r@[i])@.contains('/'),
{
    proof {
        lemma_linux_routes_are_networks(ip_route@, gateway@);
    }
    let mut out: Vec<String> = Vec::new();
    let g = chars_of(gateway);
    if !is_safe_chars(&g) {
        return out;
    }
    let text = chars_of(ip_route);
    let ls = lines(&text);
    let ghost lv = views(ls@);
    let mut i: usize = 0;
    while i < ls.len()
        invariant
            i <= ls.len(),
            lv == views(ls@),
            lv == lines_spec(ip_route@),
            g@ == gateway@,
            string_views(out@) == lv.take(i as int).filter_map(
                |l: Seq<char>| ip_route_line(l, gateway@),
            ),
        decreases ls.len() - i,
    {
        assert(lv.take(i + 1).drop_last() == lv.take(i as int));
        assert(lv.take(i + 1).last() == ls[i as int]@);
        let w = words(&ls[i]);
        let ghost wv = views(w@);
        let ghost before = string_views(out@);
        if w.len() >= 1 && words_have_via(&w, &g) {
            assert(wv[0] == w[0 as int]@);
            let has_slash = find_char(&w[0], '/').is_some();
            if has_slash && is_safe_chars(&w[0]) {
                let d = string_of(&w[0]);
                out.push(d);
                assert(string_views(out@) =~= before + seq![d@]);
            }
        }
        i = i + 1;
    }
    assert(lv.take(ls.len() as int) == lv);
    assert forall|k: int| 0 <= k < out.len() implies (#[trigger] out@[k])@.contains('/') by {
        assert(string_views(out@)[k] == out@[k]@);
        assert(linux_routes_spec(ip_route@, gateway@).contains(out@[k]@));
    }
    out
}

/// Routes via the gateway among the rows of the Windows forwarding table
/// (next hop, prefix length, destination; host byte order), as
/// `ADDRESS/PREFIX`; rows with prefix length 0 are left out.
pub fn routes_via_gateway_windows(rows: &[(u32, u8, u32)], gateway: &str) -> (r: Vec<String>)
    ensures
        string_views(r@) == windows_routes_spec(rows@, gateway@),
{
    let mut out: Vec<String> = Vec::new();
    let g = chars_of(gateway);
    if !is_safe_chars(&g) {
        return out;
    }
    let gw = match parse_ipv4(&g) {
        None => {
            return out;
        },
        Some(x) => x,
    };
    let mut i: usize = 0;
    while i < rows.len()
        invariant
            i <= rows.len(),
            parse_ipv4_spec(gateway@) == Some(gw),
            is_safe_ip_spec(gateway@),
            string_views(out@) == rows@.take(i as int).filter_map(
                |r: (u32, u8, u32)| table_route(r, gw),
            ),
        decreases rows.len() - i,
    {
        assert(rows@.take(i + 1).drop_last() == rows@.take(i as int));
        assert(rows@.take(i + 1).last() == rows@[i as int]);
        let (hop, prefix, dest) = rows[i];
        let ghost before = string_views(out@);
        if hop == gw && prefix != 0 {
            let ip = format_ipv4(dest);
            let p = dec_string(prefix as u64);
            let mut s = String::new();
            append_chars(&mut s, &ip);
            s.push('/');
            append_chars(&mut s, &p);
            assert(s@ =~= format_ipv4_spec(dest) + seq!['/'] + dec_chars(prefix as nat));
            out.push(s);
            assert(string_views(out@) =~= before + seq![s@]);
        }
        i = i + 1;
    }
    assert(rows@.take(rows.len() as int) == rows@);
    out
}

} // verus!
