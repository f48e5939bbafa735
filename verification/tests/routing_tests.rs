use rubypass::routing::{
    action_word, add_routes, batch_count, change_routes, fallback_script, helper_input,
    is_safe_ip, remove_routes, routes_via_gateway_linux, routes_via_gateway_macos,
    routes_via_gateway_windows, safe_subnets, windows_plan, RouteAction, ScriptKind,
    count_rows_done, RowOutcome,
};
use rubypass::net::Cidr;

fn strings(v: &[&str]) -> Vec<String> {
    v.iter().map(|s| s.to_string()).collect()
}

#[test]
fn test_is_safe_ip_blocks_injection() {
    assert!(is_safe_ip("192.168.1.1"));
    assert!(is_safe_ip("10.0.0.0/8"));
    assert!(!is_safe_ip("10.0.0.0/8\"; rm -rf /"));
    assert!(!is_safe_ip("192.168.1.1 && whoami"));
}

#[test]
fn safe_ip_accepts_only_digits_dots_and_slashes() {
    assert!(is_safe_ip(""));
    assert!(is_safe_ip("..//"));
    assert!(!is_safe_ip("1.2.3.4\n"));
    assert!(!is_safe_ip("１.2.3.4"));
    assert!(!is_safe_ip("a.b.c.d"));
}

#[test]
fn add_routes_keeps_only_safe_subnets() {
    let subnets = strings(&["10.0.0.0/8", "1.2.3.0/24; reboot", "5.6.0.0/16"]);
    let batch = add_routes(&subnets, "192.168.1.1").unwrap();
    assert_eq!(batch.action, RouteAction::Add);
    assert_eq!(batch.gateway, "192.168.1.1");
    assert_eq!(batch.cidrs, strings(&["10.0.0.0/8", "5.6.0.0/16"]));
    assert_eq!(safe_subnets(&subnets), strings(&["10.0.0.0/8", "5.6.0.0/16"]));
}

#[test]
fn add_routes_refuses_unsafe_gateway_or_empty_list() {
    let subnets = strings(&["10.0.0.0/8"]);
    assert!(add_routes(&subnets, "1.1.1.1; id").is_none());
    assert!(add_routes(&strings(&["bad cidr"]), "1.1.1.1").is_none());
    assert!(add_routes(&[], "1.1.1.1").is_none());
}

#[test]
fn remove_routes_prefers_the_live_table() {
    let listed = strings(&["10.0.0.0/8"]);
    let live = strings(&["77.88.55.0/24"]);
    let b = remove_routes(&listed, &live, "192.168.1.1").unwrap();
    assert_eq!(b.action, RouteAction::Delete);
    assert_eq!(b.cidrs, live);
    let b = remove_routes(&listed, &[], "192.168.1.1").unwrap();
    assert_eq!(b.cidrs, listed);
}

#[test]
fn change_routes_plans_change_and_fallback() {
    let subnets = strings(&["10.0.0.0/8", "x"]);
    let plan = change_routes(&subnets, "192.168.1.1", "10.1.1.1");
    let c = plan.change.unwrap();
    assert_eq!(c.action, RouteAction::Change);
    assert_eq!(c.gateway, "10.1.1.1");
    assert_eq!(c.cidrs, strings(&["10.0.0.0/8"]));
    let d = plan.delete_old.unwrap();
    assert_eq!(d.action, RouteAction::Delete);
    assert_eq!(d.gateway, "192.168.1.1");
    let a = plan.add_new.unwrap();
    assert_eq!(a.action, RouteAction::Add);
    assert_eq!(a.gateway, "10.1.1.1");
    let plan = change_routes(&subnets, "old gw", "10.1.1.1");
    assert!(plan.delete_old.is_none());
    assert!(plan.change.is_some());
}

#[test]
fn batch_count_and_action_words() {
    let b = add_routes(&strings(&["1.0.0.0/8", "2.0.0.0/8"]), "9.9.9.9").unwrap();
    assert_eq!(batch_count(&b, true), 2);
    assert_eq!(batch_count(&b, false), 0);
    assert_eq!(action_word(RouteAction::Add), "add");
    assert_eq!(action_word(RouteAction::Delete), "delete");
    assert_eq!(action_word(RouteAction::Change), "change");
}

#[test]
fn helper_input_is_one_subnet_per_line() {
    assert_eq!(helper_input(&strings(&["1.0.0.0/8", "2.0.0.0/8"])), "1.0.0.0/8\n2.0.0.0/8\n");
    assert_eq!(helper_input(&[]), "");
}

#[test]
fn fallback_scripts() {
    let c = strings(&["1.0.0.0/8"]);
    assert_eq!(
        fallback_script(ScriptKind::MacAdd, &c, "9.9.9.9"),
        "route add -net 1.0.0.0/8 9.9.9.9 2>/dev/null || true\n"
    );
    assert_eq!(
        fallback_script(ScriptKind::MacDelete, &c, "9.9.9.9"),
        "route delete -net 1.0.0.0/8 9.9.9.9 2>/dev/null || true\n"
    );
    assert_eq!(
        fallback_script(ScriptKind::MacChange, &c, "9.9.9.9"),
        "route change -net 1.0.0.0/8 9.9.9.9 2>/dev/null || route add -net 1.0.0.0/8 9.9.9.9 2>/dev/null || true\n"
    );
    assert_eq!(
        fallback_script(ScriptKind::LinuxAdd, &c, "9.9.9.9"),
        "#!/bin/sh\nip route add 1.0.0.0/8 via 9.9.9.9 2>/dev/null || true\n"
    );
    assert_eq!(
        fallback_script(ScriptKind::LinuxDelete, &strings(&["1.0.0.0/8", "2.0.0.0/8"]), "9.9.9.9"),
        "#!/bin/sh\nip route del 1.0.0.0/8 via 9.9.9.9 2>/dev/null || true\nip route del 2.0.0.0/8 via 9.9.9.9 2>/dev/null || true\n"
    );
}

#[test]
fn windows_plan_parses_gateway_and_subnets() {
    let subnets = strings(&["77.88.55.0/24", "bad", "10.0.0.0/x", "1.2.3.4/8"]);
    let (gw, cidrs) = windows_plan(&subnets, "192.168.1.1").unwrap();
    assert_eq!(gw, 0xC0A8_0101);
    assert_eq!(
        cidrs,
        vec![
            Cidr { network: 0x4D58_3700, prefix: 24 },
            Cidr { network: 0x0102_0304, prefix: 8 }
        ]
    );
    assert!(windows_plan(&subnets, "192.168.1").is_none());
    assert!(windows_plan(&strings(&["bad"]), "192.168.1.1").is_none());
}

#[test]
fn macos_routes_via_gateway() {
    let text = "Routing tables\n\nInternet:\nDestination        Gateway            Flags\n\
default            192.168.1.1        UGScg          en0\n\
77.88.55.0/24      192.168.1.1        UGSc           en0\n\
5.45.192.0/18      10.0.0.1           UGSc           utun3\n\
10/8               192.168.1.1        UGSc           en0\n";
    assert_eq!(
        routes_via_gateway_macos(text, "192.168.1.1"),
        strings(&["77.88.55.0/24", "10/8"])
    );
    assert!(routes_via_gateway_macos(text, "192.168.1.1; x").is_empty());
}

#[test]
fn linux_routes_via_gateway() {
    let text = "default via 192.168.1.1 dev eth0\n\
77.88.55.0/24 via 192.168.1.1 dev eth0\n\
10.0.0.0/8 via 10.8.0.1 dev tun0\n\
192.168.1.0/24 dev eth0 proto kernel scope link src 192.168.1.5\n";
    assert_eq!(routes_via_gateway_linux(text, "192.168.1.1"), strings(&["77.88.55.0/24"]));
    assert_eq!(routes_via_gateway_linux(text, "10.8.0.1"), strings(&["10.0.0.0/8"]));
}

#[test]
fn windows_routes_via_gateway() {
    let gw = 0xC0A8_0101u32;
    let rows = vec![(gw, 24u8, 0x4D58_3700u32), (gw, 0u8, 0u32), (0x0A00_0001, 8, 0x0A00_0000)];
    assert_eq!(routes_via_gateway_windows(&rows, "192.168.1.1"), strings(&["77.88.55.0/24"]));
    assert!(routes_via_gateway_windows(&rows, "192.168.1").is_empty());
}

#[test]
fn routes_read_from_the_windows_table_plan_back_to_the_same_blocks() {
    let gw = 0xC0A8_0101u32;
    let rows = vec![(gw, 24u8, 0x4D58_3700u32), (gw, 32u8, 0xFFFF_FFFF), (gw, 1u8, 0)];
    let listed = routes_via_gateway_windows(&rows, "192.168.1.1");
    assert_eq!(listed, strings(&["77.88.55.0/24", "255.255.255.255/32", "0.0.0.0/1"]));
    let (_, cidrs) = windows_plan(&listed, "192.168.1.1").unwrap();
    assert_eq!(
        cidrs,
        vec![
            Cidr { network: 0x4D58_3700, prefix: 24 },
            Cidr { network: 0xFFFF_FFFF, prefix: 32 },
            Cidr { network: 0, prefix: 1 }
        ]
    );
}

#[test]
fn windows_rows_that_count_as_done() {
    let outcomes = [RowOutcome::Done, RowOutcome::AlreadyExists, RowOutcome::Failed, RowOutcome::Done];
    assert_eq!(count_rows_done(true, &outcomes), 3);
    assert_eq!(count_rows_done(false, &outcomes), 2);
    assert_eq!(count_rows_done(true, &[]), 0);
    assert_eq!(count_rows_done(false, &[RowOutcome::AlreadyExists, RowOutcome::Failed]), 0);
}
