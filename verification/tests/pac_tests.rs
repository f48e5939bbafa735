use rubypass::pac::{
    check_greeting_reply, diagnostics, file_url, generate_pac, has_russian_suffix, head_status,
    install, install_changes, normalize_proxy, pac_path, parse_authority, parse_plain_http_target,
    plan_client, prefixed_tail_len, restore_plan, RestorePlan, proxy_for_router, proxy_signature, restore_changes,
    rewrite_absolute_form, rewrite_request_text, router_state, should_direct, snapshot_of,
    snapshot_path, snapshot_upstream, socks5_connect_request, socks5_greeting, socks5_reply, sync,
    ClientAction, HeadStatus, InstallPlan, ProxyKind, ProxySettings, ProxySnapshot, RegistryChange,
    ReplyTail, RouterMetrics, RouterState, SyncPlan, UpstreamProxy,
};

fn chars(s: &str) -> Vec<char> {
    s.chars().collect()
}

fn upstream(kind: ProxyKind, host: &str, port: u16) -> UpstreamProxy {
    UpstreamProxy { kind, host: host.to_string(), port }
}

fn state(kind: ProxyKind) -> RouterState {
    router_state(upstream(kind, "10.8.0.1", 8080), &["77.88.55.0/24".to_string()])
}

fn settings(enable: u32, server: Option<&str>, pac: Option<&str>) -> ProxySettings {
    ProxySettings {
        proxy_enable: enable,
        proxy_server: server.map(str::to_string),
        auto_config_url: pac.map(str::to_string),
    }
}

#[test]
fn proxy_for_router_plain_and_per_protocol() {
    let p = proxy_for_router(Some(" 127.0.0.1:10809 ")).unwrap();
    assert_eq!((p.kind, p.host.as_str(), p.port), (ProxyKind::Http, "127.0.0.1", 10809));
    let p = proxy_for_router(Some("http=1.1.1.1:80;HTTPS=2.2.2.2:443;socks=3.3.3.3:1080")).unwrap();
    assert_eq!((p.kind, p.host.as_str(), p.port), (ProxyKind::Http, "2.2.2.2", 443));
    let p = proxy_for_router(Some("socks=3.3.3.3:1080")).unwrap();
    assert_eq!((p.kind, p.host.as_str(), p.port), (ProxyKind::Socks5, "3.3.3.3", 1080));
    let p = proxy_for_router(Some("http=http://[::1]:8080")).unwrap();
    assert_eq!((p.kind, p.host.as_str(), p.port), (ProxyKind::Http, "::1", 8080));
    assert!(proxy_for_router(None).is_none());
    assert!(proxy_for_router(Some("   ")).is_none());
    assert!(proxy_for_router(Some("ftp=1.1.1.1:21")).is_none());
    assert!(proxy_for_router(Some("1.1.1.1")).is_none());
    assert!(proxy_for_router(Some("1.1.1.1:99999")).is_none());
}

#[test]
fn the_router_is_never_its_own_upstream() {
    assert!(proxy_for_router(Some("127.0.0.1:17890")).is_none());
    assert!(normalize_proxy(&chars("http://127.0.0.1:17890"), false).is_none());
    let p = normalize_proxy(&chars("socks5://127.0.0.1:17891"), true).unwrap();
    assert_eq!((p.kind, p.port), (ProxyKind::Socks5, 17891));
}

#[test]
fn pac_file_text() {
    let pac = generate_pac(&upstream(ProxyKind::Http, "127.0.0.1", 10809));
    assert_eq!(
        pac,
        "function FindProxyForURL(url, host) {\n  return \"PROXY 127.0.0.1:17890; PROXY 127.0.0.1:10809\";\n}\n"
    );
    let pac = generate_pac(&upstream(ProxyKind::Socks5, "vpn", 1080));
    assert!(pac.contains("SOCKS vpn:1080"));
}

#[test]
fn authority_parsing() {
    let t = parse_authority("example.ru:8443", 443).unwrap();
    assert_eq!((t.host.as_str(), t.port), ("example.ru", 8443));
    let t = parse_authority("example.ru", 443).unwrap();
    assert_eq!((t.host.as_str(), t.port), ("example.ru", 443));
    let t = parse_authority("[::1]:80", 443).unwrap();
    assert_eq!((t.host.as_str(), t.port), ("::1", 80));
    assert_eq!(parse_authority("host:port", 80).unwrap_err(), "invalid target port");
    assert_eq!(parse_authority("host:70000", 80).unwrap_err(), "invalid target port");
}

#[test]
fn plain_http_targets() {
    let t = parse_plain_http_target("GET http://ya.ru:8080/x HTTP/1.1", "").unwrap();
    assert_eq!((t.host.as_str(), t.port), ("ya.ru", 8080));
    let t = parse_plain_http_target("GET / HTTP/1.1", "GET / HTTP/1.1\r\nhost: mail.ru\r\n\r\n").unwrap();
    assert_eq!((t.host.as_str(), t.port), ("mail.ru", 80));
    assert_eq!(parse_plain_http_target("GET", "").unwrap_err(), "missing request target");
    assert_eq!(
        parse_plain_http_target("GET / HTTP/1.1", "GET / HTTP/1.1\r\nAccept: */*\r\n\r\n").unwrap_err(),
        "missing Host header"
    );
}

#[test]
fn russian_hosts_go_direct() {
    let st = state(ProxyKind::Http);
    assert!(should_direct("yandex.ru", &st));
    assert!(should_direct("YANDEX.RU.", &st));
    assert!(should_direct("сайт.рф", &st));
    assert!(should_direct("САЙТ.РФ", &st));
    assert!(should_direct("mos.москва", &st));
    assert!(should_direct("x.moscow", &st));
    assert!(should_direct("old.su", &st));
    assert!(!should_direct("google.com", &st));
    assert!(!should_direct("ru", &st));
    assert!(!should_direct("77.88.55.60", &st));
    assert!(has_russian_suffix(&chars("a.рус")));
    assert!(!has_russian_suffix(&chars("a.RU")));
}

#[test]
fn rewriting_absolute_form() {
    let req = b"GET http://ya.ru/path?q=1 HTTP/1.1\r\nHost: ya.ru\r\n\r\n";
    assert_eq!(
        rewrite_absolute_form(req, "ya.ru"),
        b"GET /path?q=1 HTTP/1.1\r\nHost: ya.ru\r\n\r\n".to_vec()
    );
    let req = b"GET http://ya.ru HTTP/1.0\r\nAccept: */*\r\n\r\n";
    assert_eq!(
        rewrite_absolute_form(req, "ya.ru"),
        b"GET / HTTP/1.0\r\nHost: ya.ru\r\nAccept: */*\r\n\r\n".to_vec()
    );
    let req = b"GET /already HTTP/1.1\r\nHost: ya.ru\r\n\r\n";
    assert_eq!(rewrite_absolute_form(req, "ya.ru"), req.to_vec());
    let req = b"GET http://ya.ru/ HTTP/1.1";
    assert_eq!(rewrite_absolute_form(req, "ya.ru"), req.to_vec());
    assert_eq!(
        rewrite_request_text(&chars("POST http://a.ru/b HTTP/1.1\r\nhost: a.ru\r\n"), &chars("a.ru")),
        Some(chars("POST /b HTTP/1.1\r\nhost: a.ru\r\n"))
    );
}

#[test]
fn planning_connect_requests() {
    let direct = plan_client(b"CONNECT ya.ru:443 HTTP/1.1\r\nHost: ya.ru:443\r\n\r\n", &state(ProxyKind::Http)).unwrap();
    assert!(direct.direct);
    assert_eq!((direct.target.host.as_str(), direct.target.port), ("ya.ru", 443));
    assert!(matches!(direct.action, ClientAction::TunnelDirect));

    let vpn = plan_client(b"CONNECT google.com:443 HTTP/1.1\r\n\r\n", &state(ProxyKind::Http)).unwrap();
    assert!(!vpn.direct);
    assert!(matches!(vpn.action, ClientAction::ForwardToUpstream));

    let socks = plan_client(b"CONNECT google.com HTTP/1.1\r\n\r\n", &state(ProxyKind::Socks5)).unwrap();
    assert_eq!(socks.target.port, 443);
    assert!(matches!(socks.action, ClientAction::TunnelViaSocks));
}

#[test]
fn planning_plain_requests() {
    let req = b"GET http://ya.ru/a HTTP/1.1\r\nHost: ya.ru\r\n\r\n";
    let plan = plan_client(req, &state(ProxyKind::Http)).unwrap();
    assert!(plan.direct);
    assert_eq!(plan.target.port, 80);
    match plan.action {
        ClientAction::SendDirect(bytes) => assert_eq!(bytes, b"GET /a HTTP/1.1\r\nHost: ya.ru\r\n\r\n".to_vec()),
        _ => panic!("expected a direct send"),
    }
    let req = b"GET http://example.com/a HTTP/1.1\r\n\r\n";
    let plan = plan_client(req, &state(ProxyKind::Socks5)).unwrap();
    match plan.action {
        ClientAction::SendViaSocks(bytes) => {
            assert_eq!(bytes, b"GET /a HTTP/1.1\r\nHost: example.com\r\n\r\n".to_vec())
        }
        _ => panic!("expected a SOCKS send"),
    }
    let plan = plan_client(req, &state(ProxyKind::Http)).unwrap();
    assert!(matches!(plan.action, ClientAction::ForwardToUpstream));
}

#[test]
fn planning_errors() {
    assert_eq!(plan_client(b"", &state(ProxyKind::Http)).unwrap_err(), "empty request");
    assert_eq!(plan_client(b"CONNECT a.ru:x HTTP/1.1\r\n\r\n", &state(ProxyKind::Http)).unwrap_err(), "invalid target port");
    assert_eq!(plan_client(b"GET\r\n\r\n", &state(ProxyKind::Http)).unwrap_err(), "missing request target");
    assert_eq!(plan_client(b"GET / HTTP/1.1\r\n\r\n", &state(ProxyKind::Http)).unwrap_err(), "missing Host header");
}

#[test]
fn head_reading() {
    assert_eq!(head_status(b"GET / HTTP/1.1\r\n\r\n"), HeadStatus::Complete);
    assert_eq!(head_status(b"GET / HTTP/1.1\r\n"), HeadStatus::Incomplete);
    assert_eq!(head_status(&vec![b'a'; 65537]), HeadStatus::TooLarge);
    assert_eq!(head_status(&vec![b'a'; 65536]), HeadStatus::Incomplete);
    assert_eq!(head_status(b""), HeadStatus::Incomplete);
}

#[test]
fn socks5_messages() {
    assert_eq!(socks5_greeting(), vec![5, 1, 0]);
    assert!(check_greeting_reply([5, 0]).is_ok());
    assert_eq!(check_greeting_reply([5, 2]).unwrap_err(), "SOCKS5 upstream rejected no-auth handshake");
    assert_eq!(
        socks5_connect_request("ya.ru", 443).unwrap(),
        vec![5, 1, 0, 3, 5, b'y', b'a', b'.', b'r', b'u', 1, 187]
    );
    let long = "a".repeat(256);
    assert_eq!(socks5_connect_request(&long, 80).unwrap_err(), "SOCKS5 target host is too long");
    assert_eq!(socks5_connect_request(&"a".repeat(255), 80).unwrap().len(), 262);
    assert_eq!(socks5_reply([5, 0, 0, 1]), Ok(ReplyTail::Fixed(6)));
    assert_eq!(socks5_reply([5, 0, 0, 3]), Ok(ReplyTail::Prefixed));
    assert_eq!(socks5_reply([5, 0, 0, 4]), Ok(ReplyTail::Fixed(18)));
    assert_eq!(socks5_reply([5, 5, 0, 1]), Err("SOCKS5 connect failed: 5".to_string()));
    assert_eq!(socks5_reply([5, 0, 0, 9]), Err("SOCKS5 returned unknown address type".to_string()));
    assert_eq!(prefixed_tail_len(255), 257);
}

#[test]
fn metrics_keep_the_last_eight_decisions() {
    let mut m = RouterMetrics::new();
    for i in 0..10 {
        m.record_decision(&format!("h{}.ru", i), i % 3 == 0);
    }
    assert_eq!(m.direct_count(), 4);
    assert_eq!(m.vpn_count(), 6);
    let recent = m.recent();
    assert_eq!(recent.len(), 8);
    assert_eq!(recent[0], "h2.ru -> VPN");
    assert_eq!(recent[7], "h9.ru -> DIRECT");
    let d = diagnostics(true, &m, "sig".to_string());
    assert!(d.active);
    assert_eq!((d.direct_count, d.vpn_count), (4, 6));
    assert_eq!(d.proxy_signature, "sig");
    assert_eq!(d.last_decisions, recent);
    m.reset();
    assert_eq!((m.direct_count(), m.vpn_count(), m.recent().len()), (0, 0, 0));
}

#[test]
fn signatures() {
    assert_eq!(
        proxy_signature(&Ok(settings(1, Some("1.1.1.1:80"), None))),
        "enabled=1;server=1.1.1.1:80;pac="
    );
    assert_eq!(
        proxy_signature(&Ok(settings(0, None, Some("file:///x")))),
        "enabled=0;server=;pac=file:///x"
    );
    assert_eq!(proxy_signature(&Err("denied".to_string())), "error=denied");
}

#[test]
fn install_and_sync_plans() {
    let url = "file:///C:/Users/u/.rubypass/rubypass.pac";
    assert!(matches!(install(&settings(0, None, Some(url)), url), Ok(InstallPlan::Sync)));
    assert_eq!(install(&settings(0, None, None), url).unwrap_err(), "Системный proxy VPN не обнаружен");
    assert_eq!(install(&settings(1, Some("x"), None), url).unwrap_err(), "Статический proxy VPN не обнаружен");
    match install(&settings(1, Some("127.0.0.1:10809"), None), url) {
        Ok(InstallPlan::Install(u)) => assert_eq!((u.host.as_str(), u.port), ("127.0.0.1", 10809)),
        _ => panic!("expected an installation"),
    }
    assert!(matches!(sync(&settings(1, Some("x"), None), url), SyncPlan::Skip));
    assert!(matches!(sync(&settings(1, Some("1.1.1.1:1"), None), url), SyncPlan::ReplaceSnapshotAndInstall(_)));
    assert!(matches!(sync(&settings(0, None, Some(url)), url), SyncPlan::FromSnapshot));
    assert!(matches!(sync(&settings(0, None, Some("other")), url), SyncPlan::Skip));
}

#[test]
fn snapshots_and_registry_changes() {
    let s = snapshot_of(&settings(1, Some("1.1.1.1:80"), None));
    assert_eq!(s.proxy_enable, Some(1));
    assert_eq!(s.proxy_server.as_deref(), Some("1.1.1.1:80"));
    assert_eq!(s.auto_config_url, None);
    let up = snapshot_upstream(&Some(s.clone())).unwrap();
    assert_eq!((up.host.as_str(), up.port), ("1.1.1.1", 80));
    assert!(snapshot_upstream(&None).is_none());
    let changes = restore_changes(&s);
    assert!(matches!(&changes[0], RegistryChange::SetDword(n, 1) if n == "ProxyEnable"));
    assert!(matches!(&changes[1], RegistryChange::SetString(n, v) if n == "ProxyServer" && v == "1.1.1.1:80"));
    assert!(matches!(&changes[2], RegistryChange::Delete(n) if n == "AutoConfigURL"));
    let empty = ProxySnapshot { proxy_enable: None, proxy_server: None, auto_config_url: Some("u".to_string()) };
    let changes = restore_changes(&empty);
    assert!(matches!(&changes[0], RegistryChange::Delete(n) if n == "ProxyEnable"));
    assert!(matches!(&changes[2], RegistryChange::SetString(n, v) if n == "AutoConfigURL" && v == "u"));
    let changes = install_changes("file:///p");
    assert!(matches!(&changes[0], RegistryChange::SetDword(n, 0) if n == "ProxyEnable"));
    assert!(matches!(&changes[1], RegistryChange::Delete(n) if n == "ProxyServer"));
    assert!(matches!(&changes[2], RegistryChange::SetString(n, v) if n == "AutoConfigURL" && v == "file:///p"));
}

#[test]
fn paths_and_urls() {
    assert_eq!(file_url("C:\\Users\\u\\.rubypass\\rubypass.pac"), "file:///C:/Users/u/.rubypass/rubypass.pac");
    assert_eq!(pac_path("C:\\Users\\u", '\\'), "C:\\Users\\u\\.rubypass\\rubypass.pac");
    assert_eq!(snapshot_path("/home/u", '/'), "/home/u/.rubypass/windows_proxy_snapshot.json");
}

#[test]
fn invalid_utf8_is_read_with_replacement_characters() {
    let req = b"GET http://a.ru/\xff HTTP/1.1\r\n\r\n";
    assert_eq!(
        rewrite_absolute_form(req, "a.ru"),
        "GET /\u{fffd} HTTP/1.1\r\nHost: a.ru\r\n\r\n".as_bytes().to_vec()
    );
    let plan = plan_client(b"CONNECT \xffa.ru:443 HTTP/1.1\r\n\r\n", &state(ProxyKind::Http)).unwrap();
    assert_eq!(plan.target.host, "\u{fffd}a.ru");
    assert!(plan.direct);
}

#[test]
fn restoring_without_saved_settings() {
    let url = "file:///p";
    let saved = ProxySnapshot { proxy_enable: Some(1), proxy_server: None, auto_config_url: None };
    match restore_plan(&Some(saved), &None, url) {
        RestorePlan::Apply(c) => {
            assert_eq!(c.len(), 3);
            assert!(matches!(&c[0], RegistryChange::SetDword(n, 1) if n == "ProxyEnable"));
        }
        RestorePlan::PacFileOnly => panic!("expected the saved settings back"),
    }
    match restore_plan(&None, &Some(settings(0, None, Some(url))), url) {
        RestorePlan::Apply(c) => {
            assert_eq!(c.len(), 1);
            assert!(matches!(&c[0], RegistryChange::Delete(n) if n == "AutoConfigURL"));
        }
        RestorePlan::PacFileOnly => panic!("expected our URL removed"),
    }
    assert!(matches!(restore_plan(&None, &Some(settings(0, None, Some("other"))), url), RestorePlan::PacFileOnly));
    assert!(matches!(restore_plan(&None, &None, url), RestorePlan::PacFileOnly));
}

#[derive(Clone, Debug, PartialEq)]
enum Value {
    Dword(u32),
    Text(String),
}

fn apply_all(key: &mut std::collections::BTreeMap<String, Value>, changes: &[RegistryChange]) {
    for c in changes {
        match c {
            RegistryChange::SetDword(n, v) => {
                key.insert(n.clone(), Value::Dword(*v));
            }
            RegistryChange::SetString(n, v) => {
                key.insert(n.clone(), Value::Text(v.clone()));
            }
            RegistryChange::Delete(n) => {
                key.remove(n);
            }
        }
    }
}

#[test]
fn installing_then_restoring_gives_the_key_back() {
    let url = "file:///C:/Users/a/.rubypass/proxy.pac";
    let mut key = std::collections::BTreeMap::new();
    key.insert("ProxyEnable".to_string(), Value::Dword(1));
    key.insert("ProxyServer".to_string(), Value::Text("127.0.0.1:10809".to_string()));
    key.insert("ProxyOverride".to_string(), Value::Text("<local>".to_string()));
    let original = key.clone();
    let read = settings(1, Some("127.0.0.1:10809"), None);
    let saved = snapshot_of(&read);
    apply_all(&mut key, &install_changes(url));
    assert_eq!(key.get("AutoConfigURL"), Some(&Value::Text(url.to_string())));
    assert_eq!(key.get("ProxyEnable"), Some(&Value::Dword(0)));
    assert_eq!(key.get("ProxyServer"), None);
    apply_all(&mut key, &restore_changes(&saved));
    assert_eq!(key, original);
}
