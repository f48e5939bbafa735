use rubypass::commands::{
    check_enable_gateway, check_gateway, check_routes_added, choose_gateway, next_spinner_frame,
    tray_icon_file, launch_plan, AppState, AppStateInner, LaunchPlan, TrayState,
};
use rubypass::config::{Config, UpdateSchedule};
use rubypass::helper::{
    helper_is_current, helper_result, helper_script, helper_version, install_script, sudoers_group,
    sudoers_line, LINUX_HELPER_SCRIPT, MACOS_HELPER_SCRIPT,
};
use rubypass::gateway::Platform;
use rubypass::network_watch::{reapply_plan, GatewayWatch, ReapplyPlan};

#[test]
fn subnet_cache_gives_back_what_was_read() {
    let mut inner = AppStateInner::new(Config::default());
    assert!(inner.cached_subnets().is_none());
    let list = vec!["1.0.0.0/8".to_string()];
    assert_eq!(inner.cache_subnets(Ok(list.clone())), Ok(list.clone()));
    assert_eq!(inner.cached_subnets(), Some(list.clone()));
    assert_eq!(inner.cache_subnets(Err("gone".to_string())), Err("gone".to_string()));
    assert_eq!(inner.cached_subnets(), Some(list));
}

#[test]
fn marking_an_update_drops_the_cache() {
    let mut inner = AppStateInner::new(Config::default());
    inner.config.bypass_enabled = true;
    let _ = inner.cache_subnets(Ok(vec!["1.0.0.0/8".to_string()]));
    assert!(inner.mark_updated("2024-01-01T00:00:00Z".to_string()));
    assert_eq!(inner.config.last_updated.as_deref(), Some("2024-01-01T00:00:00Z"));
    assert!(inner.cached_subnets().is_none());
    assert_eq!(inner.config.update_schedule, UpdateSchedule::Weekly);
}

#[test]
fn app_state_holds_the_settings() {
    let state = AppState::new(Config::default());
    let inner = state.0.lock().unwrap();
    assert!(!inner.config.bypass_enabled);
    assert!(inner.subnets_cache.is_none());
}

#[test]
fn gateway_choice_and_checks() {
    assert_eq!(choose_gateway(&Some("10.0.0.1".to_string()), Some("192.168.1.1".to_string())), "10.0.0.1");
    assert_eq!(choose_gateway(&None, Some("192.168.1.1".to_string())), "192.168.1.1");
    assert_eq!(choose_gateway(&None, None), "");
    assert_eq!(
        check_enable_gateway(""),
        Err("Не удалось определить шлюз. Проверьте подключение к роутеру.".to_string())
    );
    assert_eq!(check_enable_gateway("1.1.1.1"), Ok(()));
    assert_eq!(check_gateway(""), Err("Не удалось определить шлюз".to_string()));
    assert_eq!(
        check_routes_added(0, 5, "1.1.1.1"),
        Err("Не удалось добавить маршруты (шлюз: 1.1.1.1). Проверьте логи.".to_string())
    );
    assert_eq!(check_routes_added(0, 0, "1.1.1.1"), Ok(()));
    assert_eq!(check_routes_added(3, 5, "1.1.1.1"), Ok(()));
}

#[test]
fn tray_icons_and_spinner() {
    assert_eq!(tray_icon_file(TrayState::Active), "icon-green.png");
    assert_eq!(tray_icon_file(TrayState::Inactive), "icon-red.png");
    assert_eq!(tray_icon_file(TrayState::Loading), "spinner_0.png");
    assert_eq!(next_spinner_frame(0), 1);
    assert_eq!(next_spinner_frame(7), 0);
}

#[test]
fn gateway_watch_debounces_reapplication() {
    let mut w = GatewayWatch::new(Some("192.168.1.1".to_string()));
    assert_eq!(w.observe(Some("192.168.1.1".to_string())), None);
    assert_eq!(w.observe(Some("10.0.0.1".to_string())), Some(Some("192.168.1.1".to_string())));
    assert!(w.should_reapply(1_000));
    assert_eq!(w.observe(None), Some(Some("10.0.0.1".to_string())));
    assert!(!w.should_reapply(20_000));
    assert!(!w.should_reapply(30_999));
    assert!(w.should_reapply(31_000));
    assert_eq!(w.observe(Some("1.1.1.1".to_string())), Some(None));
}

#[test]
fn reapply_plans() {
    assert!(matches!(reapply_plan(false, Some("a".to_string())), ReapplyPlan::Skip));
    assert!(matches!(reapply_plan(true, Some("a".to_string())), ReapplyPlan::ChangeFrom(g) if g == "a"));
    assert!(matches!(reapply_plan(true, None), ReapplyPlan::Restart));
}

#[test]
fn helper_scripts_and_rules() {
    assert_eq!(helper_version(Platform::MacOs), Some("v2"));
    assert_eq!(helper_version(Platform::Linux), Some("v1-linux"));
    assert_eq!(helper_version(Platform::Windows), None);
    assert_eq!(helper_script(Platform::MacOs), Some(MACOS_HELPER_SCRIPT));
    assert!(MACOS_HELPER_SCRIPT.contains("# rubypass-helper v2\n"));
    assert!(LINUX_HELPER_SCRIPT.contains("ip route change \"$CIDR\" via \"$GATEWAY\""));
    assert!(helper_is_current(Platform::MacOs, MACOS_HELPER_SCRIPT));
    assert!(helper_is_current(Platform::Linux, LINUX_HELPER_SCRIPT));
    assert!(!helper_is_current(Platform::Linux, "# rubypass-helper v0\n"));
    assert_eq!(sudoers_group(true, true), "sudo");
    assert_eq!(sudoers_group(false, true), "wheel");
    assert_eq!(sudoers_group(false, false), "sudo");
    assert_eq!(sudoers_line("admin"), "%admin ALL=(root) NOPASSWD: /usr/local/lib/rubypass/apply.sh");
    assert_eq!(
        install_script("/tmp/h.sh", "wheel", "%admin ALL=(root) NOPASSWD: /usr/local/lib/rubypass/apply.sh"),
        "#!/bin/sh\nmkdir -p /usr/local/lib/rubypass\ncp /tmp/h.sh /usr/local/lib/rubypass/apply.sh\nchmod 755 /usr/local/lib/rubypass/apply.sh\nchown root:wheel /usr/local/lib/rubypass/apply.sh\nprintf '%s\\n' '%admin ALL=(root) NOPASSWD: /usr/local/lib/rubypass/apply.sh' > /etc/sudoers.d/rubypass\nchmod 440 /etc/sudoers.d/rubypass\n"
    );
    assert_eq!(helper_result(true, 5), 5);
    assert_eq!(helper_result(false, 5), 0);
}

#[test]
fn the_shared_state_starts_with_the_settings_read() {
    let cfg = Config {
        bypass_enabled: true,
        autostart: true,
        update_schedule: UpdateSchedule::Monthly,
        last_updated: Some("2024-05-01T00:00:00Z".to_string()),
        gateway_override: Some("192.168.1.1".to_string()),
    };
    let state = AppState::new(cfg.clone());
    let inner = state.0.lock().unwrap();
    assert!(inner.config.bypass_enabled && inner.config.autostart);
    assert_eq!(inner.config.update_schedule, UpdateSchedule::Monthly);
    assert_eq!(inner.config.last_updated, cfg.last_updated);
    assert_eq!(inner.config.gateway_override, cfg.gateway_override);
    assert!(inner.subnets_cache.is_none());
}

#[test]
fn the_first_launch_downloads_then_enables() {
    assert_eq!(launch_plan(false, false), LaunchPlan::DownloadThenEnable);
    assert_eq!(launch_plan(false, true), LaunchPlan::DownloadThenEnable);
    assert_eq!(launch_plan(true, true), LaunchPlan::EnableStored);
    assert_eq!(launch_plan(true, false), LaunchPlan::Idle);
}
