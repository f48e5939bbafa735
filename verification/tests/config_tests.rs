use rubypass::config::{config_path, data_dir, home_dir, join_path, Config, UpdateSchedule};
use rubypass::updater::subnet_file;

#[test]
fn default_config() {
    let cfg = Config::default();
    assert!(!cfg.bypass_enabled);
    assert!(!cfg.autostart);
    assert_eq!(cfg.update_schedule, UpdateSchedule::Weekly);
    assert_eq!(cfg.last_updated, None);
    assert_eq!(cfg.gateway_override, None);
}

#[test]
fn home_directory_choice() {
    assert_eq!(home_dir(Some("/home/u".to_string()), Some("C:\\U".to_string())), "/home/u");
    assert_eq!(home_dir(None, Some("C:\\U".to_string())), "C:\\U");
    assert_eq!(home_dir(None, None), ".");
}

#[test]
fn file_locations() {
    assert_eq!(config_path("/home/u", '/'), "/home/u/.rubypass/config.json");
    assert_eq!(data_dir("/home/u", '/'), "/home/u/.rubypass");
    assert_eq!(data_dir("/home/u/", '/'), "/home/u/.rubypass");
    assert_eq!(config_path("C:\\Users\\u", '\\'), "C:\\Users\\u\\.rubypass\\config.json");
    assert_eq!(subnet_file(".", '/'), "./.rubypass/ru_subnets.txt");
    assert_eq!(join_path("", "x", '/'), "x");
}

#[test]
fn data_dir_is_the_parent_of_the_config_file() {
    for home in ["/home/u", "/", ".", "C:\\Users\\u"] {
        let cfg = config_path(home, '/');
        let parent = std::path::Path::new(&cfg).parent().unwrap().to_str().unwrap().to_string();
        assert_eq!(parent, data_dir(home, '/'));
    }
}

#[test]
fn joining_to_a_bare_windows_drive_adds_no_separator() {
    assert_eq!(join_path("C:", "x", '\\'), "C:x");
    assert_eq!(data_dir("d:", '\\'), "d:.rubypass");
    assert_eq!(join_path("C:\\", "x", '\\'), "C:\\x");
    assert_eq!(join_path("C:", "x", '/'), "C:/x");
    assert_eq!(join_path("1:", "x", '\\'), "1:\\x");
}
