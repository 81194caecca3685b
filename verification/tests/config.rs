use tsck_kee::config::{Config, ConfigSource, KeeConfig};
use tsck_kee::kee_keys::{TKeePair, TKeePairList};

#[test]
fn test_config() -> anyhow::Result<()> {
    // No configuration directory can be found on this machine, so the
    // configuration comes from the fallback.
    let config = Config::new(ConfigSource::NoDirectory);
    println!("{:?}", config.get_config());
    Ok(())
}

fn assert_fallback(c: &KeeConfig) {
    assert_eq!(c.kees.0.len(), 1);
    assert_eq!(c.kees.0[0].key, "M-1");
    assert_eq!(c.kees.0[0].func, "app::LaunchZen");
    assert!(c.apps.is_empty());
}

#[test]
fn fallback_config_binds_launcher() {
    assert_fallback(&KeeConfig::fallback());
}

#[test]
fn missing_file_gives_fallback_and_is_written() {
    let (c, write) = Config::read_config_files(ConfigSource::Missing);
    assert_fallback(&c);
    assert!(write);
}

#[test]
fn unreadable_file_gives_fallback_without_writing() {
    let (c, write) = Config::read_config_files(ConfigSource::Unreadable);
    assert_fallback(&c);
    assert!(!write);
    let (c, write) = Config::read_config_files(ConfigSource::NoDirectory);
    assert_fallback(&c);
    assert!(!write);
}

#[test]
fn parsed_file_is_used_as_it_is() {
    let custom = KeeConfig {
        kees: TKeePairList(vec![TKeePair::new("C-S-b", "app::ControlShiftB"), TKeePair::new("M-2", "app::Minimize")]),
        apps: vec!["zen".to_string()],
    };
    let (c, write) = Config::read_config_files(ConfigSource::Parsed(custom.clone()));
    assert!(!write);
    assert_eq!(c.kees.0.len(), 2);
    assert_eq!(c.kees.0[1].func, "app::Minimize");
    let config = Config::new(ConfigSource::Parsed(custom));
    let got = config.get_config();
    assert_eq!(got.kees.0[0].key, "C-S-b");
    assert_eq!(got.kees.0[0].func, "app::ControlShiftB");
    assert_eq!(got.apps, vec!["zen".to_string()]);
}

#[test]
fn get_config_returns_a_copy() {
    let config = Config::new(ConfigSource::Missing);
    let a = config.get_config();
    let b = config.clone().get_config();
    assert_eq!(a.kees.0.len(), b.kees.0.len());
    assert_eq!(a.kees.0[0].key, b.kees.0[0].key);
    assert_fallback(&b);
}
