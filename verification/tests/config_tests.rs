use cfti::config::Config;

#[test]
fn config_defaults() {
    let c = Config::new();
    assert_eq!(c.timeout(), 3600);
    assert_eq!(c.scenario_timeout(), 7200);
    assert_eq!(c.scenario_start_timeout(), 10);
    assert_eq!(c.scenario_success_timeout(), 10);
    assert_eq!(c.scenario_failure_timeout(), 10);
    assert_eq!(c.test_success_timeout(), 10);
    assert_eq!(c.test_failure_timeout(), 10);
    assert!(c.locale().is_none());
    assert!(c.default_working_directory().is_none());
}

#[test]
fn config_setters_read_back() {
    let mut c = Config::new();
    c.set_timeout(42);
    c.set_locale(Some("de"));
    c.set_default_working_directory(Some("/tmp/work"));
    assert_eq!(c.timeout(), 42);
    assert_eq!(c.locale().as_deref(), Some("de"));
    assert_eq!(c.default_working_directory().as_deref(), Some("/tmp/work"));
    c.set_locale(None);
    assert!(c.locale().is_none());
    assert_eq!(c.scenario_timeout(), 7200);
}
