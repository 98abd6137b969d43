use cfti::config::Config;
use cfti::types::interface::{Interface, InterfaceError, InterfaceFormat};
use cfti::types::jig::{Jig, JigError};
use cfti::types::logger::{Logger, LoggerError, LoggerFormat};
use cfti::types::test::{Test, TestError, TestType};
use cfti::types::trigger::{Trigger, TriggerError};
use cfti::unitfile::UnitFile;

fn uf(text: &str) -> UnitFile {
    UnitFile::new(text).unwrap()
}

fn jigs() -> Vec<String> {
    vec!["main".to_string()]
}

#[test]
fn test_unit_loads_with_defaults() {
    let c = Config::new();
    let u = uf("[Test]\nExecStart=/bin/true\nRequires=a, b c\nSuggests=d\nProvides=swd\n");
    let t = Test::new("t1", &u, &jigs(), &c).unwrap().unwrap();
    assert_eq!(t.id(), "t1");
    assert_eq!(t.name(), "t1");
    assert_eq!(t.description(), "");
    assert_eq!(t.timeout(), 3600);
    assert_eq!(t.requirements(), &vec!["a".to_string(), "b".to_string(), "c".to_string()]);
    assert_eq!(t.suggestions(), &vec!["d".to_string()]);
    assert_eq!(t.provides(), &vec!["swd".to_string()]);
    assert_eq!(t.test_type(), TestType::Simple);
    assert!(t.state().is_pending());
    assert_eq!(t.kind(), "test");
}

#[test]
fn test_unit_fields() {
    let c = Config::new();
    let u = uf("[Test]\nName=Blink\nDescription=Blinks a LED\nExecStart=blink\nTimeout=5\nType=DAEMON\nDaemonReadyText=^ready\nWorkingDirectory=/tmp\n");
    let t = Test::new("blink", &u, &jigs(), &c).unwrap().unwrap();
    assert_eq!(t.name(), "Blink");
    assert_eq!(t.description(), "Blinks a LED");
    assert_eq!(t.timeout(), 5);
    assert_eq!(t.test_type(), TestType::Daemon);
    assert_eq!(t.daemon_ready().as_deref(), Some("^ready"));
    assert_eq!(t.working_directory().as_deref(), Some("/tmp"));
}

#[test]
fn test_unit_errors() {
    let c = Config::new();
    let j = jigs();
    assert!(matches!(Test::new("x", &uf("[Other]\nA=b\n"), &j, &c), Some(Err(TestError::MissingTestSection))));
    assert!(matches!(Test::new("x", &uf("[Test]\nName=n\n"), &j, &c), Some(Err(TestError::MissingExecSection))));
    match Test::new("x", &uf("[Test]\nExecStart=a\nType=Bogus\n"), &j, &c) {
        Some(Err(TestError::InvalidType(t))) => assert_eq!(t, "bogus"),
        _ => panic!("expected an invalid type"),
    }
    assert!(matches!(Test::new("x", &uf("[Test]\nExecStart=a\nTimeout=soon\n"), &j, &c), Some(Err(TestError::ParseTimeoutError))));
    assert!(matches!(Test::new("x", &uf("[Test]\nExecStart=a\nDaemonReadyText=(\n"), &j, &c), Some(Err(TestError::DaemonReadyTextError))));
}

#[test]
fn test_unit_for_other_jig_is_left_out() {
    let c = Config::new();
    let j = jigs();
    assert!(Test::new("x", &uf("[Test]\nExecStart=a\nCompatibleJigs=other, second\n"), &j, &c).is_none());
    assert!(Test::new("x", &uf("[Test]\nExecStart=a\nCompatibleJigs=other,main\n"), &j, &c).is_some());
    assert!(Test::new("x", &uf("[Test]\nExecStart=a\nCompatibleJigs=main\n"), &j, &c).is_some());
    // Only CompatibleJigs limits a test; without it any jig will do.
    assert!(Test::new("x", &uf("[Test]\nExecStart=a\nJigs=other\n"), &j, &c).is_some());
}

#[test]
fn jig_unit_loading() {
    let u = uf("[Jig]\nName=Main jig\nDescription=The bench\nDefaultScenario=factory\nTestFile=/etc/jig\nDefaultWorkingDirectory=/srv\n");
    let probe = Jig::probe(&u);
    assert_eq!(probe.test_file.as_deref(), Some("/etc/jig"));
    assert_eq!(probe.test_program, None);
    assert!(Jig::new("main", &u, false, true).is_none());
    let j = Jig::new("main", &u, true, true).unwrap().unwrap();
    assert_eq!(j.id(), "main");
    assert_eq!(j.name(), "Main jig");
    assert_eq!(j.description(), "The bench");
    assert_eq!(j.default_scenario().as_deref(), Some("factory"));
    assert_eq!(j.default_working_directory().as_deref(), Some("/srv"));
    assert_eq!(j.kind(), "jig");
    assert!(matches!(Jig::new("x", &uf("[Test]\nA=b\n"), true, true), Some(Err(JigError::MissingJigSection))));
}

#[test]
fn jig_working_directory_falls_back() {
    let u = uf("[Jig]\nWorkingDirectory=/work\n");
    let j = Jig::new("j", &u, false, false).unwrap().unwrap();
    assert_eq!(j.name(), "j");
    assert_eq!(j.default_working_directory().as_deref(), Some("/work"));
    assert_eq!(j.default_scenario(), &None);
}

#[test]
fn logger_unit_loading() {
    let j = jigs();
    let l = Logger::new("log", &uf("[Logger]\nExecStart=cat\nFormat=JSON\n"), &j).unwrap().unwrap();
    assert_eq!(l.format(), LoggerFormat::JSON);
    assert_eq!(l.exec_start(), "cat");
    assert_eq!(l.name(), "log");
    let l = Logger::new("log", &uf("[Logger]\nExecStart=cat\nWorkingDirectory=/w\n"), &j).unwrap().unwrap();
    assert_eq!(l.format(), LoggerFormat::TabSeparatedValue);
    assert_eq!(l.start_directory(&None).as_deref(), Some("/w"));
    assert!(matches!(Logger::new("log", &uf("[Other]\nA=b\n"), &j), Some(Err(LoggerError::MissingLoggerSection))));
    assert!(matches!(Logger::new("log", &uf("[Logger]\nName=n\n"), &j), Some(Err(LoggerError::MissingExecSection))));
    match Logger::new("log", &uf("[Logger]\nExecStart=cat\nFormat=xml\n"), &j) {
        Some(Err(LoggerError::InvalidType(f))) => assert_eq!(f, "xml"),
        _ => panic!("expected an invalid format"),
    }
    assert!(Logger::new("log", &uf("[Logger]\nExecStart=cat\nJigs=other\n"), &j).is_none());
}

#[test]
fn trigger_unit_loading() {
    let j = jigs();
    let t = Trigger::new("button", &uf("[Trigger]\nExecStart=watch-button\n"), &j).unwrap().unwrap();
    assert_eq!(t.id(), "button");
    assert_eq!(t.kind(), "trigger");
    assert_eq!(t.exec_start(), "watch-button");
    assert_eq!(t.start_directory(&Some("/d".to_string())).as_deref(), Some("/d"));
    assert!(matches!(Trigger::new("b", &uf("[Other]\nA=b\n"), &j), Some(Err(TriggerError::MissingTriggerSection))));
    assert!(matches!(Trigger::new("b", &uf("[Trigger]\nName=n\n"), &j), Some(Err(TriggerError::MissingExecStart))));
    assert!(Trigger::new("b", &uf("[Trigger]\nExecStart=x\nJigs=elsewhere\n"), &j).is_none());
}

#[test]
fn interface_unit_loading() {
    let j = jigs();
    let mut c = Config::new();
    c.set_default_working_directory(Some("/default"));
    let mut i = Interface::new("ui", &uf("[Interface]\nExecStart=ui\nFormat=text\n"), &j, &c).unwrap().unwrap();
    assert_eq!(i.format(), InterfaceFormat::Text);
    assert_eq!(i.start_directory(&None).as_deref(), Some("/default"));
    assert_eq!(i.hello(), "");
    i.set_hello("panel-1".to_string());
    assert_eq!(i.hello(), "panel-1");
    let i = Interface::new("ui", &uf("[Interface]\nExecStart=ui\nFormat=Json\nWorkingDirectory=/ui\n"), &j, &c).unwrap().unwrap();
    assert_eq!(i.format(), InterfaceFormat::JSON);
    assert_eq!(i.start_directory(&Some("/s".to_string())).as_deref(), Some("/ui"));
    assert!(matches!(Interface::new("ui", &uf("[Other]\nA=b\n"), &j, &c), Some(Err(InterfaceError::MissingInterfaceSection))));
    assert!(matches!(Interface::new("ui", &uf("[Interface]\nName=x\n"), &j, &c), Some(Err(InterfaceError::MissingExecSection))));
    assert!(matches!(Interface::new("ui", &uf("[Interface]\nExecStart=x\nFormat=bin\n"), &j, &c), Some(Err(InterfaceError::InvalidType(_)))));
}

#[test]
fn provides_is_split_at_commas_only() {
    let c = Config::new();
    let u = uf("[Test]\nExecStart=x\nProvides=swd probe, jtag\n");
    let t = Test::new("t", &u, &jigs(), &c).unwrap().unwrap();
    assert_eq!(t.provides(), &vec!["swdprobe".to_string(), "jtag".to_string()]);
    let u = uf("[Test]\nExecStart=x\nProvides=a,,b\n");
    let t = Test::new("t", &u, &jigs(), &c).unwrap().unwrap();
    assert_eq!(t.provides(), &vec!["a".to_string(), "".to_string(), "b".to_string()]);
}
