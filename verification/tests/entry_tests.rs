use cfti::log::LogItem;
use cfti::testdev::TestDev;
use cfti::inifile::IniFile;
use cfti::testentry::TestEntry;

#[test]
fn test_entry_loads() {
    let e = TestEntry::new("tests/flash.test".to_string(), "[Test]\nExecStart=flash\nRequires=a, b,\nTimeout=30\nType=Daemon\n").unwrap();
    assert_eq!(e.name(), "tests/flash.test");
    assert_eq!(e.required_tests(), &vec!["a".to_string(), "b".to_string()]);
    let e = TestEntry::new("p".to_string(), "[Test]\nExecStart=x\nRequires=a b, c\n").unwrap();
    assert_eq!(e.required_tests(), &vec!["a".to_string(), "b".to_string(), "c".to_string()]);
    let e = TestEntry::new("p".to_string(), "[Test]\nName=Flash\nExecStart=flash\n").unwrap();
    assert_eq!(e.name(), "Flash");
}

#[test]
fn test_entry_errors() {
    assert_eq!(TestEntry::new("p".to_string(), "[Test\nbroken").unwrap_err(), "Unable to load test file");
    assert_eq!(TestEntry::new("p".to_string(), "[Other]\nA=b\n").unwrap_err(), "Test is missing '[Test]' section");
    assert_eq!(TestEntry::new("p".to_string(), "[Test]\nExecStart=x\nType=odd\n").unwrap_err(), "Test has invalid 'Type'");
    assert_eq!(TestEntry::new("p".to_string(), "[Test]\nName=x\n").unwrap_err(), "Test is missing 'ExecStart'");
}

#[test]
fn test_entry_with_unreadable_timeout() {
    assert!(TestEntry::try_new("p".to_string(), "[Test]\nExecStart=x\nTimeout=soon\n").is_none());
    assert!(TestEntry::try_new("p".to_string(), "[Test]\nExecStart=x\nTimeout=99999999999\n").is_none());
    assert!(matches!(TestEntry::try_new("p".to_string(), "[Test]\nExecStart=x\nTimeout=12\n"), Some(Ok(_))));
    // A file that fails an earlier check gives that error instead.
    assert!(matches!(TestEntry::try_new("p".to_string(), "[Test]\nTimeout=soon\n"), Some(Err(e)) if e == "Test is missing 'ExecStart'"));
}

#[test]
fn test_plan_loads() {
    let d = TestDev::new("plans/board.plan".to_string(), "[Plan]\nDescription=Board\nTests=a , b\nSuccess=ok\n").unwrap();
    assert_eq!(d.name, "plans/board.plan");
    assert_eq!(d.tests(), &vec!["a".to_string(), "b".to_string()]);
    let d = TestDev::new("p".to_string(), "[Plan]\nTests=x y,z\n").unwrap();
    assert_eq!(d.tests(), &vec!["x".to_string(), "y".to_string(), "z".to_string()]);
    let d = TestDev::new("p".to_string(), "[Plan]\nName=Board rev B\n").unwrap();
    assert_eq!(d.name, "Board rev B");
    assert_eq!(TestDev::new("p".to_string(), "[Test]\nA=b\n").unwrap_err(), "Test is missing '[Plan]' section");
    assert_eq!(TestDev::new("p".to_string(), "[Plan\nName=x\n").unwrap_err(), "Unable to load test file");
}

#[test]
fn debug_log_items() {
    let i = LogItem::debug("test", "t1", "hello", 12, 34);
    assert_eq!(i.message_type, 2);
    assert_eq!(i.unit, "t1");
    assert_eq!(i.unit_type, "test");
    assert_eq!(i.unix_time, 12);
    assert_eq!(i.unix_time_nsecs, 34);
    assert_eq!(i.message, "hello");
}

#[test]
fn entries_from_parsed_files() {
    let ini = IniFile::parse("[Test]\nExecStart=run\nSuggests=a,b\n").unwrap();
    let e = TestEntry::from_ini("unit".to_string(), &ini).unwrap();
    assert_eq!(e.name(), "unit");
    let ini = IniFile::parse("[Test]\nType=other\nExecStart=run\n").unwrap();
    assert_eq!(TestEntry::from_ini("unit".to_string(), &ini).err(), Some("Test has invalid 'Type'"));
    let ini = IniFile::parse("[Plan]\nTests=a b\n").unwrap();
    let p = TestDev::from_ini("plan".to_string(), &ini).unwrap();
    assert_eq!(p.tests(), &vec!["a".to_string(), "b".to_string()]);
    let ini = IniFile::parse("[Test]\nExecStart=run\n").unwrap();
    assert_eq!(TestDev::from_ini("plan".to_string(), &ini).err(), Some("Test is missing '[Plan]' section"));
}
