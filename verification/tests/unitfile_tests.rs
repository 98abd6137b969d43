use cfti::unitfile::{UnitFile, UnitFileError};

#[test]
fn unit_file_sections_and_values() {
    let uf = UnitFile::new("[Test]\nName=Foo\nExecStart=/bin/true\n[Other]\nKey=Value\n").unwrap();
    assert!(uf.has_section("Test"));
    assert!(uf.has_section("Other"));
    assert!(!uf.has_section("Missing"));
    assert_eq!(uf.get("Test", "Name").as_deref(), Some("Foo"));
    assert_eq!(uf.get("Test", "ExecStart").as_deref(), Some("/bin/true"));
    assert_eq!(uf.get("Other", "Key").as_deref(), Some("Value"));
    // A key is found only in the section it stands in.
    assert_eq!(uf.get("Other", "Name"), None);
    assert_eq!(uf.get("Test", "Missing"), None);
}

#[test]
fn unit_file_refuses_text_without_section() {
    match UnitFile::new("Name=Foo\n") {
        Err(UnitFileError::FileParseError(_)) => {}
        _ => panic!("expected a parse error"),
    }
    assert!(matches!(UnitFile::new(""), Err(UnitFileError::FileParseError(_))));
}
