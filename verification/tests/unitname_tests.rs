use cfti::text::count_commas;
use cfti::unitname::{kind_of, load_order, unit_kind, unit_name_parts, UnitKind};

#[test]
fn unit_file_names_give_id_and_type() {
    assert_eq!(unit_name_parts("board.jig"), ("board".to_string(), "jig".to_string()));
    assert_eq!(unit_name_parts("a.b.test"), ("a.b".to_string(), "test".to_string()));
    assert_eq!(unit_name_parts("README"), ("README".to_string(), "".to_string()));
    assert_eq!(unit_name_parts(".jig"), (".jig".to_string(), "".to_string()));
    assert_eq!(unit_name_parts("odd."), ("odd".to_string(), "".to_string()));
}

#[test]
fn unit_kinds_by_type() {
    assert_eq!(unit_kind("board.jig"), Some(UnitKind::Jig));
    assert_eq!(unit_kind("flash.test"), Some(UnitKind::Test));
    assert_eq!(unit_kind("all.scenario"), Some(UnitKind::Scenario));
    assert_eq!(unit_kind("tsv.logger"), Some(UnitKind::Logger));
    assert_eq!(unit_kind("button.trigger"), Some(UnitKind::Trigger));
    assert_eq!(unit_kind("web.interface"), Some(UnitKind::Interface));
    assert_eq!(unit_kind("notes.txt"), None);
    assert_eq!(unit_kind(".jig"), None);
    assert_eq!(kind_of("Jig"), None);
    assert_eq!(
        load_order(),
        vec![UnitKind::Jig, UnitKind::Test, UnitKind::Scenario, UnitKind::Logger, UnitKind::Trigger, UnitKind::Interface]
    );
}

#[test]
fn commas_are_counted() {
    assert_eq!(count_commas(""), 0);
    assert_eq!(count_commas(" , ,x"), 2);
}
