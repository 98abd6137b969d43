use cfti::controller::{
    route_control_message, BroadcastMessage, BroadcastMessageContents, ControlAction,
    ControlMessage, ControlMessageContents,
};
use cfti::protocol::{
    join_words, json_log_write, json_write, text_read, text_read_complete, text_write,
    trigger_read_line, tsv_write, words_of,
};
use cfti::testset::TestSetCommand;

fn msg(contents: BroadcastMessageContents) -> BroadcastMessage {
    BroadcastMessage::new("standard", "unit", "test", 1485942257, 149052500, contents)
}

#[test]
fn text_protocol_lines() {
    assert_eq!(text_write(&msg(BroadcastMessageContents::Jig("main".into()))), "JIG main\n");
    assert_eq!(
        text_write(&msg(BroadcastMessageContents::Describe("test".into(), "name".into(), "simpletest".into(), "A simple test".into()))),
        "DESCRIBE test name simpletest A simple test\n"
    );
    assert_eq!(text_write(&msg(BroadcastMessageContents::Scenario("s".into()))), "SCENARIO s\n");
    assert_eq!(
        text_write(&msg(BroadcastMessageContents::Scenarios(vec!["a".into(), "b".into()]))),
        "SCENARIOS a b\n"
    );
    assert_eq!(
        text_write(&msg(BroadcastMessageContents::Tests("s".into(), vec!["t1".into(), "t2".into()]))),
        "TESTS s t1 t2\n"
    );
    assert_eq!(text_write(&msg(BroadcastMessageContents::Start("s".into()))), "START s\n");
    assert_eq!(text_write(&msg(BroadcastMessageContents::Running("t".into()))), "RUNNING t\n");
    assert_eq!(text_write(&msg(BroadcastMessageContents::Pass("t".into(), "ok".into()))), "PASS t ok\n");
    assert_eq!(text_write(&msg(BroadcastMessageContents::Fail("t".into(), "bad".into()))), "FAIL t bad\n");
    assert_eq!(text_write(&msg(BroadcastMessageContents::Skip("t".into(), "why".into()))), "SKIP t why\n");
    assert_eq!(
        text_write(&msg(BroadcastMessageContents::Finish("s".into(), 200, "Finished tests".into()))),
        "FINISH 200 s Finished tests\n"
    );
    assert_eq!(text_write(&msg(BroadcastMessageContents::Shutdown("bye".into()))), "EXIT bye\n");
    assert_eq!(
        text_write(&msg(BroadcastMessageContents::Log("a\tb".into()))),
        "LOG standard\tunit\ttest\t1485942257\t149052500\ta\\tb\n"
    );
}

#[test]
fn text_protocol_requests() {
    assert!(text_read("").is_none());
    assert!(matches!(text_read("SCENARIO Factory"), Some(ControlMessageContents::Scenario(s)) if s == "factory"));
    assert!(matches!(text_read("scenarios"), Some(ControlMessageContents::GetScenarios)));
    assert!(matches!(text_read("Start"), Some(ControlMessageContents::StartScenario(None))));
    assert!(matches!(text_read("start Two"), Some(ControlMessageContents::StartScenario(Some(s))) if s == "two"));
    assert!(matches!(text_read("TESTS"), Some(ControlMessageContents::GetTests(None))));
    assert!(matches!(text_read("abort"), Some(ControlMessageContents::AbortTests)));
    assert!(matches!(text_read("PONG 12"), Some(ControlMessageContents::Pong(s)) if s == "12"));
    assert!(matches!(text_read("jig"), Some(ControlMessageContents::GetJig)));
    assert!(matches!(text_read("HELLO my panel"), Some(ControlMessageContents::Hello(s)) if s == "my panel"));
    assert!(matches!(text_read("shutdown"), Some(ControlMessageContents::Shutdown(None))));
    assert!(matches!(text_read("shutdown now please"), Some(ControlMessageContents::Shutdown(Some(s))) if s == "now please"));
    assert!(matches!(text_read("LOG a\\tb c"), Some(ControlMessageContents::Log(s)) if s == "a\tb c"));
    assert!(matches!(text_read("frobnicate"), Some(ControlMessageContents::Log(s)) if s == "Unimplemented verb: frobnicate"));
    assert!(!text_read_complete("scenario"));
    assert!(!text_read_complete("PONG"));
    assert!(text_read_complete("start"));
    assert!(text_read_complete("   "));
}

#[test]
fn verbs_ignore_case() {
    assert!(matches!(text_read("ABORT"), Some(ControlMessageContents::AbortTests)));
    assert!(matches!(text_read("aBoRt"), Some(ControlMessageContents::AbortTests)));
    assert!(matches!(trigger_read_line("STOP"), Some(ControlMessageContents::AbortTests)));
}

#[test]
fn trigger_requests() {
    assert!(trigger_read_line(" ").is_none());
    assert!(matches!(trigger_read_line("Go"), Some(ControlMessageContents::StartScenario(None))));
    assert!(matches!(trigger_read_line("start Mixed"), Some(ControlMessageContents::StartScenario(Some(s))) if s == "Mixed"));
    assert!(matches!(trigger_read_line("stop"), Some(ControlMessageContents::AbortTests)));
    assert!(matches!(trigger_read_line("hello button 1"), Some(ControlMessageContents::Hello(s)) if s == "button 1"));
    assert!(matches!(trigger_read_line("Monitor"), Some(ControlMessageContents::Log(s)) if s == "Unimplemented verb: monitor"));
}

#[test]
fn words_and_joins() {
    assert_eq!(words_of("  one\\ttwo  three "), vec!["one\ttwo", "three"]);
    assert_eq!(join_words(&vec!["a".into(), "b".into(), "c".into()], ", "), "a, b, c");
    assert_eq!(join_words(&vec![], " "), "");
}

#[test]
fn tsv_logger_records() {
    let m = msg(BroadcastMessageContents::Log("line\nwith\\tab\t".into()));
    assert_eq!(
        tsv_write(&m).unwrap(),
        "standard\tunit\ttest\t1485942257\t149052500\tline\\nwith\\\\tab\\t\n"
    );
    assert!(tsv_write(&msg(BroadcastMessageContents::Start("s".into()))).is_none());
}

#[test]
fn json_logger_records() {
    let m = BroadcastMessage::new("2", "<internal>", "<internal>", 1485942257, 149052500, BroadcastMessageContents::Log("I loop: 0".into()));
    assert_eq!(
        json_log_write(&m).unwrap(),
        "{\"message_class\":\"2\",\"unit_id\":\"<internal>\",\"unit_type\":\"<internal>\",\"unix_time\":1485942257,\"unix_time_nsecs\":149052500,\"message\":\"I loop: 0\"}\n"
    );
    assert!(json_log_write(&msg(BroadcastMessageContents::Jig("j".into()))).is_none());
}

#[test]
fn json_interface_records() {
    let m = msg(BroadcastMessageContents::Finish("s".into(), 503, "At least one test failed".into()));
    assert_eq!(
        json_write(&m),
        "{\"message_class\":\"standard\",\"unit_id\":\"unit\",\"unit_type\":\"test\",\"unix_time\":1485942257,\"unix_time_nsecs\":149052500,\"type\":\"finish\",\"scenario\":\"s\",\"result\":503,\"reason\":\"At least one test failed\"}\n"
    );
    let m = msg(BroadcastMessageContents::Tests("s".into(), vec!["a".into(), "b".into()]));
    assert!(json_write(&m).ends_with("\"type\":\"tests\",\"scenario\":\"s\",\"tests\":[\"a\",\"b\"]}\n"));
}

fn control(contents: ControlMessageContents) -> ControlMessage {
    ControlMessage::new("standard", "panel", "interface", 10, 20, contents)
}

#[test]
fn control_messages_are_routed() {
    assert!(matches!(route_control_message(control(ControlMessageContents::GetJig), false), ControlAction::NoTestSet));
    match route_control_message(control(ControlMessageContents::Scenario("s".into())), true) {
        ControlAction::Dispatch(None, cmds) => {
            assert_eq!(cmds.len(), 2);
            assert!(matches!(cmds[0], TestSetCommand::AbortScenario));
            assert!(matches!(&cmds[1], TestSetCommand::SetScenario(s) if s == "s"));
        }
        _ => panic!("expected a dispatch"),
    }
    match route_control_message(control(ControlMessageContents::Hello("p1".into())), true) {
        ControlAction::Dispatch(None, cmds) => {
            assert!(matches!(&cmds[0], TestSetCommand::SetInterfaceHello(id, h) if id == "panel" && h == "p1"));
        }
        _ => panic!("expected a dispatch"),
    }
    match route_control_message(control(ControlMessageContents::Shutdown(None)), true) {
        ControlAction::Dispatch(Some(b), cmds) => {
            assert!(matches!(&b.message, BroadcastMessageContents::Shutdown(r) if r == "(no reason)"));
            assert_eq!(b.unit_id, "panel");
            assert!(matches!(cmds[0], TestSetCommand::Shutdown));
        }
        _ => panic!("expected a dispatch"),
    }
    match route_control_message(control(ControlMessageContents::Log("hi".into())), true) {
        ControlAction::Dispatch(Some(b), cmds) => {
            assert!(cmds.is_empty());
            assert_eq!(b.unix_time, 10);
            assert!(matches!(&b.message, BroadcastMessageContents::Log(l) if l == "hi"));
        }
        _ => panic!("expected a dispatch"),
    }
    match route_control_message(control(ControlMessageContents::Pong("1".into())), true) {
        ControlAction::Dispatch(None, cmds) => assert!(cmds.is_empty()),
        _ => panic!("expected a dispatch"),
    }
    let (tx, _rx) = std::sync::mpsc::channel();
    assert!(matches!(route_control_message(control(ControlMessageContents::SetTestsetChannel(tx)), false), ControlAction::SetTestSet(_)));
}

#[test]
fn broadcast_helpers() {
    assert!(msg(BroadcastMessageContents::Log("x".into())).is_log());
    assert!(!msg(BroadcastMessageContents::Start("x".into())).is_log());
}
