use cfti::actions::Action;
use cfti::config::Config;
use cfti::controller::BroadcastMessageContents;
use cfti::testset::{Loaded, TestLoad, TestSet, TestSetCommand, TestSetStep};
use cfti::types::ordering::ScenarioError;
use cfti::types::scenario::ScenarioState;
use cfti::types::test::{TestEvent, TestState};
use cfti::unitfile::UnitFile;

fn uf(text: &str) -> UnitFile {
    UnitFile::new(text).unwrap()
}

/// A test set with jig `main` (default scenario `s`), tests `a` and `b`
/// (`b` requires `a`) and scenario `s` that lists `b`.
fn two_step_set() -> TestSet {
    let mut ts = TestSet::new(Config::new());
    assert!(matches!(ts.load_jig("main", &uf("[Jig]\nDefaultScenario=s\n"), true, true), Loaded::Added));
    assert!(matches!(ts.load_test("a", &uf("[Test]\nExecStart=run-a\n")), TestLoad::Added));
    assert!(matches!(ts.load_test("b", &uf("[Test]\nExecStart=run-b\nRequires=a\n")), TestLoad::Added));
    let s = uf("[Scenario]\nTests=b\n");
    assert!(ts.scenario_loadable_here(&s));
    let (outcome, actions) = ts.load_scenario("s", &s);
    assert!(matches!(outcome, Loaded::Added));
    // The default scenario of the jig is selected, then described.
    assert_eq!(actions.len(), 4);
    match &actions[0] {
        Action::Broadcast(class, id, kind, BroadcastMessageContents::Scenario(name)) => {
            assert_eq!((class.as_str(), id.as_str(), kind.as_str(), name.as_str()), ("standard", "testset", "testset", "s"));
        }
        _ => panic!("expected the scenario to be announced"),
    }
    match &actions[3] {
        Action::Broadcast(_, _, _, BroadcastMessageContents::Tests(name, tests)) => {
            assert_eq!(name, "s");
            assert_eq!(tests, &vec!["a".to_string(), "b".to_string()]);
        }
        _ => panic!("expected the tests of the scenario"),
    }
    ts
}

fn finish_of(actions: &Vec<Action>) -> Option<(String, u32, String)> {
    match actions.last() {
        Some(Action::Broadcast(_, _, _, BroadcastMessageContents::Finish(s, code, reason))) => {
            Some((s.clone(), *code, reason.clone()))
        }
        _ => None,
    }
}

fn started_simple(actions: &Vec<Action>) -> Option<(usize, String, u128)> {
    match actions.last() {
        Some(Action::StartSimple(i, cmd, _, ms)) => Some((*i, cmd.clone(), *ms)),
        _ => None,
    }
}

#[test]
fn scenario_orders_dependencies_first() {
    let ts = two_step_set();
    assert_eq!(ts.scenarios().len(), 1);
    assert_eq!(ts.scenarios()[0].tests(), &vec![0usize, 1usize]);
    assert_eq!(ts.get_jig_default_scenario().as_deref(), Some("s"));
}

#[test]
fn scenario_run_passes_with_code_200() {
    let mut ts = two_step_set();
    let (step, actions) = ts.handle(TestSetCommand::StartScenario(None), 0);
    assert_eq!(step, TestSetStep::Started);
    assert_eq!(started_simple(&actions), Some((0, "run-a".to_string(), 3_600_000)));
    let a = ts.test_event(0, TestEvent::Output("stdout".to_string(), "all good".to_string()));
    assert_eq!(a.len(), 1);
    let a = ts.test_event(0, TestEvent::Finished(Ok(())));
    match &a[0] {
        Action::Broadcast(class, _, _, BroadcastMessageContents::Pass(t, msg)) => {
            assert_eq!(class, "result");
            assert_eq!(t, "a");
            assert_eq!(msg, "all good");
        }
        _ => panic!("expected a pass"),
    }
    assert!(matches!(&a[1], Action::Control(_, _, _, cfti::controller::ControlMessageContents::AdvanceScenario)));
    let (_, actions) = ts.handle(TestSetCommand::AdvanceScenario, 1000);
    assert_eq!(started_simple(&actions), Some((1, "run-b".to_string(), 3_600_000)));
    ts.test_event(1, TestEvent::Finished(Ok(())));
    let (_, actions) = ts.handle(TestSetCommand::AdvanceScenario, 2000);
    assert_eq!(finish_of(&actions), Some(("s".to_string(), 200, "Finished tests".to_string())));
    assert_eq!(ts.scenarios()[0].state(), ScenarioState::TestFinished);
}

#[test]
fn scenario_run_with_a_failure_finishes_with_501() {
    let mut ts = two_step_set();
    ts.handle(TestSetCommand::StartScenario(Some("s".to_string())), 0);
    ts.test_event(0, TestEvent::Finished(Ok(())));
    ts.handle(TestSetCommand::AdvanceScenario, 10);
    let a = ts.test_event(1, TestEvent::Finished(Err("exit 3".to_string())));
    match &a[0] {
        Action::Broadcast(_, _, _, m) => ts.note_broadcast(m),
        _ => panic!("expected a broadcast"),
    }
    assert_eq!(ts.scenarios()[0].failures(), 1);
    let (_, actions) = ts.handle(TestSetCommand::AdvanceScenario, 20);
    assert_eq!(finish_of(&actions), Some(("s".to_string(), 501, "At least one test failed".to_string())));
}

#[test]
fn test_whose_requirement_failed_is_skipped() {
    let mut ts = two_step_set();
    ts.handle(TestSetCommand::StartScenario(None), 0);
    ts.test_event(0, TestEvent::Finished(Err("broken".to_string())));
    let (_, actions) = ts.handle(TestSetCommand::AdvanceScenario, 10);
    let skipped = actions.iter().any(|a| match a {
        Action::Broadcast(_, _, _, BroadcastMessageContents::Skip(t, why)) => t == "b" && why == "dependency failed",
        _ => false,
    });
    assert!(skipped);
    assert!(matches!(ts.tests()[1].state(), TestState::Fail(m) if m == "Skipped"));
    assert!(finish_of(&actions).is_some());
}

#[test]
fn start_while_running_is_ignored() {
    let mut ts = two_step_set();
    let (step, _) = ts.handle(TestSetCommand::StartScenario(None), 0);
    assert_eq!(step, TestSetStep::Started);
    let (step, actions) = ts.handle(TestSetCommand::StartScenario(None), 5);
    assert_eq!(step, TestSetStep::Continue);
    assert_eq!(actions.len(), 1);
    match &actions[0] {
        Action::Broadcast(_, _, _, BroadcastMessageContents::Log(l)) => {
            assert_eq!(l, "NOT starting new scenario run because ScenarioState is Running(0), not Idle");
        }
        _ => panic!("expected a log line"),
    }
    assert_eq!(ts.scenarios()[0].state(), ScenarioState::Running(0));
}

#[test]
fn abort_skips_the_rest_and_finishes() {
    let mut ts = two_step_set();
    ts.handle(TestSetCommand::StartScenario(None), 0);
    let (_, actions) = ts.handle(TestSetCommand::AbortTests, 5);
    assert!(matches!(actions[0], Action::KillTest(0)));
    assert_eq!(finish_of(&actions), Some(("s".to_string(), 200, "Finished tests".to_string())));
    assert_eq!(ts.scenarios()[0].state(), ScenarioState::TestFinished);
    assert!(matches!(ts.tests()[0].state(), TestState::Fail(m) if m == "Skipped"));
    assert!(matches!(ts.tests()[1].state(), TestState::Fail(m) if m == "Skipped"));
    // Aborting again does nothing.
    let (_, actions) = ts.handle(TestSetCommand::AbortScenario, 6);
    assert!(actions.is_empty());
}

#[test]
fn provided_names_are_unique() {
    let mut ts = TestSet::new(Config::new());
    assert!(matches!(ts.load_test("openocd-rpi", &uf("[Test]\nExecStart=a\nProvides=swd\n")), TestLoad::Added));
    match ts.load_test("openocd-olimex", &uf("[Test]\nExecStart=b\nProvides=swd\n")) {
        TestLoad::ProvidesTaken(other, name) => {
            assert_eq!(other, "openocd-rpi");
            assert_eq!(name, "swd");
        }
        _ => panic!("expected a collision"),
    }
    match ts.load_test("swd", &uf("[Test]\nExecStart=c\n")) {
        TestLoad::IdTaken(other) => assert_eq!(other, "openocd-rpi"),
        _ => panic!("expected a collision"),
    }
    assert_eq!(ts.tests().len(), 1);
    assert!(matches!(ts.load_test("x", &uf("[Other]\nA=b\n")), TestLoad::Failed(_)));
    assert!(matches!(ts.load_test("y", &uf("[Test]\nExecStart=c\nCompatibleJigs=none\n")), TestLoad::Incompatible));
}

#[test]
fn selecting_and_describing_scenarios() {
    let mut ts = two_step_set();
    let a = ts.set_scenario(&"nope".to_string());
    match &a[0] {
        Action::Broadcast(class, _, _, BroadcastMessageContents::Log(l)) => {
            assert_eq!(class, "debug-internal");
            assert_eq!(l, "Unable to find scenario: nope");
        }
        _ => panic!("expected a debug line"),
    }
    let a = ts.send_scenarios();
    match &a[0] {
        Action::Broadcast(_, _, _, BroadcastMessageContents::Scenarios(l)) => assert_eq!(l, &vec!["s".to_string()]),
        _ => panic!("expected the list of scenarios"),
    }
    let a = ts.describe_jig();
    assert_eq!(a.len(), 3);
    assert!(matches!(&a[0], Action::Broadcast(_, _, _, BroadcastMessageContents::Jig(j)) if j == "main"));
    let a = ts.announce_scenarios();
    assert_eq!(a.len(), 1 + 3 + 3);
    assert!(ts.accepts(&TestSetCommand::SendTests(Some("s".to_string()))));
    assert!(!ts.accepts(&TestSetCommand::SendTests(Some("zz".to_string()))));
    let (step, _) = ts.handle(TestSetCommand::Shutdown, 0);
    assert_eq!(step, TestSetStep::Shutdown);
}

#[test]
fn no_scenario_selected_is_logged() {
    let mut ts = TestSet::new(Config::new());
    assert!(!ts.accepts(&TestSetCommand::AdvanceScenario));
    let a = ts.send_tests(None);
    assert!(matches!(&a[0], Action::Broadcast(_, _, _, BroadcastMessageContents::Log(l)) if l == "No default scenario selected"));
    let (started, a) = ts.start_scenario(None);
    assert!(!started);
    assert_eq!(a.len(), 1);
    assert!(ts.describe_jig().is_empty());
}

#[test]
fn interface_hello_is_recorded() {
    let mut ts = TestSet::new(Config::new());
    let c = Config::new();
    let i = cfti::types::interface::Interface::new("ui", &uf("[Interface]\nExecStart=ui\n"), &ts.jig_ids(), &c).unwrap().unwrap();
    ts.add_interface(i);
    let (_, a) = ts.handle(TestSetCommand::SetInterfaceHello("ui".to_string(), "panel".to_string()), 0);
    assert!(a.is_empty());
    let (_, _) = ts.handle(TestSetCommand::SetInterfaceHello("other".to_string(), "x".to_string()), 0);
}

#[test]
fn dependency_order_keeps_the_listed_order() {
    // W requires Y and Z, which both require P; the scenario lists Y, W.
    // Each test comes after what it depends on, and Y (listed first) comes
    // before W.
    let mut ts = TestSet::new(Config::new());
    ts.load_test("P", &uf("[Test]\nExecStart=p\n"));
    ts.load_test("Y", &uf("[Test]\nExecStart=y\nRequires=P\n"));
    ts.load_test("Z", &uf("[Test]\nExecStart=z\nRequires=P\n"));
    ts.load_test("W", &uf("[Test]\nExecStart=w\nRequires=Y, Z\n"));
    let s = uf("[Scenario]\nTests=Y W\n");
    assert!(ts.scenario_loadable_here(&s));
    let (outcome, _) = ts.load_scenario("s", &s);
    assert!(matches!(outcome, Loaded::Added));
    assert_eq!(ts.scenarios()[0].tests(), &vec![0usize, 1, 2, 3]);
}

#[test]
fn listed_tests_sharing_a_dependency_keep_their_order() {
    // X and Z both require P; listed X then Z: P, X, Z.
    let mut ts = TestSet::new(Config::new());
    ts.load_test("P", &uf("[Test]\nExecStart=p\n"));
    ts.load_test("Z", &uf("[Test]\nExecStart=z\nRequires=P\n"));
    ts.load_test("X", &uf("[Test]\nExecStart=x\nRequires=P\n"));
    let (outcome, _) = ts.load_scenario("s", &uf("[Scenario]\nTests=X Z\n"));
    assert!(matches!(outcome, Loaded::Added));
    assert_eq!(ts.scenarios()[0].tests(), &vec![0usize, 2, 1]);
}

#[test]
fn scenario_errors() {
    let mut ts = TestSet::new(Config::new());
    ts.load_test("a", &uf("[Test]\nExecStart=a\nRequires=ghost\n"));
    let (o, _) = ts.load_scenario("s0", &uf("[Scenario]\nName=none\n"));
    assert!(matches!(o, Loaded::Failed(cfti::types::ordering::ScenarioError::TestListNotFound)));
    // An empty value is no value.
    let (o, _) = ts.load_scenario("s1", &uf("[Scenario]\nTests=\n"));
    assert!(matches!(o, Loaded::Failed(cfti::types::ordering::ScenarioError::TestListNotFound)));
    // A list with no name in it names the empty test, once per item.
    let (o, _) = ts.load_scenario("s1b", &uf("[Scenario]\nTests= , \n"));
    assert!(matches!(o, Loaded::Failed(cfti::types::ordering::ScenarioError::MissingDependency(x, y)) if x.is_empty() && y.is_empty()));
    let (o, _) = ts.load_scenario("s2", &uf("[Scenario]\nTests=missing\n"));
    assert!(matches!(o, Loaded::Failed(cfti::types::ordering::ScenarioError::TestNotFound(_))));
    let (o, _) = ts.load_scenario("s3", &uf("[Scenario]\nTests=a\n"));
    assert!(matches!(o, Loaded::Failed(cfti::types::ordering::ScenarioError::TestDependencyNotFound(_, _))));
    let (o, _) = ts.load_scenario("s4", &uf("[Other]\nA=b\n"));
    assert!(matches!(o, Loaded::Failed(cfti::types::ordering::ScenarioError::MissingScenarioSection)));
    let (o, _) = ts.load_scenario("s5", &uf("[Scenario]\nTests=a\nJigs=other\n"));
    assert!(matches!(o, Loaded::Incompatible));
    assert!(!ts.scenario_loadable_here(&uf("[Scenario]\nTests=a\nTimeout=never\n")));
    assert!(ts.scenarios().is_empty());
}

fn daemon_set() -> TestSet {
    let mut ts = TestSet::new(Config::new());
    assert!(matches!(
        ts.load_test("d", &uf("[Test]\nExecStart=serve\nType=daemon\nDaemonReadyText=^ready\n")),
        TestLoad::Added
    ));
    let s = uf("[Scenario]\nTests=d\n");
    let (o, _) = ts.load_scenario("s", &s);
    assert!(matches!(o, Loaded::Added));
    ts
}

#[test]
fn daemon_becomes_ready_and_ends_with_its_scenario() {
    let mut ts = daemon_set();
    let (step, actions) = ts.handle(TestSetCommand::StartScenario(Some("s".to_string())), 0);
    assert_eq!(step, TestSetStep::Started);
    match actions.last() {
        Some(Action::StartDaemon(0, cmd, _, _, Some(ready))) => {
            assert_eq!(cmd, "serve");
            assert_eq!(ready, "^ready");
        }
        _ => panic!("expected the daemon to start"),
    }
    let a = ts.test_event(0, TestEvent::DaemonLine("booting".to_string()));
    assert_eq!(a.len(), 2);
    assert!(matches!(ts.tests()[0].state(), TestState::Starting));
    let a = ts.test_event(0, TestEvent::DaemonLine("ready now".to_string()));
    assert_eq!(a.len(), 4);
    assert!(matches!(ts.tests()[0].state(), TestState::Running));
    assert!(matches!(&a[3], Action::Control(_, _, _, cfti::controller::ControlMessageContents::AdvanceScenario)));
    // Later lines are ordinary output; the end of its output changes nothing.
    let a = ts.test_event(0, TestEvent::DaemonLine("serving".to_string()));
    assert_eq!(a.len(), 1);
    assert!(ts.test_event(0, TestEvent::DaemonEnded("Test daemon exited".to_string())).is_empty());
    let (_, actions) = ts.handle(TestSetCommand::AdvanceScenario, 100);
    assert!(actions.iter().any(|a| matches!(a, Action::KillTest(0))));
    assert_eq!(finish_of(&actions), Some(("s".to_string(), 200, "Finished tests".to_string())));
    assert!(matches!(ts.tests()[0].state(), TestState::Pass));
    // Exiting after it was stopped is a pass.
    let a = ts.test_event(0, TestEvent::DaemonExited("killed".to_string()));
    assert!(matches!(&a[0], Action::Broadcast(_, _, _, BroadcastMessageContents::Pass(t, m)) if t == "d" && m == "Okay"));
}

#[test]
fn daemon_that_exits_while_running_fails() {
    let mut ts = daemon_set();
    ts.handle(TestSetCommand::StartScenario(Some("s".to_string())), 0);
    ts.test_event(0, TestEvent::DaemonLine("ready".to_string()));
    let a = ts.test_event(0, TestEvent::DaemonExited("exit code 1".to_string()));
    assert!(matches!(&a[0], Action::Broadcast(_, _, _, BroadcastMessageContents::Fail(t, m)) if t == "d" && m == "Daemon exited: exit code 1"));
    assert!(matches!(ts.tests()[0].state(), TestState::Fail(_)));
}

#[test]
fn daemon_that_never_comes_ready_fails() {
    let mut ts = daemon_set();
    ts.handle(TestSetCommand::StartScenario(Some("s".to_string())), 0);
    let a = ts.test_event(0, TestEvent::ReadyTimeout);
    assert!(matches!(&a[1], Action::KillTest(0)));
    assert!(matches!(&a[2], Action::Broadcast(_, _, _, BroadcastMessageContents::Fail(t, m)) if t == "d" && m == "Test daemon never came ready"));
    assert!(matches!(&a[3], Action::Control(_, _, _, cfti::controller::ControlMessageContents::AdvanceScenario)));
    assert!(matches!(ts.tests()[0].state(), TestState::Fail(m) if m == "Test daemon never came ready"));
    // A second timeout changes nothing, nor does the daemon's end.
    assert!(ts.test_event(0, TestEvent::ReadyTimeout).is_empty());
    assert!(ts.test_event(0, TestEvent::DaemonEnded("Test daemon exited".to_string())).is_empty());
    assert!(ts.test_event(0, TestEvent::DaemonExited("killed".to_string())).is_empty());
}

#[test]
fn daemon_that_dies_before_it_is_ready_reports_nothing() {
    let mut ts = daemon_set();
    ts.handle(TestSetCommand::StartScenario(Some("s".to_string())), 0);
    assert!(ts.test_event(0, TestEvent::DaemonExited("exit code 3".to_string())).is_empty());
    assert!(matches!(ts.tests()[0].state(), TestState::Starting));
}

#[test]
fn daemon_that_came_up_passes_when_it_exits_after_failing() {
    let mut ts = daemon_set();
    ts.handle(TestSetCommand::StartScenario(Some("s".to_string())), 0);
    ts.test_event(0, TestEvent::DaemonLine("ready".to_string()));
    let a = ts.test_event(0, TestEvent::DaemonExited("exit code 1".to_string()));
    assert!(matches!(&a[0], Action::Broadcast(_, _, _, BroadcastMessageContents::Fail(_, _))));
    assert!(matches!(ts.tests()[0].state(), TestState::Fail(_)));
    let a = ts.test_event(0, TestEvent::DaemonExited("killed".to_string()));
    assert_eq!(a.len(), 1);
    assert!(matches!(&a[0], Action::Broadcast(_, _, _, BroadcastMessageContents::Pass(t, m)) if t == "d" && m == "Okay"));
}

#[test]
fn daemon_that_cannot_start_fails_and_moves_on() {
    let mut ts = daemon_set();
    ts.handle(TestSetCommand::StartScenario(Some("s".to_string())), 0);
    let a = ts.test_event(0, TestEvent::SpawnFailed("no such program".to_string()));
    assert_eq!(a.len(), 2);
    assert!(matches!(&a[0], Action::Broadcast(_, _, _, BroadcastMessageContents::Fail(t, m)) if t == "d" && m == "no such program"));
    assert!(matches!(&a[1], Action::Control(_, _, _, cfti::controller::ControlMessageContents::AdvanceScenario)));
    assert!(matches!(ts.tests()[0].state(), TestState::Fail(_)));
}

#[test]
fn scenario_dependency_cycles() {
    let mut ts = TestSet::new(Config::new());
    ts.load_test("a", &uf("[Test]\nExecStart=a\nRequires=b\n"));
    ts.load_test("b", &uf("[Test]\nExecStart=b\nSuggests=a\n"));
    ts.load_test("c", &uf("[Test]\nExecStart=c\nRequires=d\n"));
    ts.load_test("d", &uf("[Test]\nExecStart=d\nRequires=c\n"));
    // A suggestion that would close a cycle is left out.
    let (o, _) = ts.load_scenario("s1", &uf("[Scenario]\nTests=a\n"));
    assert!(matches!(o, Loaded::Added));
    assert_eq!(ts.scenarios()[0].tests(), &vec![1usize, 0]);
    // A requirement that would close one is an error.
    let (o, _) = ts.load_scenario("s2", &uf("[Scenario]\nTests=c\n"));
    match o {
        Loaded::Failed(ScenarioError::CircularDependency(x, y)) => {
            assert_eq!((x.as_str(), y.as_str()), ("d", "c"))
        }
        _ => panic!("expected a circular dependency"),
    }
    // So is a listed order that goes against a requirement.
    let (o, _) = ts.load_scenario("s3", &uf("[Scenario]\nTests=a b\n"));
    match o {
        Loaded::Failed(ScenarioError::CircularDependency(x, y)) => {
            assert_eq!((x.as_str(), y.as_str()), ("a", "b"))
        }
        _ => panic!("expected a circular dependency"),
    }
    // A listed test that is not loaded.
    let (o, _) = ts.load_scenario("s4", &uf("[Scenario]\nTests=a ghost\n"));
    match o {
        Loaded::Failed(ScenarioError::MissingDependency(x, y)) => {
            assert_eq!((x.as_str(), y.as_str()), ("ghost", "a"))
        }
        _ => panic!("expected a missing dependency"),
    }
    assert_eq!(ts.scenarios().len(), 1);
}

#[test]
fn start_after_stop_begins_a_new_run() {
    let mut ts = two_step_set();
    ts.handle(TestSetCommand::StartScenario(None), 0);
    ts.handle(TestSetCommand::AbortTests, 5);
    let (step, actions) = ts.handle(TestSetCommand::StartScenario(None), 10);
    assert_eq!(step, TestSetStep::Started);
    match &actions[0] {
        Action::Broadcast(_, _, _, BroadcastMessageContents::Log(l)) => assert_eq!(l, "Starting new scenario run"),
        _ => panic!("expected the start to be logged"),
    }
    assert_eq!(started_simple(&actions), Some((0, "run-a".to_string(), 3_600_000)));
    assert_eq!(ts.scenarios()[0].state(), ScenarioState::Running(0));
    assert!(matches!(ts.tests()[1].state(), TestState::Pending));
}

#[test]
fn selected_scenario_is_the_one_started() {
    let mut ts = TestSet::new(Config::new());
    ts.load_test("a", &uf("[Test]\nExecStart=run-a\n"));
    ts.load_test("b", &uf("[Test]\nExecStart=run-b\n"));
    ts.load_scenario("first", &uf("[Scenario]\nTests=a\n"));
    ts.load_scenario("second", &uf("[Scenario]\nTests=b\n"));
    let (step, _) = ts.handle(TestSetCommand::StartScenario(None), 0);
    assert_eq!(step, TestSetStep::Continue);
    ts.handle(TestSetCommand::SetScenario("second".to_string()), 0);
    let (step, actions) = ts.handle(TestSetCommand::StartScenario(None), 0);
    assert_eq!(step, TestSetStep::Started);
    assert_eq!(started_simple(&actions), Some((1, "run-b".to_string(), 3_600_000)));
    assert_eq!(ts.scenarios()[1].state(), ScenarioState::Running(0));
    assert_eq!(ts.scenarios()[0].state(), ScenarioState::Idle);
}

#[test]
fn finished_run_is_not_finished_twice() {
    let mut ts = two_step_set();
    ts.handle(TestSetCommand::StartScenario(None), 0);
    let (_, actions) = ts.handle(TestSetCommand::AbortTests, 5);
    assert!(finish_of(&actions).is_some());
    // The stopped test's end asks the run to move on: nothing more happens.
    let (_, actions) = ts.handle(TestSetCommand::AdvanceScenario, 6);
    assert!(actions.is_empty());
    assert_eq!(ts.scenarios()[0].state(), ScenarioState::TestFinished);
}

#[test]
fn test_time_is_cut_to_what_is_left() {
    let ts = two_step_set();
    let s = &ts.scenarios()[0];
    assert_eq!(s.make_timeout(5, 0), 5_000);
    assert_eq!(s.make_timeout(5, 7_199_000), 1_000);
    assert_eq!(s.make_timeout(5, 7_200_000), 0);
}

#[test]
fn default_scenario_load_announces_in_order() {
    let mut ts = two_step_set();
    let a = ts.announce_scenarios();
    // The list of every scenario, each description (three lines), then the
    // description of the scenario in use.
    assert_eq!(a.len(), 7);
    assert!(matches!(&a[0], Action::Broadcast(_, _, _, BroadcastMessageContents::Scenarios(ids)) if ids == &vec!["s".to_string()]));
    assert!(matches!(&a[3], Action::Broadcast(_, _, _, BroadcastMessageContents::Tests(n, _)) if n == "s"));
    assert!(matches!(&a[6], Action::Broadcast(_, _, _, BroadcastMessageContents::Tests(n, _)) if n == "s"));
    assert_eq!(ts.handle(TestSetCommand::SendScenarios, 0).1.len(), 1);
}

#[test]
fn selecting_a_scenario_announces_it() {
    let mut ts = two_step_set();
    let (_, a) = ts.handle(TestSetCommand::SetScenario("s".to_string()), 0);
    assert_eq!(a.len(), 4);
    assert!(matches!(&a[0], Action::Broadcast(c, _, _, BroadcastMessageContents::Scenario(n)) if c == "standard" && n == "s"));
    let (_, a) = ts.handle(TestSetCommand::SetScenario("nope".to_string()), 0);
    assert_eq!(a.len(), 1);
    assert!(matches!(&a[0], Action::Broadcast(c, _, _, BroadcastMessageContents::Log(m)) if c == "debug-internal" && m == "Unable to find scenario: nope"));
    let (_, a) = ts.handle(TestSetCommand::SetInterfaceHello("none".to_string(), "x".to_string()), 0);
    assert!(a.is_empty());
}

#[test]
fn very_long_time_limits_are_not_cut() {
    let mut ts = TestSet::new(Config::new());
    ts.load_test("a", &uf("[Test]\nExecStart=run-a\nTimeout=18446744073709551615\n"));
    let (o, _) = ts.load_scenario("s", &uf("[Scenario]\nTests=a\nTimeout=18446744073709551615\n"));
    assert!(matches!(o, Loaded::Added));
    let (_, actions) = ts.handle(TestSetCommand::StartScenario(Some("s".to_string())), 0);
    assert_eq!(started_simple(&actions), Some((0, "run-a".to_string(), 18_446_744_073_709_551_615_000)));
}
