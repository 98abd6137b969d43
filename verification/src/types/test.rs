use vstd::prelude::*;

use crate::actions::{actions_view, broadcast, control, log, Action, ActionView};
use crate::config::{opt_view, Config};
use crate::controller::{BroadcastContentsView, BroadcastMessageContents, ControlContentsView, ControlMessageContents};
use crate::text::concat;
use crate::text::{lowercase, parse_u64, parse_u64_spec, str_eq, strings_view, to_lowercase};
use crate::types::fields::{comma_list_spec, first_of, get_comma_list, get_list, get_or, get_first, list_spec, names_a_loaded_jig, names_loaded_jig, or_default, own, Directives};
use crate::unitfile::{get_spec, has_section_spec, UnitFile};

verus! {

#[derive(Debug)]
pub enum TestError {
    FileLoadError(String),
    MissingTestSection,
    MissingExecSection,
    ParseTimeoutError,
    InvalidType(String),
    DaemonReadyTextError,
}

pub enum TestErrorView {
    FileLoadError(Seq<char>),
    MissingTestSection,
    MissingExecSection,
    ParseTimeoutError,
    InvalidType(Seq<char>),
    DaemonReadyTextError,
}

impl View for TestError {
    type V = TestErrorView;

    open spec fn view(&self) -> TestErrorView {
        match self {
            TestError::FileLoadError(s) => TestErrorView::FileLoadError(s@),
            TestError::MissingTestSection => TestErrorView::MissingTestSection,
            TestError::MissingExecSection => TestErrorView::MissingExecSection,
            TestError::ParseTimeoutError => TestErrorView::ParseTimeoutError,
            TestError::InvalidType(s) => TestErrorView::InvalidType(s@),
            TestError::DaemonReadyTextError => TestErrorView::DaemonReadyTextError,
        }
    }
}

/// "simple": the exit code is the result.  "daemon": the test keeps running
/// in the background once its ready text appears.
#[derive(Debug, Clone, Copy, PartialEq, Eq, Structural)]
pub enum TestType {
    Simple,
    Daemon,
}

#[derive(Debug, Clone)]
pub enum TestState {
    /// A test has yet to be run.
    Pending,
    /// A daemon is waiting for its "match" text to appear.
    Starting,
    /// A test (or daemon) is in the process of running.
    Running,
    /// A test (or daemon) passed successfully.
    Pass,
    /// A test (or daemon) failed for some reason.
    Fail(String),
}

impl TestState {
    /// Whether the test is yet to be run.
    pub fn is_pending(&self) -> (r: bool)
        ensures
            r == (self@ is Pending),
    {
        match self {
            TestState::Pending => true,
            _ => false,
        }
    }

    pub fn is_starting(&self) -> (r: bool)
        ensures
            r == (self@ is Starting),
    {
        match self {
            TestState::Starting => true,
            _ => false,
        }
    }
}

pub enum TestStateView {
    Pending,
    Starting,
    Running,
    Pass,
    Fail(Seq<char>),
}

impl View for TestState {
    type V = TestStateView;

    open spec fn view(&self) -> TestStateView {
        match self {
            TestState::Pending => TestStateView::Pending,
            TestState::Starting => TestStateView::Starting,
            TestState::Running => TestStateView::Running,
            TestState::Pass => TestStateView::Pass,
            TestState::Fail(s) => TestStateView::Fail(s@),
        }
    }
}

/// Whether `pattern` is a regular expression that `regex::Regex::new`
/// accepts.
pub uninterp spec fn regex_valid(pattern: Seq<char>) -> bool;

/// Whether the regular expression `pattern` matches somewhere in `text`, as
/// `regex::Regex::is_match` decides.
pub uninterp spec fn regex_matches(pattern: Seq<char>, text: Seq<char>) -> bool;

/// Calls `regex::Regex::new` and reports whether it accepted the pattern.
#[verifier::external_body]
fn regex_compiles(pattern: &str) -> (r: bool)
    ensures
        r == regex_valid(pattern@),
{
    regex::Regex::new(pattern).is_ok()
}

/// Calls `regex::Regex::is_match` on the regular expression that
/// `regex::Regex::new` makes of `pattern`.
#[verifier::external_body]
fn regex_is_match(pattern: &str, text: &str) -> (r: bool)
    requires
        regex_valid(pattern@),
    ensures
        r == regex_matches(pattern@, text@),
{
    match regex::Regex::new(pattern) {
        Ok(re) => re.is_match(text),
        Err(_) => false,
    }
}

#[verifier::ext_equal]
pub struct TestView {
    pub id: Seq<char>,
    pub name: Seq<char>,
    pub description: Seq<char>,
    pub required: Seq<Seq<char>>,
    pub suggests: Seq<Seq<char>>,
    pub provides: Seq<Seq<char>>,
    pub timeout: u64,
    pub exec_stop_success_timeout: u64,
    pub exec_stop_failure_timeout: u64,
    pub test_type: TestType,
    pub daemon_ready: Option<Seq<char>>,
    pub exec_start: Seq<char>,
    pub exec_stop_failure: Option<Seq<char>>,
    pub exec_stop_success: Option<Seq<char>>,
    pub working_directory: Option<Seq<char>>,
    pub last_line: Seq<char>,
    pub state: TestStateView,
    pub test_working_directory: Option<Seq<char>>,
    pub has_process: bool,
    /// The daemon came up (was ready) in its current run.
    pub came_up: bool,
}

/// A test: the fundamental unit of work.
pub struct Test {
    id: String,
    name: String,
    description: String,
    required: Vec<String>,
    suggests: Vec<String>,
    provides: Vec<String>,
    timeout: u64,
    exec_stop_success_timeout: u64,
    exec_stop_failure_timeout: u64,
    test_type: TestType,
    test_daemon_ready: Option<String>,
    exec_start: String,
    exec_stop_failure: Option<String>,
    exec_stop_success: Option<String>,
    working_directory: Option<String>,
    last_line: String,
    state: TestState,
    test_working_directory: Option<String>,
    has_process: bool,
    came_up: bool,
}

impl View for Test {
    type V = TestView;

    closed spec fn view(&self) -> TestView {
        TestView {
            id: self.id@,
            name: self.name@,
            description: self.description@,
            required: strings_view(self.required@),
            suggests: strings_view(self.suggests@),
            provides: strings_view(self.provides@),
            timeout: self.timeout,
            exec_stop_success_timeout: self.exec_stop_success_timeout,
            exec_stop_failure_timeout: self.exec_stop_failure_timeout,
            test_type: self.test_type,
            daemon_ready: opt_view(self.test_daemon_ready),
            exec_start: self.exec_start@,
            exec_stop_failure: opt_view(self.exec_stop_failure),
            exec_stop_success: opt_view(self.exec_stop_success),
            working_directory: opt_view(self.working_directory),
            last_line: self.last_line@,
            state: self.state@,
            test_working_directory: opt_view(self.test_working_directory),
            has_process: self.has_process,
            came_up: self.came_up,
        }
    }
}

/// The `CompatibleJigs` field of a test: where it is absent, any jig will do.
pub open spec fn test_jigs_field(m: Directives) -> Option<Seq<char>> {
    get_spec(m, "Test"@, "CompatibleJigs"@)
}

/// Whether either specific stop command is given, in which case `ExecStop`
/// is not used.
pub open spec fn has_specific_stop(m: Directives, section: Seq<char>) -> bool {
    get_spec(m, section, "ExecStopSuccess"@) is Some || get_spec(m, section, "ExecStopFail"@) is Some
}

/// The command run after a test that passed.
pub open spec fn stop_success_spec(m: Directives, section: Seq<char>) -> Option<Seq<char>> {
    if has_specific_stop(m, section) {
        get_spec(m, section, "ExecStopSuccess"@)
    } else {
        get_spec(m, section, "ExecStop"@)
    }
}

/// The command run after a test that failed.
pub open spec fn stop_failure_spec(m: Directives, section: Seq<char>) -> Option<Seq<char>> {
    if has_specific_stop(m, section) {
        get_spec(m, section, "ExecStopFail"@)
    } else {
        get_spec(m, section, "ExecStop"@)
    }
}

/// The test that a unit file describes, once every check has passed.
pub open spec fn loaded_test(id: Seq<char>, m: Directives, config: crate::config::ConfigView) -> TestView {
    TestView {
        id: id,
        name: or_default(get_spec(m, "Test"@, "Name"@), id),
        description: or_default(get_spec(m, "Test"@, "Description"@), seq![]),
        required: list_spec(m, "Test"@, "Requires"@),
        suggests: list_spec(m, "Test"@, "Suggests"@),
        provides: comma_list_spec(m, "Test"@, "Provides"@),
        timeout: match get_spec(m, "Test"@, "Timeout"@) {
            None => config.timeout,
            Some(s) => parse_u64_spec(s).unwrap(),
        },
        exec_stop_success_timeout: config.test_success_timeout,
        exec_stop_failure_timeout: config.test_failure_timeout,
        test_type: if get_spec(m, "Test"@, "Type"@) matches Some(t) && lowercase(t) == "daemon"@ {
            TestType::Daemon
        } else {
            TestType::Simple
        },
        daemon_ready: get_spec(m, "Test"@, "DaemonReadyText"@),
        exec_start: get_spec(m, "Test"@, "ExecStart"@).unwrap(),
        exec_stop_failure: stop_failure_spec(m, "Test"@),
        exec_stop_success: stop_success_spec(m, "Test"@),
        working_directory: get_spec(m, "Test"@, "WorkingDirectory"@),
        last_line: seq![],
        state: TestStateView::Pending,
        test_working_directory: None,
        has_process: false,
        came_up: false,
    }
}

/// What loading a test unit gives: `None` where the test is not compatible
/// with the loaded jigs; else the first error of the checks, in order; else
/// the test.
pub open spec fn test_outcome(
    id: Seq<char>,
    m: Directives,
    jigs: Seq<Seq<char>>,
    config: crate::config::ConfigView,
) -> Option<Result<TestView, TestErrorView>> {
    if !has_section_spec(m, "Test"@) {
        Some(Err(TestErrorView::MissingTestSection))
    } else if test_jigs_field(m) matches Some(list) && !names_loaded_jig(list, jigs) {
        None
    } else if get_spec(m, "Test"@, "DaemonReadyText"@) matches Some(p) && !regex_valid(p) {
        Some(Err(TestErrorView::DaemonReadyTextError))
    } else if get_spec(m, "Test"@, "Type"@) matches Some(t) && lowercase(t) != "simple"@
        && lowercase(t) != "daemon"@ {
        Some(Err(TestErrorView::InvalidType(lowercase(get_spec(m, "Test"@, "Type"@).unwrap()))))
    } else if get_spec(m, "Test"@, "ExecStart"@) is None {
        Some(Err(TestErrorView::MissingExecSection))
    } else if get_spec(m, "Test"@, "Timeout"@) matches Some(s) && parse_u64_spec(s) is None {
        Some(Err(TestErrorView::ParseTimeoutError))
    } else {
        Some(Ok(loaded_test(id, m, config)))
    }
}

pub open spec fn test_result_view(r: Option<Result<Test, TestError>>) -> Option<
    Result<TestView, TestErrorView>,
> {
    match r {
        None => None,
        Some(Ok(t)) => Some(Ok(t@)),
        Some(Err(e)) => Some(Err(e@)),
    }
}

impl Test {
    /// Loads the test `id` from its unit file.  `jigs` are the ids of the
    /// loaded jigs; `config` gives the default timeouts.
    pub fn new(id: &str, unitfile: &UnitFile, jigs: &Vec<String>, config: &Config) -> (r: Option<
        Result<Test, TestError>,
    >)
        ensures
            test_result_view(r) == test_outcome(id@, unitfile@, strings_view(jigs@), config@),
    {
        if !unitfile.has_section("Test") {
            return Some(Err(TestError::MissingTestSection));
        }
        match unitfile.get("Test", "CompatibleJigs") {
            None => {},
            Some(list) => {
                if !names_a_loaded_jig(list.as_str(), jigs) {
                    return None;
                }
            },
        }
        let test_daemon_ready = unitfile.get("Test", "DaemonReadyText");
        match &test_daemon_ready {
            None => {},
            Some(p) => {
                if !regex_compiles(p.as_str()) {
                    return Some(Err(TestError::DaemonReadyTextError));
                }
            },
        }
        let test_type = match unitfile.get("Test", "Type") {
            None => TestType::Simple,
            Some(s) => {
                let lower = to_lowercase(s.as_str());
                if str_eq(lower.as_str(), "simple") {
                    TestType::Simple
                } else if str_eq(lower.as_str(), "daemon") {
                    TestType::Daemon
                } else {
                    return Some(Err(TestError::InvalidType(lower)));
                }
            },
        };
        let exec_start = match unitfile.get("Test", "ExecStart") {
            None => return Some(Err(TestError::MissingExecSection)),
            Some(s) => s,
        };
        let success = unitfile.get("Test", "ExecStopSuccess");
        let failure = unitfile.get("Test", "ExecStopFail");
        let (exec_stop_success, exec_stop_failure) = if success.is_some() || failure.is_some() {
            (success, failure)
        } else {
            (unitfile.get("Test", "ExecStop"), unitfile.get("Test", "ExecStop"))
        };
        let working_directory = unitfile.get("Test", "WorkingDirectory");
        let description = get_or(unitfile, "Test", "Description", "");
        let name = get_or(unitfile, "Test", "Name", id);
        let timeout = match unitfile.get("Test", "Timeout") {
            None => config.timeout(),
            Some(s) => match parse_u64(s.as_str()) {
                None => return Some(Err(TestError::ParseTimeoutError)),
                Some(n) => n,
            },
        };
        let required = get_list(unitfile, "Test", "Requires");
        let suggests = get_list(unitfile, "Test", "Suggests");
        let provides = get_comma_list(unitfile, "Test", "Provides");
        proof {
            reveal_strlit("");
            reveal_strlit("simple");
            reveal_strlit("daemon");
            assert("simple"@[0] != "daemon"@[0]);
        }
        let t = Test {
                    id: own(id),
                    name: name,
                    description: description,
                    required: required,
                    suggests: suggests,
                    provides: provides,
                    timeout: timeout,
                    exec_stop_success_timeout: config.test_success_timeout(),
                    exec_stop_failure_timeout: config.test_failure_timeout(),
                    test_type: test_type,
                    test_daemon_ready: test_daemon_ready,
                    exec_start: exec_start,
                    exec_stop_failure: exec_stop_failure,
                    exec_stop_success: exec_stop_success,
                    working_directory: working_directory,
                    last_line: own(""),
                    state: TestState::Pending,
                    test_working_directory: None,
                    has_process: false,
                    came_up: false,
                };
        let ghost lt = loaded_test(id@, unitfile@, config@);
        assert(t@ =~= lt);
        Some(Ok(t))
    }

    /// The outcome of the current run so far.
    pub fn state(&self) -> (r: &TestState)
        ensures
            r@ == self@.state,
    {
        &self.state
    }

    /// The maximum number of seconds the test may run.
    pub fn timeout(&self) -> (r: u64)
        ensures
            r == self@.timeout,
    {
        self.timeout
    }

    pub fn requirements(&self) -> (r: &Vec<String>)
        ensures
            strings_view(r@) == self@.required,
    {
        &self.required
    }

    pub fn suggestions(&self) -> (r: &Vec<String>)
        ensures
            strings_view(r@) == self@.suggests,
    {
        &self.suggests
    }

    pub fn provides(&self) -> (r: &Vec<String>)
        ensures
            strings_view(r@) == self@.provides,
    {
        &self.provides
    }

    pub fn kind(&self) -> (r: &'static str)
        ensures
            r@ == "test"@,
    {
        "test"
    }

    pub fn name(&self) -> (r: &str)
        ensures
            r@ == self@.name,
    {
        self.name.as_str()
    }

    pub fn description(&self) -> (r: &str)
        ensures
            r@ == self@.description,
    {
        self.description.as_str()
    }

    pub fn id(&self) -> (r: &str)
        ensures
            r@ == self@.id,
    {
        self.id.as_str()
    }
}

/// The state of a test that was skipped.
pub open spec fn skipped_state() -> TestStateView {
    TestStateView::Fail("Skipped"@)
}

/// The directory a test runs from: its own where given, else its
/// scenario's.
pub open spec fn run_directory(own_dir: Option<Seq<char>>, scenario_dir: Option<Seq<char>>) -> Option<Seq<char>> {
    match own_dir {
        Some(d) => Some(d),
        None => scenario_dir,
    }
}

/// Test `t` once started, from the scenario's directory `wd`: a simple test
/// runs at once, a daemon is starting.
pub open spec fn started(t: TestView, wd: Option<Seq<char>>) -> TestView {
    TestView {
        state: if t.test_type == TestType::Simple {
            TestStateView::Running
        } else {
            TestStateView::Starting
        },
        test_working_directory: run_directory(t.working_directory, wd),
        has_process: t.test_type == TestType::Simple || t.has_process,
        came_up: false,
        ..t
    }
}

/// What starting test `t` (test `index`) asks for: the broadcast that it
/// runs, then its program started with at most `max_ms` milliseconds.
pub open spec fn start_actions(t: TestView, index: usize, wd: Option<Seq<char>>, max_ms: u128) -> Seq<ActionView> {
    seq![
        test_says(t, "standard"@, BroadcastContentsView::Running(t.id)),
        if t.test_type == TestType::Simple {
            ActionView::StartSimple(index, t.exec_start, run_directory(t.working_directory, wd), max_ms)
        } else {
            ActionView::StartDaemon(
                index,
                t.exec_start,
                run_directory(t.working_directory, wd),
                max_ms,
                t.daemon_ready,
            )
        },
    ]
}

/// A broadcast by test `t` in class `class`.
pub open spec fn test_says(t: TestView, class: Seq<char>, m: BroadcastContentsView) -> ActionView {
    ActionView::Broadcast(class, t.id, "test"@, m)
}

/// The request that the scenario of test `t` moves on.
pub open spec fn test_advances(t: TestView) -> ActionView {
    ActionView::Control("result"@, t.id, "test"@, ControlContentsView::AdvanceScenario)
}

/// The cleanup command run after the test, for its state: none while it is
/// pending or starting, the failure command while it runs or after it
/// failed, the success command after it passed.
pub open spec fn stop_command(t: TestView) -> Option<Seq<char>> {
    match t.state {
        TestStateView::Pending | TestStateView::Starting => None,
        TestStateView::Running | TestStateView::Fail(_) => t.exec_stop_failure,
        TestStateView::Pass => t.exec_stop_success,
    }
}

pub open spec fn stop_timeout(t: TestView) -> u64 {
    match t.state {
        TestStateView::Pass => t.exec_stop_success_timeout,
        _ => t.exec_stop_failure_timeout,
    }
}

pub open spec fn stop_label(t: TestView) -> Seq<char> {
    match t.state {
        TestStateView::Pass => "Running ExecStopSuccess: "@,
        _ => "Running ExecStopFailure: "@,
    }
}

/// What stopping a test asks for (see `Test::stop`).
pub open spec fn stop_actions(t: TestView, index: usize, wd: Option<Seq<char>>) -> Seq<ActionView> {
    if t.test_type == TestType::Daemon {
        seq![]
    } else {
        (if t.has_process {
            seq![ActionView::KillTest(index)]
        } else {
            seq![]
        }) + match stop_command(t) {
            None => seq![],
            Some(cmd) => seq![
                test_says(t, "standard"@, BroadcastContentsView::Log(stop_label(t) + cmd)),
                ActionView::RunCommand(cmd, wd, stop_timeout(t)),
            ],
        }
    }
}

/// What ending a daemon asks for (see `Test::terminate`).
pub open spec fn terminate_actions(t: TestView, index: usize) -> Seq<ActionView> {
    if t.test_type == TestType::Simple {
        seq![]
    } else {
        daemon_terminate_actions(t, index)
    }
}

pub open spec fn daemon_terminate_actions(t: TestView, index: usize) -> Seq<ActionView> {
    let (cmd, timeout) = if t.state is Running {
        (t.exec_stop_success, t.exec_stop_success_timeout)
    } else {
        (t.exec_stop_failure, t.exec_stop_failure_timeout)
    };
    (if t.has_process {
        seq![ActionView::KillTest(index)]
    } else {
        seq![]
    }) + match cmd {
        None => seq![],
        Some(c) => seq![
            test_says(t, "standard"@, BroadcastContentsView::Log("Running post-test command: "@ + c)),
            ActionView::RunCommand(c, t.test_working_directory, timeout),
        ],
    }
}

impl Test {
    /// A test is well formed when its ready text is a valid regular
    /// expression (as loading checks).
    pub open spec fn wf(&self) -> bool {
        self@.daemon_ready matches Some(p) ==> regex_valid(p)
    }

    /// Marks the test as yet to be run.
    pub fn pending(&mut self)
        ensures
            final(self)@ == (TestView { state: TestStateView::Pending, ..old(self)@ }),
    {
        self.state = TestState::Pending;
    }

    /// Marks the test as not to be run: it counts as failed for the tests
    /// that require it.
    pub fn skip(&mut self)
        ensures
            final(self)@ == (TestView { state: skipped_state(), ..old(self)@ }),
    {
        self.state = TestState::Fail(own("Skipped"));
    }

    /// Starts a run of the test, with at most `max_ms` milliseconds to run.
    /// A simple test is running at once; a daemon is starting until its
    /// ready text appears.
    pub fn start(&mut self, index: usize, scenario_working_directory: &Option<String>, max_ms: u128) -> (r:
        Vec<Action>)
        ensures
            final(self)@ == started(old(self)@, opt_view(*scenario_working_directory)),
            actions_view(r@) == start_actions(
                old(self)@,
                index,
                opt_view(*scenario_working_directory),
                max_ms,
            ),
    {
        let mut r: Vec<Action> = Vec::new();
        r.push(
            broadcast("standard", self.id.as_str(), "test", BroadcastMessageContents::Running(self.id.clone())),
        );
        let wd = match &self.working_directory {
            Some(d) => Some(d.clone()),
            None => scenario_working_directory.clone(),
        };
        self.test_working_directory = wd.clone();
        self.came_up = false;
        match self.test_type {
            TestType::Simple => {
                self.state = TestState::Running;
                self.has_process = true;
                r.push(Action::StartSimple(index, self.exec_start.clone(), wd, max_ms));
            },
            TestType::Daemon => {
                self.state = TestState::Starting;
                r.push(
                    Action::StartDaemon(
                        index,
                        self.exec_start.clone(),
                        wd,
                        max_ms,
                        self.test_daemon_ready.clone(),
                    ),
                );
            },
        }
        assert(actions_view(r@) =~= seq![
            test_says(old(self)@, "standard"@, BroadcastContentsView::Running(old(self)@.id)),
            r@[1]@,
        ]);
        assert(self@ =~= started(old(self)@, opt_view(*scenario_working_directory)));
        r
    }

    /// A line that the test printed on `stream`: it is kept as the last
    /// line (the result message) and broadcast in the class named after the
    /// stream.
    pub fn output_line(&mut self, stream: &str, line: String) -> (r: Action)
        ensures
            final(self)@ == (TestView { last_line: line@, ..old(self)@ }),
            r@ == test_says(old(self)@, stream@, BroadcastContentsView::Log(line@)),
    {
        self.last_line = line.clone();
        broadcast(stream, self.id.as_str(), "test", BroadcastMessageContents::Log(line))
    }

    /// The end of a simple test: it passed (`Ok`) or failed with the given
    /// reason; the scenario is asked to move on.
    pub fn finish_simple(&mut self, result: Result<(), String>) -> (r: Vec<Action>)
        ensures
            final(self)@ == (TestView {
                state: match result {
                    Ok(_) => TestStateView::Pass,
                    Err(m) => TestStateView::Fail(m@),
                },
                has_process: false,
                ..old(self)@
            }),
            actions_view(r@) == seq![
                test_says(
                    old(self)@,
                    "result"@,
                    match result {
                        Ok(_) => BroadcastContentsView::Pass(old(self)@.id, old(self)@.last_line),
                        Err(m) => BroadcastContentsView::Fail(old(self)@.id, m@),
                    },
                ),
                test_advances(old(self)@),
            ],
    {
        let msg = match result {
            Ok(_) => {
                self.state = TestState::Pass;
                BroadcastMessageContents::Pass(self.id.clone(), self.last_line.clone())
            },
            Err(m) => {
                self.state = TestState::Fail(m.clone());
                BroadcastMessageContents::Fail(self.id.clone(), m)
            },
        };
        self.has_process = false;
        let mut r: Vec<Action> = Vec::new();
        r.push(broadcast("result", self.id.as_str(), "test", msg));
        r.push(control("result", self.id.as_str(), "test", ControlMessageContents::AdvanceScenario));
        assert(actions_view(r@) =~= seq![r@[0]@, r@[1]@]);
        r
    }

    /// A daemon could not be started: it failed with `msg`, which is
    /// broadcast, and the scenario is asked to move on.
    pub fn daemon_spawn_failed(&mut self, msg: String) -> (r: Vec<Action>)
        ensures
            final(self)@ == (TestView { state: TestStateView::Fail(msg@), ..old(self)@ }),
            actions_view(r@) == seq![
                test_says(old(self)@, "standard"@, BroadcastContentsView::Fail(old(self)@.id, msg@)),
                test_advances(old(self)@),
            ],
    {
        self.state = TestState::Fail(msg.clone());
        let mut r: Vec<Action> = Vec::new();
        r.push(broadcast("standard", self.id.as_str(), "test", BroadcastMessageContents::Fail(self.id.clone(), msg)));
        r.push(control("result", self.id.as_str(), "test", ControlMessageContents::AdvanceScenario));
        assert(actions_view(r@) =~= seq![r@[0]@, r@[1]@]);
        r
    }

    /// A line that a starting daemon printed.  It is broadcast and compared
    /// with the ready text; where it matches, the daemon is running.
    pub fn daemon_line(&mut self, line: String) -> (r: (bool, Vec<Action>))
        requires
            old(self).wf(),
            old(self)@.daemon_ready is Some,
        ensures
            r.0 == regex_matches(old(self)@.daemon_ready.unwrap(), line@),
            final(self)@ == (TestView {
                state: if r.0 {
                    TestStateView::Running
                } else {
                    old(self)@.state
                },
                has_process: r.0 || old(self)@.has_process,
                came_up: r.0 || old(self)@.came_up,
                ..old(self)@
            }),
            actions_view(r.1@) == seq![
                test_says(old(self)@, "stdout"@, BroadcastContentsView::Log(line@)),
                test_says(
                    old(self)@,
                    "standard"@,
                    BroadcastContentsView::Log(
                        "Comparing "@ + old(self)@.daemon_ready.unwrap() + " to "@ + line@,
                    ),
                ),
            ] + if r.0 {
                seq![
                    test_says(old(self)@, "standard"@, BroadcastContentsView::Log("It's a match!"@)),
                    test_advances(old(self)@),
                ]
            } else {
                seq![]
            },
    {
        let pattern = match &self.test_daemon_ready {
            Some(p) => p.clone(),
            None => own(""),
        };
        let mut r: Vec<Action> = Vec::new();
        r.push(broadcast("stdout", self.id.as_str(), "test", BroadcastMessageContents::Log(line.clone())));
        let text = concat(&concat(&concat(&own("Comparing "), &pattern), &own(" to ")), &line);
        r.push(log(self.id.as_str(), "test", text));
        let matched = regex_is_match(pattern.as_str(), line.as_str());
        if matched {
            r.push(log(self.id.as_str(), "test", own("It's a match!")));
            r.push(control("result", self.id.as_str(), "test", ControlMessageContents::AdvanceScenario));
            self.state = TestState::Running;
            self.has_process = true;
            self.came_up = true;
            assert(actions_view(r@) =~= seq![r@[0]@, r@[1]@] + seq![r@[2]@, r@[3]@]);
        } else {
            assert(actions_view(r@) =~= seq![r@[0]@, r@[1]@] + seq![]);
        }
        (matched, r)
    }

    /// A starting daemon stopped before its ready text appeared, for the
    /// reason `msg` (its output ended, or could not be read): it failed, and
    /// the scenario is asked to move on.
    pub fn daemon_ended(&mut self, msg: String) -> (r: Vec<Action>)
        ensures
            final(self)@ == (TestView { state: TestStateView::Fail(msg@), ..old(self)@ }),
            actions_view(r@) == seq![
                test_says(old(self)@, "standard"@, BroadcastContentsView::Log(msg@)),
                test_says(old(self)@, "standard"@, BroadcastContentsView::Fail(old(self)@.id, msg@)),
                test_advances(old(self)@),
            ],
    {
        let mut r: Vec<Action> = Vec::new();
        r.push(log(self.id.as_str(), "test", msg.clone()));
        self.state = TestState::Fail(msg.clone());
        r.push(broadcast("standard", self.id.as_str(), "test", BroadcastMessageContents::Fail(self.id.clone(), msg)));
        r.push(control("result", self.id.as_str(), "test", ControlMessageContents::AdvanceScenario));
        assert(actions_view(r@) =~= seq![r@[0]@, r@[1]@, r@[2]@]);
        r
    }

    /// The time a daemon had to become ready ran out.  Where it is still
    /// starting, it failed: it is killed and its failure command run.
    pub fn daemon_ready_timeout(&mut self, index: usize) -> (r: Vec<Action>)
        ensures
            !(old(self)@.state is Starting) ==> final(self)@ == old(self)@ && r@.len() == 0,
            old(self)@.state is Starting ==> final(self)@ == (TestView {
                state: TestStateView::Fail("Test daemon never came ready"@),
                ..old(self)@
            }) && actions_view(r@) == seq![
                test_says(
                    old(self)@,
                    "standard"@,
                    BroadcastContentsView::Log("Test daemon never came ready"@),
                ),
                ActionView::KillTest(index),
            ] + failure_cleanup(old(self)@) + seq![
                test_says(
                    old(self)@,
                    "standard"@,
                    BroadcastContentsView::Fail(old(self)@.id, "Test daemon never came ready"@),
                ),
                test_advances(old(self)@),
            ],
    {
        let mut r: Vec<Action> = Vec::new();
        match self.state {
            TestState::Starting => {},
            _ => return r,
        }
        let msg = own("Test daemon never came ready");
        self.state = TestState::Fail(msg.clone());
        r.push(log(self.id.as_str(), "test", msg.clone()));
        r.push(Action::KillTest(index));
        let ghost first = actions_view(r@);
        match &self.exec_stop_failure {
            None => {
                assert(actions_view(r@) =~= first + failure_cleanup(old(self)@));
            },
            Some(c) => {
                r.push(log(self.id.as_str(), "test", concat(&own("Running post-test command: "), c)));
                r.push(
                    Action::RunCommand(
                        c.clone(),
                        self.test_working_directory.clone(),
                        self.exec_stop_failure_timeout,
                    ),
                );
                assert(actions_view(r@) =~= first + failure_cleanup(old(self)@));
            },
        }
        let ghost second = actions_view(r@);
        r.push(broadcast("standard", self.id.as_str(), "test", BroadcastMessageContents::Fail(self.id.clone(), msg)));
        r.push(control("result", self.id.as_str(), "test", ControlMessageContents::AdvanceScenario));
        assert(actions_view(r@) =~= second + seq![r@[r@.len() - 2]@, r@[r@.len() - 1]@]);
        r
    }

    /// A daemon is up (its ready text appeared, or it has none): it runs in
    /// the background and the scenario is asked to move on.
    pub fn daemon_running(&mut self) -> (r: Vec<Action>)
        ensures
            final(self)@ == (TestView {
                state: if old(self)@.daemon_ready is None {
                    TestStateView::Running
                } else {
                    old(self)@.state
                },
                has_process: true,
                came_up: true,
                ..old(self)@
            }),
            actions_view(r@) == seq![test_advances(old(self)@)],
    {
        if self.test_daemon_ready.is_none() {
            self.state = TestState::Running;
        }
        self.has_process = true;
        self.came_up = true;
        let mut r: Vec<Action> = Vec::new();
        r.push(control("result", self.id.as_str(), "test", ControlMessageContents::AdvanceScenario));
        assert(actions_view(r@) =~= seq![r@[0]@]);
        r
    }

    /// A daemon exited (described by `how`).  Exiting while it should still
    /// run is a failure; exiting once it had come up and was no longer
    /// running (it was stopped, or had failed) is a pass; the exit of a
    /// daemon that never came up says nothing more.
    pub fn daemon_exited(&mut self, how: String) -> (r: Vec<Action>)
        ensures
            old(self)@.state is Running ==> final(self)@ == (TestView {
                state: TestStateView::Fail("Daemon exited: "@ + how@),
                ..old(self)@
            }),
            !(old(self)@.state is Running) ==> final(self)@ == old(self)@,
            !(old(self)@.state is Running) && !old(self)@.came_up ==> r@.len() == 0,
            !(old(self)@.state is Running) && old(self)@.came_up ==> actions_view(r@) == seq![
                test_says(old(self)@, "standard"@, BroadcastContentsView::Pass(old(self)@.id, "Okay"@)),
            ],
            old(self)@.state is Running ==> actions_view(r@) == seq![
                test_says(
                    old(self)@,
                    "standard"@,
                    BroadcastContentsView::Fail(old(self)@.id, "Daemon exited: "@ + how@),
                ),
            ],
    {
        let mut r: Vec<Action> = Vec::new();
        match self.state {
            TestState::Running => {
                let msg = concat(&own("Daemon exited: "), &how);
                self.state = TestState::Fail(msg.clone());
                r.push(broadcast("standard", self.id.as_str(), "test", BroadcastMessageContents::Fail(self.id.clone(), msg)));
            },
            _ => {
                if self.came_up {
                    r.push(
                        broadcast(
                            "standard",
                            self.id.as_str(),
                            "test",
                            BroadcastMessageContents::Pass(self.id.clone(), own("Okay")),
                        ),
                    );
                }
            },
        }
        assert(r@.len() == 1 ==> actions_view(r@) =~= seq![r@[0]@]);
        r
    }

    /// Stops a test at the end of its step (daemons keep running): its
    /// process is killed if it still runs, and the cleanup command for its
    /// state is run in `working_directory`.
    pub fn stop(&self, index: usize, working_directory: &Option<String>) -> (r: Vec<Action>)
        ensures
            actions_view(r@) == stop_actions(self@, index, opt_view(*working_directory)),
    {
        let mut r: Vec<Action> = Vec::new();
        if self.test_type == TestType::Daemon {
            assert(actions_view(r@) =~= seq![]);
            return r;
        }
        if self.has_process {
            r.push(Action::KillTest(index));
        }
        let ghost first = actions_view(r@);
        let (cmd, timeout, label) = match self.state {
            TestState::Pending | TestState::Starting => (None, 0, own("")),
            TestState::Running | TestState::Fail(_) => (
                self.exec_stop_failure.clone(),
                self.exec_stop_failure_timeout,
                own("Running ExecStopFailure: "),
            ),
            TestState::Pass => (
                self.exec_stop_success.clone(),
                self.exec_stop_success_timeout,
                own("Running ExecStopSuccess: "),
            ),
        };
        match cmd {
            None => {
                assert(actions_view(r@) =~= first + seq![]);
            },
            Some(c) => {
                let ghost n = r@.len();
                r.push(log(self.id.as_str(), "test", concat(&label, &c)));
                r.push(Action::RunCommand(c, working_directory.clone(), timeout));
                assert(actions_view(r@) =~= first + seq![r@[n as int]@, r@[n as int + 1]@]);
            },
        }
        r
    }

    /// Ends a daemon at the end of its scenario (simple tests need nothing):
    /// a daemon still running passed; its process is killed and the cleanup
    /// command for its outcome is run.
    pub fn terminate(&mut self, index: usize) -> (r: Vec<Action>)
        ensures
            old(self)@.test_type == TestType::Simple ==> final(self)@ == old(self)@ && r@.len() == 0,
            actions_view(r@) == terminate_actions(old(self)@, index),
            old(self)@.test_type == TestType::Daemon ==> final(self)@ == (TestView {
                state: if old(self)@.state is Running {
                    TestStateView::Pass
                } else {
                    old(self)@.state
                },
                has_process: false,
                ..old(self)@
            }) && actions_view(r@) == terminate_actions(old(self)@, index),
    {
        let mut r: Vec<Action> = Vec::new();
        if self.test_type == TestType::Simple {
            assert(actions_view(r@) =~= seq![]);
            return r;
        }
        let running = match self.state {
            TestState::Running => true,
            _ => false,
        };
        let (cmd, timeout) = if running {
            self.state = TestState::Pass;
            (self.exec_stop_success.clone(), self.exec_stop_success_timeout)
        } else {
            (self.exec_stop_failure.clone(), self.exec_stop_failure_timeout)
        };
        if self.has_process {
            r.push(Action::KillTest(index));
        }
        self.has_process = false;
        let ghost first = actions_view(r@);
        match cmd {
            None => {
                assert(actions_view(r@) =~= first + seq![]);
            },
            Some(c) => {
                let ghost n = r@.len();
                r.push(log(self.id.as_str(), "test", concat(&own("Running post-test command: "), &c)));
                r.push(Action::RunCommand(c, self.test_working_directory.clone(), timeout));
                assert(actions_view(r@) =~= first + seq![r@[n as int]@, r@[n as int + 1]@]);
            },
        }
        r
    }

    /// The test's own working directory, if it names one.
    pub fn working_directory(&self) -> (r: &Option<String>)
        ensures
            opt_view(*r) == self@.working_directory,
    {
        &self.working_directory
    }

    /// Whether the test is simple or a daemon.
    pub fn test_type(&self) -> (r: TestType)
        ensures
            r == self@.test_type,
    {
        self.test_type
    }

    /// The text that tells a starting daemon is ready, if any.
    pub fn daemon_ready(&self) -> (r: &Option<String>)
        ensures
            opt_view(*r) == self@.daemon_ready,
    {
        &self.test_daemon_ready
    }

    /// Broadcasts a description of the test: its name and its description.
    pub fn describe(&self) -> (r: Vec<Action>)
        ensures
            actions_view(r@) == seq![
                test_says(
                    self@,
                    "standard"@,
                    BroadcastContentsView::Describe("test"@, "name"@, self@.id, self@.name),
                ),
                test_says(
                    self@,
                    "standard"@,
                    BroadcastContentsView::Describe("test"@, "description"@, self@.id, self@.description),
                ),
            ],
    {
        let mut r: Vec<Action> = Vec::new();
        r.push(
            broadcast(
                "standard",
                self.id.as_str(),
                "test",
                BroadcastMessageContents::Describe(own("test"), own("name"), self.id.clone(), self.name.clone()),
            ),
        );
        r.push(
            broadcast(
                "standard",
                self.id.as_str(),
                "test",
                BroadcastMessageContents::Describe(
                    own("test"),
                    own("description"),
                    self.id.clone(),
                    self.description.clone(),
                ),
            ),
        );
        assert(actions_view(r@) =~= seq![r@[0]@, r@[1]@]);
        r
    }
}


/// What happened to the process of a running test.
pub enum TestEvent {
    /// It printed a line on a stream ("stdout" or "stderr").
    Output(String, String),
    /// A simple test ended: it passed, or failed for the given reason.
    Finished(Result<(), String>),
    /// A daemon could not be started, for the given reason.
    SpawnFailed(String),
    /// A starting daemon printed a line.
    DaemonLine(String),
    /// A starting daemon stopped before it was ready, for the given reason.
    DaemonEnded(String),
    /// A daemon did not become ready in time.
    ReadyTimeout,
    /// A daemon was started, and runs in the background.
    DaemonUp,
    /// A daemon exited, as described.
    DaemonExited(String),
}

pub enum TestEventView {
    Output(Seq<char>, Seq<char>),
    Finished(Result<(), Seq<char>>),
    SpawnFailed(Seq<char>),
    DaemonLine(Seq<char>),
    DaemonEnded(Seq<char>),
    ReadyTimeout,
    DaemonUp,
    DaemonExited(Seq<char>),
}

impl View for TestEvent {
    type V = TestEventView;

    open spec fn view(&self) -> TestEventView {
        match self {
            TestEvent::Output(a, b) => TestEventView::Output(a@, b@),
            TestEvent::Finished(r) => TestEventView::Finished(
                match r {
                    Ok(_) => Ok(()),
                    Err(m) => Err(m@),
                },
            ),
            TestEvent::SpawnFailed(m) => TestEventView::SpawnFailed(m@),
            TestEvent::DaemonLine(l) => TestEventView::DaemonLine(l@),
            TestEvent::DaemonEnded(m) => TestEventView::DaemonEnded(m@),
            TestEvent::ReadyTimeout => TestEventView::ReadyTimeout,
            TestEvent::DaemonUp => TestEventView::DaemonUp,
            TestEvent::DaemonExited(h) => TestEventView::DaemonExited(h@),
        }
    }
}

/// The post-test command a timed-out daemon runs, if it has one.
pub open spec fn failure_cleanup(t: TestView) -> Seq<ActionView> {
    match t.exec_stop_failure {
        None => seq![],
        Some(c) => seq![
            test_says(t, "standard"@, BroadcastContentsView::Log("Running post-test command: "@ + c)),
            ActionView::RunCommand(c, t.test_working_directory, t.exec_stop_failure_timeout),
        ],
    }
}

/// The test `t` (test `index` of the loaded tests) after the event `e`,
/// and what it asks for.  A line of a starting daemon is only compared
/// where the daemon has a ready text.
pub open spec fn test_step(t: TestView, index: usize, e: TestEventView) -> (TestView, Seq<ActionView>) {
    match e {
        TestEventView::Output(stream, line) => (
            TestView { last_line: line, ..t },
            seq![test_says(t, stream, BroadcastContentsView::Log(line))],
        ),
        TestEventView::Finished(result) => (
            TestView {
                state: match result {
                    Ok(_) => TestStateView::Pass,
                    Err(m) => TestStateView::Fail(m),
                },
                has_process: false,
                ..t
            },
            seq![
                test_says(
                    t,
                    "result"@,
                    match result {
                        Ok(_) => BroadcastContentsView::Pass(t.id, t.last_line),
                        Err(m) => BroadcastContentsView::Fail(t.id, m),
                    },
                ),
                test_advances(t),
            ],
        ),
        TestEventView::SpawnFailed(m) => (
            TestView { state: TestStateView::Fail(m), ..t },
            seq![test_says(t, "standard"@, BroadcastContentsView::Fail(t.id, m)), test_advances(t)],
        ),
        TestEventView::DaemonLine(line) => if !(t.state is Starting) {
            (TestView { last_line: line, ..t }, seq![test_says(t, "stdout"@, BroadcastContentsView::Log(line))])
        } else {
            match t.daemon_ready {
            None => (t, seq![test_says(t, "stdout"@, BroadcastContentsView::Log(line))]),
            Some(p) => {
                let matched = regex_matches(p, line);
                (
                    TestView {
                        state: if matched {
                            TestStateView::Running
                        } else {
                            t.state
                        },
                        has_process: matched || t.has_process,
                        came_up: matched || t.came_up,
                        ..t
                    },
                    seq![
                        test_says(t, "stdout"@, BroadcastContentsView::Log(line)),
                        test_says(
                            t,
                            "standard"@,
                            BroadcastContentsView::Log("Comparing "@ + p + " to "@ + line),
                        ),
                    ] + if matched {
                        seq![
                            test_says(t, "standard"@, BroadcastContentsView::Log("It's a match!"@)),
                            test_advances(t),
                        ]
                    } else {
                        seq![]
                    },
                )
            },
            }
        },
        TestEventView::DaemonEnded(m) => if t.state is Starting {
            (
                TestView { state: TestStateView::Fail(m), ..t },
                seq![
                    test_says(t, "standard"@, BroadcastContentsView::Log(m)),
                    test_says(t, "standard"@, BroadcastContentsView::Fail(t.id, m)),
                    test_advances(t),
                ],
            )
        } else {
            (t, seq![])
        },
        TestEventView::ReadyTimeout => if t.state is Starting {
            (
                TestView { state: TestStateView::Fail("Test daemon never came ready"@), ..t },
                seq![
                    test_says(t, "standard"@, BroadcastContentsView::Log("Test daemon never came ready"@)),
                    ActionView::KillTest(index),
                ] + failure_cleanup(t) + seq![
                    test_says(t, "standard"@, BroadcastContentsView::Fail(t.id, "Test daemon never came ready"@)),
                    test_advances(t),
                ],
            )
        } else {
            (t, seq![])
        },
        TestEventView::DaemonUp => (
            TestView {
                state: if t.daemon_ready is None {
                    TestStateView::Running
                } else {
                    t.state
                },
                has_process: true,
                came_up: true,
                ..t
            },
            seq![test_advances(t)],
        ),
        TestEventView::DaemonExited(how) => if t.state is Running {
            (
                TestView { state: TestStateView::Fail("Daemon exited: "@ + how), ..t },
                seq![test_says(t, "standard"@, BroadcastContentsView::Fail(t.id, "Daemon exited: "@ + how))],
            )
        } else if t.came_up {
            (t, seq![test_says(t, "standard"@, BroadcastContentsView::Pass(t.id, "Okay"@))])
        } else {
            (t, seq![])
        },
    }
}

impl Test {
    /// Moves the test (test `index` of the loaded tests) on after the event
    /// `e` (see `test_step`).
    pub fn handle_event(&mut self, index: usize, e: TestEvent) -> (r: Vec<Action>)
        requires
            old(self).wf(),
        ensures
            final(self).wf(),
            (final(self)@, actions_view(r@)) == test_step(old(self)@, index, e@),
    {
        let mut r: Vec<Action> = Vec::new();
        match e {
            TestEvent::Output(stream, line) => {
                r.push(self.output_line(stream.as_str(), line));
            },
            TestEvent::Finished(result) => {
                r = self.finish_simple(result);
            },
            TestEvent::SpawnFailed(m) => {
                r = self.daemon_spawn_failed(m);
            },
            TestEvent::DaemonLine(line) => {
                if !self.state.is_starting() {
                    r.push(self.output_line("stdout", line));
                } else if self.test_daemon_ready.is_some() {
                    let (_, a) = self.daemon_line(line);
                    r = a;
                } else {
                    r.push(broadcast("stdout", self.id.as_str(), "test", BroadcastMessageContents::Log(line)));
                }
            },
            TestEvent::DaemonEnded(m) => {
                if self.state.is_starting() {
                    r = self.daemon_ended(m);
                }
            },
            TestEvent::ReadyTimeout => {
                r = self.daemon_ready_timeout(index);
            },
            TestEvent::DaemonUp => {
                r = self.daemon_running();
            },
            TestEvent::DaemonExited(how) => {
                r = self.daemon_exited(how);
            },
        }
        assert(actions_view(r@) =~= test_step(old(self)@, index, e@).1);
        r
    }
}

} // verus!
