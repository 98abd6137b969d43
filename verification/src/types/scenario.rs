use vstd::prelude::*;

use crate::actions::{
    actions_view, append_actions, broadcast, control, log, Action, ActionView,
};
use crate::config::{opt_view, Config, ConfigView};
use crate::controller::{
    BroadcastContentsView, BroadcastMessageContents, ControlContentsView, ControlMessageContents,
};
use crate::graph::{dag_contents, EdgeList, TestGraph};
use crate::text::{
    concat, count_commas, empty_item_list, empty_items, parse_u64, parse_u64_spec, strings_view, tokenize, tokens,
    u64_to_decimal, decimal, Separators,
};
use crate::types::deps::{dependencies_succeeded, deps_ok, states_of};
use crate::types::fields::{
    compatible_spec, get_or, is_compatible, or_default, own, first_of, Directives,
};
use crate::types::ordering::{
    graph_of, ids_unique, in_scenario, order_result, order_tests, order_wf, ordering_error_ok,
    total_deps, ScenarioError, ScenarioErrorView, TestOrder,
};
use crate::types::test::{skipped_state, Test, TestStateView, TestView};
use crate::unitfile::{get_spec, has_section_spec, UnitFile};

verus! {

#[derive(Clone, Copy, Debug, PartialEq, Eq, Structural)]
pub enum ScenarioState {
    /// The scenario has been loaded, and is ready to run.
    Idle,
    /// The scenario has started, but is waiting for ExecStart to finish
    PreStart,
    /// The scenario is running, and is on step (usize)
    Running(usize),
    /// The scenario has succeeded, and is running the ExecStopSuccess step
    PostSuccess,
    /// The scenario has failed, and is running the ExecStopFailure step
    PostFailure,
    /// The test has succeeded or failed
    TestFinished,
}

#[verifier::ext_equal]
pub struct ScenarioView {
    pub id: Seq<char>,
    pub name: Seq<char>,
    pub description: Seq<char>,
    pub timeout: u64,
    pub tests: Seq<usize>,
    pub exec_start: Option<Seq<char>>,
    pub exec_start_timeout: u64,
    pub exec_stop_success: Option<Seq<char>>,
    pub exec_stop_success_timeout: u64,
    pub exec_stop_failure: Option<Seq<char>>,
    pub exec_stop_failure_timeout: u64,
    pub state: ScenarioState,
    pub failures: u32,
    pub edges: EdgeList,
    pub node_count: nat,
    pub working_directory: Option<Seq<char>>,
    pub has_support_cmd: bool,
}

/// A scenario: a group of tests run in order towards a goal.
pub struct Scenario {
    id: String,
    name: String,
    description: String,
    timeout: u64,
    tests: Vec<usize>,
    exec_start: Option<String>,
    exec_start_timeout: u64,
    exec_stop_success: Option<String>,
    exec_stop_success_timeout: u64,
    exec_stop_failure: Option<String>,
    exec_stop_failure_timeout: u64,
    state: ScenarioState,
    failures: u32,
    graph: TestGraph,
    working_directory: Option<String>,
    has_support_cmd: bool,
}

impl View for Scenario {
    type V = ScenarioView;

    closed spec fn view(&self) -> ScenarioView {
        ScenarioView {
            id: self.id@,
            name: self.name@,
            description: self.description@,
            timeout: self.timeout,
            tests: self.tests@,
            exec_start: opt_view(self.exec_start),
            exec_start_timeout: self.exec_start_timeout,
            exec_stop_success: opt_view(self.exec_stop_success),
            exec_stop_success_timeout: self.exec_stop_success_timeout,
            exec_stop_failure: opt_view(self.exec_stop_failure),
            exec_stop_failure_timeout: self.exec_stop_failure_timeout,
            state: self.state,
            failures: self.failures,
            edges: dag_contents(self.graph).1,
            node_count: dag_contents(self.graph).0.len(),
            working_directory: opt_view(self.working_directory),
            has_support_cmd: self.has_support_cmd,
        }
    }
}

// ---------------------------------------------------------------------------
// Loading
/// The list of tests of a scenario.
pub open spec fn scenario_tests_field(m: Directives) -> Seq<Seq<char>> {
    test_names_of(get_spec(m, "Scenario"@, "Tests"@).unwrap())
}

/// The test names of a `Tests` value: its names, separated by commas or
/// whitespace; where it holds none, one empty name for each item that its
/// commas end, and one more.
pub open spec fn test_names_of(l: Seq<char>) -> Seq<Seq<char>> {
    if tokens(l, Separators::CommaOrWhitespace).len() > 0 {
        tokens(l, Separators::CommaOrWhitespace)
    } else {
        empty_items(l)
    }
}

/// The failure command: `ExecStopFailure`, else `ExecStopFail`, else
/// `ExecStop`.
pub open spec fn scenario_stop_failure(m: Directives) -> Option<Seq<char>> {
    first_of(
        get_spec(m, "Scenario"@, "ExecStopFailure"@),
        first_of(get_spec(m, "Scenario"@, "ExecStopFail"@), get_spec(m, "Scenario"@, "ExecStop"@)),
    )
}

/// The inputs on which loading a scenario does not break down: a `Timeout`
/// that is a number (where the scenario is for this jig), and a graph of
/// tests within the index limit of the graph library.
pub open spec fn scenario_loadable(m: Directives, jigs: Seq<Seq<char>>, tests: Seq<Test>) -> bool {
    &&& tests.len() < u32::MAX
    &&& has_section_spec(m, "Scenario"@) && compatible_spec(m, "Scenario"@, "Jigs"@, jigs) ==> (
    get_spec(m, "Scenario"@, "Timeout"@) matches Some(t) ==> parse_u64_spec(t) is Some)
    &&& get_spec(m, "Scenario"@, "Tests"@) matches Some(l) ==> test_names_of(l).len() + total_deps(tests) + 2
        < u32::MAX
}

/// The settings of the scenario `id` that a unit file gives, over `base`
/// (which holds the tests, in order, and their dependencies): not yet run.
pub open spec fn loaded_scenario(id: Seq<char>, m: Directives, config: ConfigView, base: ScenarioView) -> ScenarioView {
    ScenarioView {
        id: id,
        name: or_default(get_spec(m, "Scenario"@, "Name"@), id),
        description: or_default(get_spec(m, "Scenario"@, "Description"@), seq![]),
        timeout: match get_spec(m, "Scenario"@, "Timeout"@) {
            None => config.scenario_timeout,
            Some(t) => parse_u64_spec(t).unwrap(),
        },
        exec_start: get_spec(m, "Scenario"@, "ExecStart"@),
        exec_start_timeout: config.scenario_start_timeout,
        exec_stop_success: first_of(
            get_spec(m, "Scenario"@, "ExecStopSuccess"@),
            get_spec(m, "Scenario"@, "ExecStop"@),
        ),
        exec_stop_success_timeout: config.scenario_success_timeout,
        exec_stop_failure: scenario_stop_failure(m),
        exec_stop_failure_timeout: config.scenario_failure_timeout,
        state: ScenarioState::Idle,
        failures: 0,
        working_directory: None,
        has_support_cmd: false,
        ..base
    }
}

/// A well-formed scenario over `n` loaded tests: at least one test, each
/// once, each a loaded test; an acyclic graph with a node per loaded test;
/// a state that names one of its tests.
pub open spec fn scenario_wf(s: ScenarioView, n: nat) -> bool {
    &&& s.tests.len() >= 1
    &&& s.failures < u32::MAX - 500
    &&& order_wf(s.tests, s.node_count)
    &&& s.node_count <= n
    &&& crate::graph::edges_within(s.edges, s.node_count)
    &&& crate::graph::acyclic(s.edges)
    &&& (s.state matches ScenarioState::Running(i) ==> i < s.tests.len())
}

impl Scenario {
    pub open spec fn wf(&self, n: nat) -> bool {
        scenario_wf(self@, n)
    }

    /// Whether loading this scenario unit can go ahead (see
    /// `scenario_loadable`): where it cannot, the scenario is unusable.
    pub fn loadable(unitfile: &UnitFile, jigs: &Vec<String>, tests: &Vec<Test>) -> (r: bool)
        ensures
            r == scenario_loadable(unitfile@, strings_view(jigs@), tests@),
    {
        if tests.len() >= 0xffff_ffff {
            return false;
        }
        if unitfile.has_section("Scenario") && is_compatible(unitfile, "Scenario", "Jigs", jigs) {
            match unitfile.get("Scenario", "Timeout") {
                Some(t) => {
                    if parse_u64(t.as_str()).is_none() {
                        return false;
                    }
                },
                None => {},
            }
        }
        match unitfile.get("Scenario", "Tests") {
            None => true,
            Some(l) => {
                let found = tokenize(l.as_str(), Separators::CommaOrWhitespace);
                assert(found.len() == tokens(l@, Separators::CommaOrWhitespace).len());
                let names: usize = if found.len() > 0 {
                    found.len()
                } else {
                    let commas = count_commas(l.as_str());
                    if commas >= 0xffff_fffe {
                        return false;
                    }
                    commas + 1
                };
                assert(names == test_names_of(l@).len());
                let total = count_deps(tests);
                if names >= 0xffff_ffff {
                    return false;
                }
                names as u64 + total + 2 < 0xffff_ffff
            },
        }
    }

    /// Loads the scenario `id` over the loaded `tests` (see `order_tests`
    /// for the order its tests run in).  `None` where it is not compatible
    /// with the loaded jigs.
    pub fn new(
        id: &str,
        unitfile: &UnitFile,
        jigs: &Vec<String>,
        tests: &Vec<Test>,
        config: &Config,
    ) -> (r: Option<Result<Scenario, ScenarioError>>)
        requires
            scenario_loadable(unitfile@, strings_view(jigs@), tests@),
            ids_unique(tests@),
        ensures
            !has_section_spec(unitfile@, "Scenario"@) ==> r matches Some(
                Err(ScenarioError::MissingScenarioSection),
            ),
            has_section_spec(unitfile@, "Scenario"@) ==> (r is None <==> !compatible_spec(
                unitfile@,
                "Scenario"@,
                "Jigs"@,
                strings_view(jigs@),
            )),
            has_section_spec(unitfile@, "Scenario"@) && compatible_spec(
                unitfile@,
                "Scenario"@,
                "Jigs"@,
                strings_view(jigs@),
            ) && get_spec(unitfile@, "Scenario"@, "Tests"@) is None ==> r matches Some(
                Err(ScenarioError::TestListNotFound),
            ),
            r matches Some(Err(e)) ==> e is MissingScenarioSection || e is TestListNotFound
                || ordering_error_ok(e, scenario_tests_field(unitfile@), tests@),
            has_section_spec(unitfile@, "Scenario"@) && compatible_spec(
                unitfile@,
                "Scenario"@,
                "Jigs"@,
                strings_view(jigs@),
            ) && get_spec(unitfile@, "Scenario"@, "Tests"@) is Some ==> match r {
                Some(Ok(s)) => order_result(tests@, scenario_tests_field(unitfile@)) == Ok::<
                    (EdgeList, Seq<usize>),
                    ScenarioErrorView,
                >((s@.edges, s@.tests)),
                Some(Err(e)) => order_result(tests@, scenario_tests_field(unitfile@)) == Err::<
                    (EdgeList, Seq<usize>),
                    ScenarioErrorView,
                >(e@),
                None => false,
            },
            r matches Some(Ok(s)) ==> s.wf(tests.len() as nat) && s@ == loaded_scenario(
                id@,
                unitfile@,
                config@,
                s@,
            ) && (exists|i: int|
                0 <= i < s@.tests.len() && tests@[#[trigger] s@.tests[i] as int]@.id
                    == scenario_tests_field(unitfile@)[0]) && (forall|j: int|
                0 <= j < tests.len() ==> (s@.tests.contains(j as usize) <==> in_scenario(
                    tests@,
                    scenario_tests_field(unitfile@),
                    j,
                ))),
    {
        if !unitfile.has_section("Scenario") {
            return Some(Err(ScenarioError::MissingScenarioSection));
        }
        if !is_compatible(unitfile, "Scenario", "Jigs", jigs) {
            return None;
        }
        let description = get_or(unitfile, "Scenario", "Description", "");
        let name = get_or(unitfile, "Scenario", "Name", id);
        let timeout = match unitfile.get("Scenario", "Timeout") {
            None => config.scenario_timeout(),
            Some(s) => parse_u64(s.as_str()).unwrap(),
        };
        let exec_start = unitfile.get("Scenario", "ExecStart");
        let exec_stop_success = match unitfile.get("Scenario", "ExecStopSuccess") {
            Some(s) => Some(s),
            None => unitfile.get("Scenario", "ExecStop"),
        };
        let exec_stop_failure = match unitfile.get("Scenario", "ExecStopFailure") {
            Some(s) => Some(s),
            None => match unitfile.get("Scenario", "ExecStopFail") {
                Some(s) => Some(s),
                None => unitfile.get("Scenario", "ExecStop"),
            },
        };
        let names = match unitfile.get("Scenario", "Tests") {
            None => return Some(Err(ScenarioError::TestListNotFound)),
            Some(s) => {
                let found = tokenize(s.as_str(), Separators::CommaOrWhitespace);
                if found.len() == 0 {
                    empty_item_list(s.as_str())
                } else {
                    found
                }
            },
        };
        proof {
            assert(strings_view(names@) == scenario_tests_field(unitfile@));
        }
        let TestOrder { graph, order } = match order_tests(&names, tests) {
            Err(e) => return Some(Err(e)),
            Ok(o) => o,
        };
        proof {
            reveal_strlit("");
        }
        let s = Scenario {
            id: own(id),
            name: name,
            description: description,
            timeout: timeout,
            tests: order,
            exec_start: exec_start,
            exec_start_timeout: config.scenario_start_timeout(),
            exec_stop_success: exec_stop_success,
            exec_stop_success_timeout: config.scenario_success_timeout(),
            exec_stop_failure: exec_stop_failure,
            exec_stop_failure_timeout: config.scenario_failure_timeout(),
            state: ScenarioState::Idle,
            failures: 0,
            graph: graph,
            working_directory: None,
            has_support_cmd: false,
        };
        proof {
            assert(s@.tests.len() >= 1);
            assert(order_wf(s@.tests, tests.len() as nat));
            assert(s@.node_count == tests.len());
            assert(crate::graph::edges_within(s@.edges, tests.len() as nat));
            assert(scenario_wf(s@, tests.len() as nat));
            assert(strings_view(names@)[0] == names@[0]@);
            assert(strings_view(names@) == scenario_tests_field(unitfile@));
        }
        Some(Ok(s))
    }
}

/// `a + b`, capped at `u32::MAX`.
fn cap_add(a: u64, b: u64) -> (r: u64)
    requires
        a <= u32::MAX,
    ensures
        r == (if a + b < u32::MAX {
            a + b
        } else {
            u32::MAX as int
        }),
{
    if b >= 0xffff_ffff - a {
        0xffff_ffff
    } else {
        a + b
    }
}

/// The number of dependencies the tests list, capped at `u32::MAX`.
fn count_deps(tests: &Vec<Test>) -> (r: u64)
    ensures
        r == (if total_deps(tests@) < u32::MAX {
            total_deps(tests@)
        } else {
            u32::MAX as nat
        }),
{
    let mut total: u64 = 0;
    let mut i: usize = 0;
    while i < tests.len()
        invariant
            i <= tests.len(),
            total == (if total_deps(tests@.take(i as int)) < u32::MAX {
                total_deps(tests@.take(i as int))
            } else {
                u32::MAX as nat
            }),
        decreases tests.len() - i,
    {
        assert(tests@.take(i + 1).drop_last() =~= tests@.take(i as int));
        let rl = tests[i].requirements().len();
        let sl = tests[i].suggestions().len();
        assert(rl + sl == crate::types::ordering::deps_of(tests@[i as int]));
        assert(tests@.take(i + 1).last() == tests@[i as int]);
        total = cap_add(cap_add(total, rl as u64), sl as u64);
        i = i + 1;
    }
    assert(tests@.take(tests.len() as int) =~= tests@);
    total
}

// ---------------------------------------------------------------------------
// Running
/// How far along a run the state is: Idle, PreStart, each test in turn,
/// the closing command, finished.
pub open spec fn rank(s: ScenarioState, count: nat) -> nat {
    match s {
        ScenarioState::Idle => 0,
        ScenarioState::PreStart => 1,
        ScenarioState::Running(i) => (2 + i) as nat,
        ScenarioState::PostSuccess => count + 2,
        ScenarioState::PostFailure => count + 2,
        ScenarioState::TestFinished => count + 3,
    }
}

/// The scenario has used up its time (`timeout` seconds).
pub open spec fn timed_out(timeout: u64, elapsed_ms: u64) -> bool {
    elapsed_ms >= timeout * 1000
}

/// The time a test may run, in milliseconds: its own limit, cut to what is
/// left of the scenario's time.
pub open spec fn test_limit(test_secs: u64, elapsed_ms: u64, timeout: u64) -> int {
    let own = test_secs * 1000;
    let left = timeout * 1000 - elapsed_ms;
    if own + elapsed_ms > timeout * 1000 {
        left
    } else {
        own
    }
}

/// What the scenario says: a broadcast from the scenario unit.
pub open spec fn scenario_says(s: ScenarioView, class: Seq<char>, m: BroadcastContentsView) -> ActionView {
    ActionView::Broadcast(class, s.id, "scenario"@, m)
}

/// The result code of a finished run: 200 where every test passed, else
/// 500 plus the number of failures.
pub open spec fn finish_code(failures: u32) -> u32 {
    if failures > 0 {
        (failures + 500) as u32
    } else {
        200
    }
}

/// The views of the tests, in order.
pub open spec fn views(tests: Seq<Test>) -> Seq<TestView> {
    tests.map_values(|t: Test| t@)
}

/// The states of the tests, in order.
pub open spec fn view_states(tv: Seq<TestView>) -> Seq<TestStateView> {
    tv.map_values(|t: TestView| t.state)
}

/// Test `t` made pending.
pub open spec fn made_pending(t: TestView) -> TestView {
    TestView { state: TestStateView::Pending, ..t }
}

/// Test `t` skipped.
pub open spec fn made_skipped(t: TestView) -> TestView {
    TestView { state: skipped_state(), ..t }
}

/// The tests, with those of `order` made pending.
pub open spec fn all_pending(tv: Seq<TestView>, order: Seq<usize>) -> Seq<TestView> {
    Seq::new(
        tv.len(),
        |j: int|
            if order.contains(j as usize) {
                made_pending(tv[j])
            } else {
                tv[j]
            },
    )
}

/// The state a run moves to from `cur`, before it is checked: the opening
/// command, each test in turn, the closing command (for success where no
/// test failed), then the end.
pub open spec fn succ_state(cur: ScenarioState, n: nat, failures: u32) -> ScenarioState {
    match cur {
        ScenarioState::Idle => ScenarioState::PreStart,
        ScenarioState::PreStart => ScenarioState::Running(0),
        ScenarioState::Running(i) => if i + 1 < n {
            ScenarioState::Running((i + 1) as usize)
        } else if failures > 0 {
            ScenarioState::PostFailure
        } else {
            ScenarioState::PostSuccess
        },
        _ => ScenarioState::TestFinished,
    }
}

/// Whether the run may enter `candidate` (see `Scenario::is_state_okay`),
/// with the tests after the check and what it broadcasts: a test runs only
/// while time is left, if it is pending and if every test it requires
/// passed or runs; a pending test whose requirements failed is skipped.
pub open spec fn check_state(s: ScenarioView, tv: Seq<TestView>, candidate: ScenarioState, elapsed: u64) -> (bool, Seq<TestView>, Seq<ActionView>) {
    match candidate {
        ScenarioState::PreStart => (s.exec_start is Some, tv, seq![]),
        ScenarioState::PostSuccess => (s.exec_stop_success is Some, tv, seq![]),
        ScenarioState::PostFailure => (s.exec_stop_failure is Some, tv, seq![]),
        ScenarioState::Running(i) => {
            let t = s.tests[i as int];
            if timed_out(s.timeout, elapsed) || !(tv[t as int].state is Pending) {
                (false, tv, seq![])
            } else if !deps_ok(s.edges, view_states(tv), t) {
                (
                    false,
                    tv.update(t as int, made_skipped(tv[t as int])),
                    seq![
                        scenario_says(
                            s,
                            "standard"@,
                            BroadcastContentsView::Skip(tv[t as int].id, "dependency failed"@),
                        ),
                    ],
                )
            } else {
                (true, tv, seq![])
            }
        },
        _ => (true, tv, seq![]),
    }
}

/// The search for the next state of a run, from `cur` with `failures`
/// counted: the state entered, the failures, the tests and what was
/// broadcast on the way.  Leaving Idle clears the failures, makes the
/// tests of the scenario pending and broadcasts the start.
pub open spec fn next_from(s: ScenarioView, failures: u32, tv: Seq<TestView>, cur: ScenarioState, elapsed: u64) -> (ScenarioState, u32, Seq<TestView>, Seq<ActionView>)
    decreases s.tests.len() + 3 - rank(cur, s.tests.len()),
{
    if s.tests.len() > usize::MAX || (cur matches ScenarioState::Running(i) && i >= s.tests.len()) {
        (cur, failures, tv, seq![])
    } else {
        let f1: u32 = if cur is Idle {
            0
        } else {
            failures
        };
        let tv1 = if cur is Idle {
            all_pending(tv, s.tests)
        } else {
            tv
        };
        let a1 = if cur is Idle {
            seq![scenario_says(s, "standard"@, BroadcastContentsView::Start(s.id))]
        } else {
            seq![]
        };
        let next = succ_state(cur, s.tests.len(), f1);
        let (ok, tv2, a2) = check_state(s, tv1, next, elapsed);
        if ok || next is TestFinished {
            (next, f1, tv2, a1 + a2)
        } else {
            let r = next_from(s, f1, tv2, next, elapsed);
            (r.0, r.1, r.2, a1 + a2 + r.3)
        }
    }
}

/// Every test of the scenario is well formed, and the other loaded tests are
/// untouched.
pub open spec fn tests_in_scenario_only(old_tests: Seq<Test>, new_tests: Seq<Test>, order: Seq<usize>) -> bool {
    &&& new_tests.len() == old_tests.len()
    &&& forall|j: int| 0 <= j < old_tests.len() && !order.contains(j as usize) ==> new_tests[j] == old_tests[j]
}

/// The tests keep their number, and each its id and well-formedness.
pub open spec fn tests_kept_wf(old_tests: Seq<Test>, new_tests: Seq<Test>) -> bool {
    &&& new_tests.len() == old_tests.len()
    &&& forall|j: int|
        0 <= j < old_tests.len() ==> (#[trigger] new_tests[j]).wf() == old_tests[j].wf()
            && new_tests[j]@.id == old_tests[j]@.id
}

/// Each test keeps its configuration: only its run state changes.
pub open spec fn same_tests(old_tests: Seq<Test>, new_tests: Seq<Test>) -> bool {
    &&& new_tests.len() == old_tests.len()
    &&& forall|j: int| 0 <= j < old_tests.len() ==> (#[trigger] new_tests[j])@.id == old_tests[j]@.id
        && new_tests[j]@.test_type == old_tests[j]@.test_type && new_tests[j].wf() == old_tests[j].wf()
        && new_tests[j]@.timeout == old_tests[j]@.timeout
}

impl Scenario {
    /// Whether the scenario has used up its time, `elapsed_ms` after its
    /// start.
    pub fn scenario_timed_out(&self, elapsed_ms: u64) -> (r: bool)
        ensures
            r == timed_out(self@.timeout, elapsed_ms),
    {
        (elapsed_ms as u128) >= (self.timeout as u128) * 1000
    }

    /// The limit for a test of `test_secs` seconds, `elapsed_ms` after the
    /// scenario started (see `test_limit`).
    pub fn make_timeout(&self, test_secs: u64, elapsed_ms: u64) -> (r: u128)
        requires
            elapsed_ms <= self@.timeout * 1000,
        ensures
            r == test_limit(test_secs, elapsed_ms, self@.timeout),
            r <= test_secs * 1000,
            elapsed_ms + r <= self@.timeout * 1000,
    {
        let own: u128 = (test_secs as u128) * 1000;
        let limit: u128 = (self.timeout as u128) * 1000;
        if own + elapsed_ms as u128 > limit {
            limit - elapsed_ms as u128
        } else {
            own
        }
    }

    /// The number of failures seen in this run.
    pub fn failures(&self) -> (r: u32)
        ensures
            r == self@.failures,
    {
        self.failures
    }

    /// The state of the run.
    pub fn state(&self) -> (r: ScenarioState)
        ensures
            r == self@.state,
    {
        self.state
    }

    /// The tests of the scenario, in the order they run (indices of loaded
    /// tests).
    pub fn tests(&self) -> (r: &Vec<usize>)
        ensures
            r@ == self@.tests,
    {
        &self.tests
    }

    pub fn id(&self) -> (r: &str)
        ensures
            r@ == self@.id,
    {
        self.id.as_str()
    }

    pub fn name(&self) -> (r: &str)
        ensures
            r@ == self@.name,
    {
        self.name.as_str()
    }

    pub fn description(&self) -> (r: &str)
        ensures
            r@ == self@.description,
    {
        self.description.as_str()
    }

    pub fn kind(&self) -> (r: &'static str)
        ensures
            r@ == "scenario"@,
    {
        "scenario"
    }

    /// Counts a broadcast: each failure reported while the scenario exists
    /// adds one to its failures.
    pub fn note_broadcast(&mut self, msg: &BroadcastMessageContents)
        requires
            old(self)@.failures + 1 < u32::MAX - 500,
        ensures
            final(self)@ == (ScenarioView {
                failures: if msg is Fail {
                    (old(self)@.failures + 1) as u32
                } else {
                    old(self)@.failures
                },
                ..old(self)@
            }),
    {
        if let BroadcastMessageContents::Fail(_, _) = msg {
            self.failures = self.failures + 1;
        }
    }

    /// Checks whether `candidate` may be entered now.  A test may run only
    /// while the scenario has time left, if it is pending and if every test
    /// it requires passed or runs; a test whose requirements failed is
    /// skipped (and that is broadcast).  The closing and opening commands
    /// are entered only where they exist.
    fn is_state_okay(
        &self,
        tests: &mut Vec<Test>,
        candidate: ScenarioState,
        elapsed_ms: u64,
        actions: &mut Vec<Action>,
    ) -> (r: bool)
        requires
            self.wf(old(tests).len() as nat),
            candidate matches ScenarioState::Running(i) ==> i < self@.tests.len(),
        ensures
            candidate is Idle ==> r,
            candidate is PreStart ==> (r <==> self@.exec_start is Some),
            candidate is PostSuccess ==> (r <==> self@.exec_stop_success is Some),
            candidate is PostFailure ==> (r <==> self@.exec_stop_failure is Some),
            candidate is TestFinished ==> r,
            candidate matches ScenarioState::Running(i) ==> (r ==> !timed_out(
                self@.timeout,
                elapsed_ms,
            ) && final(tests)@[self@.tests[i as int] as int]@.state is Pending && deps_ok(
                self@.edges,
                states_of(final(tests)@),
                self@.tests[i as int],
            )),
            !(candidate is Running) ==> final(tests)@ == old(tests)@,
            r ==> final(tests)@ == old(tests)@,
            tests_in_scenario_only(old(tests)@, final(tests)@, self@.tests),
            same_tests(old(tests)@, final(tests)@),
            forall|j: int|
                0 <= j < old(tests).len() ==> (#[trigger] final(tests)@[j])@ == old(tests)@[j]@ || (
                final(tests)@[j]@ == TestView { state: skipped_state(), ..old(tests)@[j]@ }),
            actions_view(final(actions)@).len() >= actions_view(old(actions)@).len(),
            actions_view(final(actions)@).subrange(0, old(actions)@.len() as int) == actions_view(
                old(actions)@,
            ),
            ({
                let c = check_state(self@, views(old(tests)@), candidate, elapsed_ms);
                &&& r == c.0
                &&& views(final(tests)@) == c.1
                &&& actions_view(final(actions)@) == actions_view(old(actions)@) + c.2
            }),
    {
        proof {
            assert(states_of(old(tests)@) =~= view_states(views(old(tests)@)));
        }
        match candidate {
            ScenarioState::Idle => true,
            ScenarioState::PreStart => self.exec_start.is_some(),
            ScenarioState::Running(i) => {
                let t = self.tests[i];
                if self.scenario_timed_out(elapsed_ms) {
                    false
                } else if !tests[t].state().is_pending() {
                    false
                } else if !dependencies_succeeded(&self.graph, tests, t) {
                    let ghost old_actions = actions_view(actions@);
                    let test_id = own(tests[t].id());
                    let mut test = tests.remove(t);
                    test.skip();
                    tests.insert(t, test);
                    actions.push(
                        broadcast(
                            "standard",
                            self.id.as_str(),
                            "scenario",
                            BroadcastMessageContents::Skip(test_id, own("dependency failed")),
                        ),
                    );
                    assert(actions_view(actions@).subrange(0, old(actions)@.len() as int)
                        =~= old_actions);
                    assert(views(tests@) =~= views(old(tests)@).update(
                        t as int,
                        made_skipped(views(old(tests)@)[t as int]),
                    ));
                    assert(actions_view(actions@) =~= old_actions + check_state(
                        self@,
                        views(old(tests)@),
                        candidate,
                        elapsed_ms,
                    ).2);
                    false
                } else {
                    true
                }
            },
            ScenarioState::PostSuccess => self.exec_stop_success.is_some(),
            ScenarioState::PostFailure => self.exec_stop_failure.is_some(),
            ScenarioState::TestFinished => true,
        }
    }
}

/// A test after a step of a run: unchanged, made pending, or skipped.
pub open spec fn reset_or_skipped(old_t: TestView, new_t: TestView) -> bool {
    ||| new_t == old_t
    ||| new_t == TestView { state: TestStateView::Pending, ..old_t }
    ||| new_t == TestView { state: skipped_state(), ..old_t }
}

/// One step of `next_from`, unfolded.
pub proof fn lemma_next_from_step(s: ScenarioView, failures: u32, tv: Seq<TestView>, cur: ScenarioState, elapsed: u64)
    requires
        s.tests.len() <= usize::MAX,
        cur matches ScenarioState::Running(i) ==> i < s.tests.len(),
    ensures
        ({
            let f1: u32 = if cur is Idle { 0 } else { failures };
            let tv1 = if cur is Idle { all_pending(tv, s.tests) } else { tv };
            let a1: Seq<ActionView> = if cur is Idle {
                seq![scenario_says(s, "standard"@, BroadcastContentsView::Start(s.id))]
            } else {
                seq![]
            };
            let next = succ_state(cur, s.tests.len(), f1);
            let c = check_state(s, tv1, next, elapsed);
            next_from(s, failures, tv, cur, elapsed) == (if c.0 || next is TestFinished {
                (next, f1, c.1, a1 + c.2)
            } else {
                let r = next_from(s, f1, c.1, next, elapsed);
                (r.0, r.1, r.2, a1 + c.2 + r.3)
            })
        }),
{
}

proof fn lemma_prefix_contains(s: Seq<usize>, k: int, x: usize)
    requires
        0 <= k < s.len(),
    ensures
        s.subrange(0, k + 1).contains(x) <==> (s.subrange(0, k).contains(x) || x == s[k]),
{
    assert(s.subrange(0, k + 1) =~= s.subrange(0, k).push(s[k]));
    if s.subrange(0, k).contains(x) {
        let m = choose|m: int| 0 <= m < k && #[trigger] s.subrange(0, k)[m] == x;
        assert(s.subrange(0, k + 1)[m] == x);
    }
    if x == s[k] {
        assert(s.subrange(0, k + 1)[k] == x);
    }
    if s.subrange(0, k + 1).contains(x) {
        let m = choose|m: int| 0 <= m < k + 1 && #[trigger] s.subrange(0, k + 1)[m] == x;
        if m < k {
            assert(s.subrange(0, k)[m] == x);
        }
    }
}

/// Makes test `t` pending.
fn set_pending(tests: &mut Vec<Test>, t: usize)
    requires
        t < old(tests).len(),
    ensures
        final(tests)@ == old(tests)@.update(t as int, final(tests)@[t as int]),
        final(tests)@[t as int]@ == (TestView {
            state: TestStateView::Pending,
            ..old(tests)@[t as int]@
        }),
        final(tests)@[t as int].wf() == old(tests)@[t as int].wf(),
{
    let mut test = tests.remove(t);
    test.pending();
    tests.insert(t, test);
    assert(tests@ =~= old(tests)@.update(t as int, tests@[t as int]));
}

/// Makes test `t` skipped.
fn set_skipped(tests: &mut Vec<Test>, t: usize)
    requires
        t < old(tests).len(),
    ensures
        final(tests)@ == old(tests)@.update(t as int, final(tests)@[t as int]),
        final(tests)@[t as int]@ == (TestView { state: skipped_state(), ..old(tests)@[t as int]@ }),
        final(tests)@[t as int].wf() == old(tests)@[t as int].wf(),
{
    let mut test = tests.remove(t);
    test.skip();
    tests.insert(t, test);
    assert(tests@ =~= old(tests)@.update(t as int, tests@[t as int]));
}

impl Scenario {
    /// The next state of the run after `current`: Idle, then PreStart (where
    /// there is an opening command), then each test in turn that may run
    /// (see `is_state_okay`), then the closing command for success or
    /// failure (where there is one), then finished.  Leaving Idle clears the
    /// failures, makes every test of the scenario pending and broadcasts the
    /// start.
    #[verifier::spinoff_prover]
    #[verifier::rlimit(40)]
    fn find_next_state(&mut self, tests: &mut Vec<Test>, current: ScenarioState, elapsed_ms: u64) -> (r: (
        ScenarioState,
        Vec<Action>,
    ))
        requires
            old(self).wf(old(tests).len() as nat),
            current matches ScenarioState::Running(i) ==> i < old(self)@.tests.len(),
        ensures
            final(self).wf(old(tests).len() as nat),
            final(self)@ == (ScenarioView {
                state: r.0,
                failures: if current is Idle {
                    0
                } else {
                    old(self)@.failures
                },
                ..old(self)@
            }),
            !(r.0 is Idle),
            r.0 is TestFinished || rank(r.0, old(self)@.tests.len()) > rank(
                current,
                old(self)@.tests.len(),
            ),
            r.0 is PreStart ==> old(self)@.exec_start is Some,
            r.0 is PostSuccess ==> old(self)@.exec_stop_success is Some && final(self)@.failures == 0,
            r.0 is PostFailure ==> old(self)@.exec_stop_failure is Some && final(self)@.failures > 0,
            r.0 matches ScenarioState::Running(i) ==> i < old(self)@.tests.len() && !timed_out(
                old(self)@.timeout,
                elapsed_ms,
            ) && final(tests)@[old(self)@.tests[i as int] as int]@.state is Pending && deps_ok(
                old(self)@.edges,
                states_of(final(tests)@),
                old(self)@.tests[i as int],
            ),
            tests_in_scenario_only(old(tests)@, final(tests)@, old(self)@.tests),
            same_tests(old(tests)@, final(tests)@),
            forall|j: int|
                0 <= j < old(tests).len() ==> reset_or_skipped(
                    old(tests)@[j]@,
                    #[trigger] final(tests)@[j]@,
                ),
            ({
                let n = next_from(old(self)@, old(self)@.failures, views(old(tests)@), current, elapsed_ms);
                &&& r.0 == n.0
                &&& final(self)@.failures == n.1
                &&& views(final(tests)@) == n.2
                &&& actions_view(r.1@) == n.3
            }),
    {
        let ghost count = self@.tests.len();
        let ghost s0 = self@;
        let len = self.tests.len();
        assert(old(tests)@.len() == old(tests).len());
        let ghost tests0 = tests@;
        let mut actions: Vec<Action> = Vec::new();
        let mut cur = current;
        loop
            invariant
                s0 == old(self)@,
                tests0 == old(tests)@,
                self.wf(tests0.len() as nat),
                count == self@.tests.len(),
                self@ == (ScenarioView {
                    failures: if current is Idle && !(cur is Idle) {
                        0
                    } else {
                        s0.failures
                    },
                    ..s0
                }),
                cur matches ScenarioState::Running(i) ==> i < count,
                tests0.len() <= usize::MAX,
                count <= usize::MAX,
                cur is Idle ==> current is Idle,
                rank(cur, count) >= rank(current, count),
                rank(cur, count) <= count + 3,
                tests_in_scenario_only(tests0, tests@, s0.tests),
                same_tests(tests0, tests@),
                forall|j: int|
                    0 <= j < tests0.len() ==> reset_or_skipped(tests0[j]@, #[trigger] tests@[j]@),
                ({
                    let r0 = next_from(s0, s0.failures, views(tests0), current, elapsed_ms);
                    let r1 = next_from(s0, self@.failures, views(tests@), cur, elapsed_ms);
                    &&& r0.0 == r1.0
                    &&& r0.1 == r1.1
                    &&& r0.2 == r1.2
                    &&& r0.3 == actions_view(actions@) + r1.3
                }),
            decreases count + 3 - rank(cur, count),
        {
            let ghost f0 = self@.failures;
            let ghost tv0 = views(tests@);
            let ghost av0 = actions_view(actions@);
            let failure_count = self.failures;
            assert(self@.tests.len() == self.tests@.len());
            assert(cur matches ScenarioState::Running(i) ==> i < self.tests.len());
            let next = match cur {
                ScenarioState::Idle => {
                    self.failures = 0;
                    let ghost old_actions_idle = actions@;
                    let mut k: usize = 0;
                    assert(s0.tests.subrange(0, 0) =~= Seq::<usize>::empty());
                    assert(views(tests@) =~= all_pending(tv0, s0.tests.subrange(0, 0)));
                    while k < self.tests.len()
                        invariant
                            self.wf(tests0.len() as nat),
                            count == self@.tests.len(),
                            k <= count,
                            self@ == (ScenarioView { failures: 0, ..s0 }),
                            tests_in_scenario_only(tests0, tests@, s0.tests),
                            same_tests(tests0, tests@),
                            forall|j: int|
                                0 <= j < tests0.len() ==> reset_or_skipped(
                                    tests0[j]@,
                                    #[trigger] tests@[j]@,
                                ),
                            views(tests@) == all_pending(tv0, s0.tests.subrange(0, k as int)),
                            tv0.len() == tests0.len(),
                            tests0.len() <= usize::MAX,
                            actions@ == old_actions_idle,
                        decreases count - k,
                    {
                        let t = self.tests[k];
                        let ghost before = tests@;
                        set_pending(tests, t);
                        proof {
                            assert(views(tests@) =~= all_pending(tv0, s0.tests.subrange(0, k + 1))) by {
                                assert forall|j: int| 0 <= j < tv0.len() implies #[trigger] views(tests@)[j]
                                    == all_pending(tv0, s0.tests.subrange(0, k + 1))[j] by {
                                    lemma_prefix_contains(s0.tests, k as int, j as usize);
                                    assert(views(before)[j] == before[j]@);
                                    assert(views(tests@)[j] == tests@[j]@);
                                    assert(s0.tests[k as int] == t);
                                    if j == t {
                                        assert(tests@[j]@ == made_pending(before[j]@));
                                        assert(all_pending(tv0, s0.tests.subrange(0, k + 1))[j] == made_pending(tv0[j]));
                                    } else {
                                        assert(tests@[j] == before[j]);
                                        assert(all_pending(tv0, s0.tests.subrange(0, k + 1))[j] == all_pending(tv0, s0.tests.subrange(0, k as int))[j]);
                                    }
                                    if j != t {
                                        assert(tests@[j] == before[j]);
                                    }
                                }
                            }
                            assert(s0.tests.contains(t)) by {
                                assert(s0.tests[k as int] == t);
                            }
                            assert forall|j: int| 0 <= j < tests0.len() implies reset_or_skipped(
                                tests0[j]@,
                                #[trigger] tests@[j]@,
                            ) by {
                                if j == t {
                                    assert(reset_or_skipped(tests0[j]@, before[j]@));
                                } else {
                                    assert(tests@[j] == before[j]);
                                }
                            }
                            assert forall|j: int|
                                0 <= j < tests0.len() && !s0.tests.contains(
                                    j as usize,
                                ) implies tests@[j] == tests0[j] by {
                                assert(j != t);
                                assert(tests@[j] == before[j]);
                            }
                            assert forall|j: int| 0 <= j < tests0.len() implies (#[trigger] tests@[j])@.id
                                == tests0[j]@.id && tests@[j]@.test_type == tests0[j]@.test_type
                                && tests@[j].wf() == tests0[j].wf() && tests@[j]@.timeout
                                == tests0[j]@.timeout by {
                                if j != t {
                                    assert(tests@[j] == before[j]);
                                }
                            }
                        }
                        k = k + 1;
                    }
                    assert(s0.tests.subrange(0, count as int) =~= s0.tests);
                    actions.push(
                        broadcast(
                            "standard",
                            self.id.as_str(),
                            "scenario",
                            BroadcastMessageContents::Start(self.id.clone()),
                        ),
                    );
                    ScenarioState::PreStart
                },
                ScenarioState::PreStart => ScenarioState::Running(0),
                ScenarioState::Running(i) => {
                    if i + 1 < self.tests.len() {
                        ScenarioState::Running(i + 1)
                    } else if failure_count > 0 {
                        ScenarioState::PostFailure
                    } else {
                        ScenarioState::PostSuccess
                    }
                },
                ScenarioState::PostFailure => ScenarioState::TestFinished,
                ScenarioState::PostSuccess => ScenarioState::TestFinished,
                ScenarioState::TestFinished => ScenarioState::TestFinished,
            };
            let ghost before = tests@;
            let ghost av1 = actions_view(actions@);
            let ghost tv1 = views(tests@);
            let ghost f1: u32 = if cur is Idle { 0 } else { f0 };
            let ghost a1: Seq<ActionView> = if cur is Idle {
                seq![scenario_says(s0, "standard"@, BroadcastContentsView::Start(s0.id))]
            } else {
                seq![]
            };
            let ghost c = check_state(s0, tv1, next, elapsed_ms);
            proof {
                assert(next == succ_state(cur, count, f1));
                assert(tv1 == (if cur is Idle { all_pending(tv0, s0.tests) } else { tv0 }));
                assert(av1 =~= av0 + a1);
                assert(check_state(self@, tv1, next, elapsed_ms) == c);
                lemma_next_from_step(s0, f0, tv0, cur, elapsed_ms);
            }
            let ok = self.is_state_okay(tests, next, elapsed_ms, &mut actions);
            proof {
                assert(ok == c.0);
                assert(views(tests@) == c.1);
                assert(actions_view(actions@) == av1 + c.2);
                assert(self@.failures == f1);
                if ok {
                    assert(actions_view(actions@) =~= av0 + (a1 + c.2));
                } else {
                    let r = next_from(s0, f1, c.1, next, elapsed_ms);
                    assert(av0 + (a1 + c.2 + r.3) =~= actions_view(actions@) + r.3);
                }
                assert forall|j: int| 0 <= j < tests0.len() implies reset_or_skipped(
                    tests0[j]@,
                    #[trigger] tests@[j]@,
                ) by {
                    assert(reset_or_skipped(tests0[j]@, before[j]@));
                    assert(reset_or_skipped(before[j]@, tests@[j]@));
                }
                assert forall|j: int|
                    0 <= j < tests0.len() && !s0.tests.contains(j as usize) implies tests@[j]
                    == tests0[j] by {
                    assert(before[j] == tests0[j]);
                }
                assert forall|j: int| 0 <= j < tests0.len() implies (#[trigger] tests@[j])@.id
                    == tests0[j]@.id && tests@[j]@.test_type == tests0[j]@.test_type
                    && tests@[j].wf() == tests0[j].wf() && tests@[j]@.timeout == tests0[j]@.timeout by {
                    assert(before[j]@.id == tests0[j]@.id);
                }
            }
            if ok {
                self.state = next;
                return (next, actions);
            }
            cur = next;
        }
    }
}

/// The ids of the tests, in order.
pub open spec fn test_ids(tests: Seq<Test>) -> Seq<Seq<char>> {
    tests.map_values(|t: Test| t@.id)
}

/// The description of a scenario, whose tests are named by `ids`: its name,
/// its description and the ids of its tests, in the order they run.
pub open spec fn scenario_description(s: ScenarioView, ids: Seq<Seq<char>>) -> Seq<ActionView> {
    seq![
        scenario_says(s, "standard"@, BroadcastContentsView::Describe("scenario"@, "name"@, s.id, s.name)),
        scenario_says(
            s,
            "standard"@,
            BroadcastContentsView::Describe("scenario"@, "description"@, s.id, s.description),
        ),
        scenario_says(s, "standard"@, BroadcastContentsView::Tests(s.id, s.tests.map_values(|t: usize| ids[t as int]))),
    ]
}

/// The view of a test after the end of its scenario (see `Test::terminate`).
pub open spec fn terminated(t: TestView) -> TestView {
    if t.test_type == crate::types::test::TestType::Daemon {
        TestView {
            state: if t.state is Running {
                TestStateView::Pass
            } else {
                t.state
            },
            has_process: false,
            ..t
        }
    } else {
        t
    }
}

/// What ending the tests `order` asks for, in order.
pub open spec fn terminate_all(tv: Seq<TestView>, order: Seq<usize>) -> Seq<ActionView>
    decreases order.len(),
{
    if order.len() == 0 {
        seq![]
    } else {
        terminate_all(tv, order.drop_last()) + crate::types::test::terminate_actions(
            tv[order.last() as int],
            order.last(),
        )
    }
}

/// The tests once a run has ended: each test of `order` ended (see
/// `terminated`).
pub open spec fn all_terminated(tv: Seq<TestView>, order: Seq<usize>) -> Seq<TestView> {
    Seq::new(
        tv.len(),
        |j: int|
            if order.contains(j as usize) {
                terminated(tv[j])
            } else {
                tv[j]
            },
    )
}

/// What ending a run asks for: its tests ended in order, then the result
/// logged and broadcast.
pub open spec fn finish_actions(s: ScenarioView, tv: Seq<TestView>) -> Seq<ActionView> {
    terminate_all(tv, s.tests) + seq![
        scenario_says(s, "standard"@, BroadcastContentsView::Log(finish_log(s.failures))),
        scenario_says(
            s,
            "standard"@,
            BroadcastContentsView::Finish(s.id, finish_code(s.failures), finish_reason(s.failures)),
        ),
    ]
}

/// The closing words of a run, by its failures.
pub open spec fn finish_reason(failures: u32) -> Seq<char> {
    if failures > 0 {
        "At least one test failed"@
    } else {
        "Finished tests"@
    }
}

pub open spec fn finish_log(failures: u32) -> Seq<char> {
    if failures > 0 {
        decimal(failures as nat) + " tests failed"@
    } else {
        "All tests passed successfully"@
    }
}

/// The Debug text of a state.
pub open spec fn state_text(s: ScenarioState) -> Seq<char> {
    match s {
        ScenarioState::Idle => "Idle"@,
        ScenarioState::PreStart => "PreStart"@,
        ScenarioState::Running(i) => "Running("@ + decimal(i as nat) + ")"@,
        ScenarioState::PostSuccess => "PostSuccess"@,
        ScenarioState::PostFailure => "PostFailure"@,
        ScenarioState::TestFinished => "TestFinished"@,
    }
}

fn state_debug_text(s: ScenarioState) -> (r: String)
    ensures
        r@ == state_text(s),
{
    match s {
        ScenarioState::Idle => own("Idle"),
        ScenarioState::PreStart => own("PreStart"),
        ScenarioState::Running(i) => concat(
            &concat(&own("Running("), &u64_to_decimal(i as u64)),
            &own(")"),
        ),
        ScenarioState::PostSuccess => own("PostSuccess"),
        ScenarioState::PostFailure => own("PostFailure"),
        ScenarioState::TestFinished => own("TestFinished"),
    }
}

/// Ends test `t` (see `Test::terminate`).
fn terminate_test(tests: &mut Vec<Test>, t: usize) -> (r: Vec<Action>)
    requires
        t < old(tests).len(),
    ensures
        final(tests)@ == old(tests)@.update(t as int, final(tests)@[t as int]),
        final(tests)@[t as int]@ == terminated(old(tests)@[t as int]@),
        final(tests)@[t as int].wf() == old(tests)@[t as int].wf(),
        actions_view(r@) == crate::types::test::terminate_actions(old(tests)@[t as int]@, t),
{
    let mut test = tests.remove(t);
    let r = test.terminate(t);
    tests.insert(t, test);
    assert(tests@ =~= old(tests)@.update(t as int, tests@[t as int]));
    r
}

/// Starts test `t` (see `Test::start`).
fn start_test(tests: &mut Vec<Test>, t: usize, wd: &Option<String>, max_ms: u128) -> (r: Vec<Action>)
    requires
        t < old(tests).len(),
    ensures
        final(tests)@ == old(tests)@.update(t as int, final(tests)@[t as int]),
        final(tests)@[t as int]@ == (TestView {
            state: if old(tests)@[t as int]@.test_type == crate::types::test::TestType::Simple {
                TestStateView::Running
            } else {
                TestStateView::Starting
            },
            test_working_directory: crate::types::test::run_directory(
                old(tests)@[t as int]@.working_directory,
                opt_view(*wd),
            ),
            has_process: old(tests)@[t as int]@.test_type == crate::types::test::TestType::Simple
                || old(tests)@[t as int]@.has_process,
            came_up: false,
            ..old(tests)@[t as int]@
        }),
        final(tests)@[t as int].wf() == old(tests)@[t as int].wf(),
        final(tests)@[t as int]@ == crate::types::test::started(old(tests)@[t as int]@, opt_view(*wd)),
        actions_view(r@) == crate::types::test::start_actions(old(tests)@[t as int]@, t, opt_view(*wd), max_ms),
        actions_view(r@).len() == 2,
        actions_view(r@)[1] == (if old(tests)@[t as int]@.test_type
            == crate::types::test::TestType::Simple {
            ActionView::StartSimple(
                t,
                old(tests)@[t as int]@.exec_start,
                crate::types::test::run_directory(
                    old(tests)@[t as int]@.working_directory,
                    opt_view(*wd),
                ),
                max_ms,
            )
        } else {
            ActionView::StartDaemon(
                t,
                old(tests)@[t as int]@.exec_start,
                crate::types::test::run_directory(
                    old(tests)@[t as int]@.working_directory,
                    opt_view(*wd),
                ),
                max_ms,
                old(tests)@[t as int]@.daemon_ready,
            )
        }),
{
    let mut test = tests.remove(t);
    let r = test.start(t, wd, max_ms);
    tests.insert(t, test);
    assert(tests@ =~= old(tests)@.update(t as int, tests@[t as int]));
    r
}

/// The label, command and time limit of the support command that state
/// `st` runs: the opening command, or the closing one for success or for
/// failure.
pub open spec fn support_step(s: ScenarioView, st: ScenarioState) -> (Seq<char>, Option<Seq<char>>, u64) {
    match st {
        ScenarioState::PreStart => ("execstart"@, s.exec_start, s.exec_start_timeout),
        ScenarioState::PostSuccess => ("execstopsuccess"@, s.exec_stop_success, s.exec_stop_success_timeout),
        _ => ("execstopfailure"@, s.exec_stop_failure, s.exec_stop_failure_timeout),
    }
}

/// A run moved on `elapsed` milliseconds after its start (see
/// `Scenario::advance`): the scenario, the tests and what is asked for.
/// A finished run stays as it is: it does not end twice.  Otherwise the
/// test that ran is stopped, the next state is found (`next_from`) and
/// entered: a support command is run, a test started, or the run ended.
pub open spec fn advanced(s: ScenarioView, tv: Seq<TestView>, index: usize, elapsed: u64) -> (ScenarioView, Seq<TestView>, Seq<ActionView>) {
    if s.state is TestFinished {
        (s, tv, seq![])
    } else {
        advance_step(s, tv, index, elapsed)
    }
}

/// A run that has not finished, moved on (see `advanced`).
pub open spec fn advance_step(s: ScenarioView, tv: Seq<TestView>, index: usize, elapsed: u64) -> (ScenarioView, Seq<TestView>, Seq<ActionView>) {
    let a0 = match s.state {
        ScenarioState::Running(step) => crate::types::test::stop_actions(
            tv[s.tests[step as int] as int],
            s.tests[step as int],
            s.working_directory,
        ),
        _ => seq![],
    };
    let n = next_from(s, s.failures, tv, s.state, elapsed);
    let s1 = ScenarioView { state: n.0, failures: n.1, ..s };
    match n.0 {
        ScenarioState::Running(k) => {
            let t = s.tests[k as int];
            let lim = test_limit(n.2[t as int].timeout, elapsed, s.timeout);
            (
                s1,
                n.2.update(t as int, crate::types::test::started(n.2[t as int], s.working_directory)),
                a0 + n.3 + crate::types::test::start_actions(n.2[t as int], t, s.working_directory, lim as u128),
            )
        },
        ScenarioState::TestFinished => (s1, all_terminated(n.2, s.tests), a0 + n.3 + finish_actions(s1, n.2)),
        ScenarioState::Idle => (s1, n.2, a0 + n.3),
        _ => {
            let (label, cmd, timeout) = support_step(s, n.0);
            (
                ScenarioView { has_support_cmd: true, ..s1 },
                n.2,
                a0 + n.3 + seq![
                    ActionView::RunSupport(index, label, or_default(cmd, seq![]), s.working_directory, timeout),
                ],
            )
        },
    }
}

/// The tests with those of `order` from position `i` on skipped.
pub open spec fn skipped_from(tv: Seq<TestView>, order: Seq<usize>, i: int) -> Seq<TestView> {
    Seq::new(
        tv.len(),
        |j: int|
            if order.subrange(i, order.len() as int).contains(j as usize) {
                made_skipped(tv[j])
            } else {
                tv[j]
            },
    )
}

/// A run stopped (see `Scenario::abort`): the tests and what is asked for.
pub open spec fn aborted(s: ScenarioView, tv: Seq<TestView>, index: usize) -> (Seq<TestView>, Seq<ActionView>) {
    match s.state {
        ScenarioState::Idle | ScenarioState::TestFinished => (tv, seq![]),
        ScenarioState::Running(i) => {
            let tv1 = skipped_from(tv, s.tests, i as int);
            let t = s.tests[i as int];
            (
                all_terminated(tv1, s.tests),
                crate::types::test::stop_actions(tv1[t as int], t, s.working_directory)
                    + finish_actions(s, tv1),
            )
        },
        _ => (
            all_terminated(tv, s.tests),
            (if s.has_support_cmd {
                seq![ActionView::KillSupport(index)]
            } else {
                seq![]
            }) + finish_actions(s, tv),
        ),
    }
}

proof fn lemma_range_contains(s: Seq<usize>, i: int, k: int, x: usize)
    requires
        0 <= i <= k < s.len(),
    ensures
        s.subrange(i, k + 1).contains(x) <==> (s.subrange(i, k).contains(x) || x == s[k]),
{
    if s.subrange(i, k).contains(x) {
        let m = choose|m: int| 0 <= m < k - i && #[trigger] s.subrange(i, k)[m] == x;
        assert(s.subrange(i, k + 1)[m] == x);
    }
    if x == s[k] {
        assert(s.subrange(i, k + 1)[k - i] == x);
    }
    if s.subrange(i, k + 1).contains(x) {
        let m = choose|m: int| 0 <= m < k + 1 - i && #[trigger] s.subrange(i, k + 1)[m] == x;
        if m < k - i {
            assert(s.subrange(i, k)[m] == x);
        }
    }
}

impl Scenario {
    /// Ends a run: every daemon of the scenario is ended, then the result
    /// is logged and broadcast: 200 where nothing failed, else 500 plus the
    /// number of failures.
    pub fn finish_scenario(&self, tests: &mut Vec<Test>) -> (r: Vec<Action>)
        requires
            self.wf(old(tests).len() as nat),
        ensures
            final(tests).len() == old(tests).len(),
            forall|j: int|
                0 <= j < old(tests).len() ==> #[trigger] final(tests)@[j]@ == (if self@.tests.contains(
                    j as usize,
                ) {
                    terminated(old(tests)@[j]@)
                } else {
                    old(tests)@[j]@
                }) && final(tests)@[j].wf() == old(tests)@[j].wf(),
            actions_view(r@) == finish_actions(self@, views(old(tests)@)),
            views(final(tests)@) == all_terminated(views(old(tests)@), self@.tests),
    {
        let ghost tests0 = tests@;
        let failures = self.failures;
        let mut actions: Vec<Action> = Vec::new();
        let mut k: usize = 0;
        while k < self.tests.len()
            invariant
                self.wf(tests0.len() as nat),
                k <= self.tests.len(),
                tests.len() == tests0.len(),
                tests0 == old(tests)@,
                forall|j: int|
                    0 <= j < tests0.len() ==> #[trigger] tests@[j]@ == (if self@.tests.subrange(
                        0,
                        k as int,
                    ).contains(j as usize) {
                        terminated(tests0[j]@)
                    } else {
                        tests0[j]@
                    }) && tests@[j].wf() == tests0[j].wf(),
                actions_view(actions@) == terminate_all(views(tests0), self@.tests.subrange(0, k as int)),
            decreases self.tests.len() - k,
        {
            let t = self.tests[k];
            let ghost before = tests@;
            proof {
                assert(!self@.tests.subrange(0, k as int).contains(t)) by {
                    if self@.tests.subrange(0, k as int).contains(t) {
                        let m = choose|m: int| 0 <= m < k && #[trigger] self@.tests.subrange(0, k as int)[m] == t;
                        assert(self@.tests[m] == self@.tests[k as int]);
                    }
                }
                assert(before[t as int]@ == tests0[t as int]@);
            }
            let ghost av = actions_view(actions@);
            let a = terminate_test(tests, t);
            append_actions(&mut actions, a);
            proof {
                assert(self@.tests.subrange(0, k + 1).drop_last() =~= self@.tests.subrange(0, k as int));
                assert(self@.tests.subrange(0, k + 1).last() == t);
                assert forall|j: int| 0 <= j < tests0.len() implies #[trigger] tests@[j]@ == (if self@.tests.subrange(
                    0,
                    k + 1,
                ).contains(j as usize) {
                    terminated(tests0[j]@)
                } else {
                    tests0[j]@
                }) && tests@[j].wf() == tests0[j].wf() by {
                    if j == t {
                        assert(self@.tests.subrange(0, k + 1)[k as int] == t);
                    } else {
                        assert(tests@[j] == before[j]);
                        assert(self@.tests.subrange(0, k + 1).contains(j as usize)
                            == self@.tests.subrange(0, k as int).contains(j as usize)) by {
                            if self@.tests.subrange(0, k + 1).contains(j as usize) {
                                let m = choose|m: int|
                                    0 <= m < k + 1 && #[trigger] self@.tests.subrange(0, k + 1)[m] == j as usize;
                                assert(m < k);
                                assert(self@.tests.subrange(0, k as int)[m] == j as usize);
                            }
                            if self@.tests.subrange(0, k as int).contains(j as usize) {
                                let m = choose|m: int|
                                    0 <= m < k && #[trigger] self@.tests.subrange(0, k as int)[m] == j as usize;
                                assert(self@.tests.subrange(0, k + 1)[m] == j as usize);
                            }
                        }
                    }
                }
            }
            k = k + 1;
        }
        assert(self@.tests.subrange(0, self@.tests.len() as int) =~= self@.tests);
        assert(views(tests@) =~= all_terminated(views(tests0), self@.tests)) by {
            assert forall|j: int| 0 <= j < tests0.len() implies #[trigger] views(tests@)[j]
                == all_terminated(views(tests0), self@.tests)[j] by {
                assert(views(tests@)[j] == tests@[j]@);
                assert(views(tests0)[j] == tests0[j]@);
            }
        }
        let ghost av = actions_view(actions@);
        if failures > 0 {
            actions.push(
                log(
                    self.id.as_str(),
                    "scenario",
                    concat(&u64_to_decimal(failures as u64), &own(" tests failed")),
                ),
            );
            actions.push(
                broadcast(
                    "standard",
                    self.id.as_str(),
                    "scenario",
                    BroadcastMessageContents::Finish(
                        self.id.clone(),
                        failures + 500,
                        own("At least one test failed"),
                    ),
                ),
            );
        } else {
            actions.push(log(self.id.as_str(), "scenario", own("All tests passed successfully")));
            actions.push(
                broadcast(
                    "standard",
                    self.id.as_str(),
                    "scenario",
                    BroadcastMessageContents::Finish(self.id.clone(), 200, own("Finished tests")),
                ),
            );
        }
        assert(actions_view(actions@) =~= av + seq![
            actions_view(actions@)[av.len() as int],
            actions_view(actions@)[av.len() as int + 1],
        ]);
        actions
    }

    /// A support command (opening or closing) of the scenario ended: its
    /// outcome is broadcast under its label, and the run moves on.
    pub fn support_finished(&mut self, label: &str, result: Result<(), String>) -> (r: Vec<Action>)
        ensures
            final(self)@ == (ScenarioView { has_support_cmd: false, ..old(self)@ }),
            actions_view(r@) == seq![
                scenario_says(
                    old(self)@,
                    "support"@,
                    match result {
                        Ok(_) => BroadcastContentsView::Pass(label@, seq![]),
                        Err(e) => BroadcastContentsView::Fail(label@, e@),
                    },
                ),
                ActionView::Control(
                    "support"@,
                    old(self)@.id,
                    "scenario"@,
                    ControlContentsView::AdvanceScenario,
                ),
            ],
    {
        proof {
            reveal_strlit("");
            assert(""@ =~= Seq::<char>::empty());
        }
        let msg = match result {
            Ok(_) => BroadcastMessageContents::Pass(own(label), own("")),
            Err(e) => BroadcastMessageContents::Fail(own(label), e),
        };
        self.has_support_cmd = false;
        let mut r: Vec<Action> = Vec::new();
        r.push(broadcast("support", self.id.as_str(), "scenario", msg));
        r.push(control("support", self.id.as_str(), "scenario", ControlMessageContents::AdvanceScenario));
        assert(actions_view(r@) =~= seq![r@[0]@, r@[1]@]);
        r
    }

    fn run_support(&mut self, index: usize, label: &str, cmd: &String, timeout: u64) -> (r: Action)
        ensures
            final(self)@ == (ScenarioView { has_support_cmd: true, ..old(self)@ }),
            r@ == ActionView::RunSupport(
                index,
                label@,
                cmd@,
                old(self)@.working_directory,
                timeout,
            ),
    {
        self.has_support_cmd = true;
        Action::RunSupport(index, own(label), cmd.clone(), self.working_directory.clone(), timeout)
    }

    /// Moves the run on, `elapsed_ms` after it started (a finished run is
    /// left as it is): the test that just ran is stopped, the next state is
    /// found (see `find_next_state`) and entered: its command is run, its test started (with the limit of
    /// `make_timeout`), or the run finished.  `index` is the scenario's
    /// index, named in the requests to run its commands.
    pub fn advance(&mut self, index: usize, tests: &mut Vec<Test>, elapsed_ms: u64) -> (r: Vec<Action>)
        requires
            old(self).wf(old(tests).len() as nat),
        ensures
            final(self).wf(old(tests).len() as nat),
            final(tests).len() == old(tests).len(),
            tests_kept_wf(old(tests)@, final(tests)@),
            final(self)@.tests == old(self)@.tests,
            final(self)@.id == old(self)@.id,
            final(self)@.working_directory == old(self)@.working_directory,
            final(self)@.timeout == old(self)@.timeout,
            !(final(self)@.state is Idle),
            final(self)@.state is TestFinished || rank(final(self)@.state, old(self)@.tests.len())
                > rank(old(self)@.state, old(self)@.tests.len()),
            final(self)@.state is PreStart ==> old(self)@.exec_start is Some
                && final(self)@.has_support_cmd,
            final(self)@.state is PostSuccess ==> final(self)@.failures == 0
                && final(self)@.has_support_cmd,
            final(self)@.state is PostFailure ==> final(self)@.failures > 0
                && final(self)@.has_support_cmd,
            final(self)@.state matches ScenarioState::Running(i) ==> !timed_out(
                old(self)@.timeout,
                elapsed_ms,
            ) && (final(tests)@[old(self)@.tests[i as int] as int]@.state is Running || final(tests)@[old(self)@.tests[i as int] as int]@.state is Starting),
            final(self)@.state matches ScenarioState::Running(i) ==> (actions_view(r@).last()
                matches ActionView::StartSimple(t, _, _, lim) && t == old(self)@.tests[i as int]
                && lim == test_limit(old(tests)@[t as int]@.timeout, elapsed_ms, old(self)@.timeout))
                || (actions_view(r@).last() matches ActionView::StartDaemon(t, _, _, lim, _) && t
                == old(self)@.tests[i as int] && lim == test_limit(
                old(tests)@[t as int]@.timeout,
                elapsed_ms,
                old(self)@.timeout,
            )),
            old(self)@.state is TestFinished ==> final(self)@ == old(self)@ && final(tests)@
                == old(tests)@ && r@.len() == 0,
            !(old(self)@.state is TestFinished) && final(self)@.state is TestFinished
                ==> actions_view(r@).last() == scenario_says(
                final(self)@,
                "standard"@,
                BroadcastContentsView::Finish(
                    final(self)@.id,
                    finish_code(final(self)@.failures),
                    finish_reason(final(self)@.failures),
                ),
            ),
            ({
                let a = advanced(old(self)@, views(old(tests)@), index, elapsed_ms);
                &&& final(self)@ == a.0
                &&& views(final(tests)@) == a.1
                &&& actions_view(r@) == a.2
            }),
    {
        let ghost s0 = self@;
        let ghost tv0 = views(tests@);
        let current = self.state;
        let mut actions: Vec<Action> = Vec::new();
        if let ScenarioState::TestFinished = current {
            return actions;
        }
        if let ScenarioState::Running(step) = current {
            let t = self.tests[step];
            assert(tests@[t as int]@ == tv0[t as int]);
            let a = tests[t].stop(t, &self.working_directory);
            append_actions(&mut actions, a);
        }
        let ghost a0 = actions_view(actions@);
        let ghost n = next_from(s0, s0.failures, tv0, current, elapsed_ms);
        let (new_state, a) = self.find_next_state(tests, current, elapsed_ms);
        append_actions(&mut actions, a);
        proof {
            reveal_strlit("");
            assert(""@ =~= Seq::<char>::empty());
            assert(actions_view(actions@) == a0 + n.3);
            assert(self@ == (ScenarioView { state: n.0, failures: n.1, ..s0 }));
        }
        match new_state {
            ScenarioState::Idle => {},
            ScenarioState::PreStart => {
                let cmd = match &self.exec_start {
                    Some(c) => c.clone(),
                    None => own(""),
                };
                let timeout = self.exec_start_timeout;
                let a = self.run_support(index, "execstart", &cmd, timeout);
                let ghost av = actions_view(actions@);
                actions.push(a);
                assert(actions_view(actions@) =~= av + seq![a@]);
            },
            ScenarioState::Running(next) => {
                let t = self.tests[next];
                let test_secs = tests[t].timeout();
                let lim = self.make_timeout(test_secs, elapsed_ms);
                let ghost av = actions_view(actions@);
                let ghost before = tests@;
                assert(views(before)[t as int] == before[t as int]@);
                let a = start_test(tests, t, &self.working_directory, lim);
                append_actions(&mut actions, a);
                assert(views(tests@) =~= views(before).update(
                    t as int,
                    crate::types::test::started(views(before)[t as int], s0.working_directory),
                ));
            },
            ScenarioState::PostSuccess => {
                let cmd = match &self.exec_stop_success {
                    Some(c) => c.clone(),
                    None => own(""),
                };
                let timeout = self.exec_stop_success_timeout;
                let a = self.run_support(index, "execstopsuccess", &cmd, timeout);
                let ghost av = actions_view(actions@);
                actions.push(a);
                assert(actions_view(actions@) =~= av + seq![a@]);
            },
            ScenarioState::PostFailure => {
                let cmd = match &self.exec_stop_failure {
                    Some(c) => c.clone(),
                    None => own(""),
                };
                let timeout = self.exec_stop_failure_timeout;
                let a = self.run_support(index, "execstopfailure", &cmd, timeout);
                let ghost av = actions_view(actions@);
                actions.push(a);
                assert(actions_view(actions@) =~= av + seq![a@]);
            },
            ScenarioState::TestFinished => {
                let a = self.finish_scenario(tests);
                append_actions(&mut actions, a);
            },
        }
        actions
    }
}

impl Scenario {
    /// Starts a run, from `working_directory` for the tests that name none.
    /// A run starts only from Idle or after a finished run (otherwise that is
    /// logged and nothing else happens): every test of the scenario is made
    /// pending and the run advances from Idle.  `r.0` tells whether the run
    /// started; its time counts from then.
    pub fn start(&mut self, index: usize, tests: &mut Vec<Test>, working_directory: &Option<String>) -> (r: (
        bool,
        Vec<Action>,
    ))
        requires
            old(self).wf(old(tests).len() as nat),
        ensures
            final(self).wf(old(tests).len() as nat),
            final(tests).len() == old(tests).len(),
            tests_kept_wf(old(tests)@, final(tests)@),
            r.0 == (old(self)@.state is Idle || old(self)@.state is TestFinished),
            !r.0 ==> final(self)@ == old(self)@ && final(tests)@ == old(tests)@ && actions_view(r.1@)
                == seq![
                scenario_says(
                    old(self)@,
                    "standard"@,
                    BroadcastContentsView::Log(
                        "NOT starting new scenario run because ScenarioState is "@ + state_text(
                            old(self)@.state,
                        ) + ", not Idle"@,
                    ),
                ),
            ],
            final(self)@.id == old(self)@.id,
            final(self)@.tests == old(self)@.tests,
            r.0 ==> final(self)@.working_directory == opt_view(*working_directory) && !(final(self)@.state is Idle) && actions_view(r.1@)[0] == scenario_says(
                old(self)@,
                "standard"@,
                BroadcastContentsView::Log("Starting new scenario run"@),
            ),
            r.0 ==> ({
                let a = advanced(
                    ScenarioView {
                        state: ScenarioState::Idle,
                        working_directory: opt_view(*working_directory),
                        ..old(self)@
                    },
                    all_pending(views(old(tests)@), old(self)@.tests),
                    index,
                    0,
                );
                &&& final(self)@ == a.0
                &&& views(final(tests)@) == a.1
                &&& actions_view(r.1@) == seq![
                    scenario_says(
                        old(self)@,
                        "standard"@,
                        BroadcastContentsView::Log("Starting new scenario run"@),
                    ),
                ] + a.2
            }),
    {
        let ghost tv0 = views(tests@);
        let ghost s0 = self@;
        let mut actions: Vec<Action> = Vec::new();
        match self.state {
            ScenarioState::Idle | ScenarioState::TestFinished => {},
            _ => {
                let text = concat(
                    &concat(
                        &own("NOT starting new scenario run because ScenarioState is "),
                        &state_debug_text(self.state),
                    ),
                    &own(", not Idle"),
                );
                actions.push(log(self.id.as_str(), "scenario", text));
                assert(actions_view(actions@) =~= seq![actions@[0]@]);
                return (false, actions);
            },
        }
        actions.push(log(self.id.as_str(), "scenario", own("Starting new scenario run")));
        let ghost first = actions@[0]@;
        let mut k: usize = 0;
        assert(s0.tests.subrange(0, 0) =~= Seq::<usize>::empty());
        assert(views(tests@) =~= all_pending(tv0, s0.tests.subrange(0, 0)));
        while k < self.tests.len()
            invariant
                self.wf(old(tests).len() as nat),
                self@ == old(self)@,
                s0 == old(self)@,
                k <= self.tests.len(),
                tests.len() == old(tests).len(),
                tv0 == views(old(tests)@),
                tests_kept_wf(old(tests)@, tests@),
                actions@.len() == 1,
                actions@[0]@ == first,
                views(tests@) == all_pending(tv0, s0.tests.subrange(0, k as int)),
            decreases self.tests.len() - k,
        {
            let t = self.tests[k];
            let ghost before = tests@;
            set_pending(tests, t);
            proof {
                assert(views(tests@) =~= all_pending(tv0, s0.tests.subrange(0, k + 1))) by {
                    assert forall|j: int| 0 <= j < tv0.len() implies #[trigger] views(tests@)[j]
                        == all_pending(tv0, s0.tests.subrange(0, k + 1))[j] by {
                        lemma_prefix_contains(s0.tests, k as int, j as usize);
                        assert(views(before)[j] == before[j]@);
                        assert(views(tests@)[j] == tests@[j]@);
                        assert(s0.tests[k as int] == t);
                        if j != t {
                            assert(tests@[j] == before[j]);
                        }
                    }
                }
            }
            k = k + 1;
        }
        assert(s0.tests.subrange(0, s0.tests.len() as int) =~= s0.tests);
        self.state = ScenarioState::Idle;
        self.working_directory = working_directory.clone();
        let a = self.advance(index, tests, 0);
        let ghost before = actions_view(actions@);
        append_actions(&mut actions, a);
        assert(actions_view(actions@)[0] == before[0]);
        assert(before =~= seq![first]);
        (true, actions)
    }

    /// Stops the run: no new test is run.  A running support command is
    /// killed; the running test and every later one are skipped and the
    /// running test is stopped; the run is finished (unless it was idle or
    /// finished already) and the state becomes TestFinished.
    pub fn abort(&mut self, index: usize, tests: &mut Vec<Test>) -> (r: Vec<Action>)
        requires
            old(self).wf(old(tests).len() as nat),
        ensures
            final(self).wf(old(tests).len() as nat),
            final(self)@ == (ScenarioView { state: ScenarioState::TestFinished, ..old(self)@ }),
            final(tests).len() == old(tests).len(),
            tests_kept_wf(old(tests)@, final(tests)@),
            old(self)@.state is Idle || old(self)@.state is TestFinished ==> final(tests)@ == old(tests)@ && r@.len() == 0,
            old(self)@.state matches ScenarioState::Running(i) ==> forall|j: int|
                i <= j < old(self)@.tests.len() ==> (#[trigger] final(tests)@[old(self)@.tests[j] as int])@.state
                    == skipped_state(),
            !(old(self)@.state is Idle || old(self)@.state is TestFinished) ==> actions_view(r@).last()
                == scenario_says(
                old(self)@,
                "standard"@,
                BroadcastContentsView::Finish(
                    old(self)@.id,
                    finish_code(old(self)@.failures),
                    finish_reason(old(self)@.failures),
                ),
            ),
            ({
                let a = aborted(old(self)@, views(old(tests)@), index);
                &&& views(final(tests)@) == a.0
                &&& actions_view(r@) == a.1
            }),
    {
        let ghost tv0 = views(tests@);
        let ghost s0 = self@;
        let mut actions: Vec<Action> = Vec::new();
        match self.state {
            ScenarioState::Idle | ScenarioState::TestFinished => {},
            ScenarioState::PreStart | ScenarioState::PostFailure | ScenarioState::PostSuccess => {
                if self.has_support_cmd {
                    actions.push(Action::KillSupport(index));
                }
                let ghost av = actions_view(actions@);
                assert(av =~= (if s0.has_support_cmd {
                    seq![ActionView::KillSupport(index)]
                } else {
                    seq![]
                }));
                let a = self.finish_scenario(tests);
                append_actions(&mut actions, a);
            },
            ScenarioState::Running(i) => {
                let ghost tests0 = tests@;
                let t = self.tests[i];
                set_skipped(tests, t);
                let mut k: usize = i;
                proof {
                    assert(s0.tests.subrange(i as int, i as int) =~= Seq::<usize>::empty());
                    assert forall|j: int| 0 <= j < tv0.len() implies #[trigger] views(tests@)[j]
                        == (if s0.tests.subrange(i as int, i as int).contains(j as usize) || j == t {
                        made_skipped(tv0[j])
                    } else {
                        tv0[j]
                    }) by {
                        assert(views(tests@)[j] == tests@[j]@);
                        assert(tv0[j] == tests0[j]@);
                        if j != t {
                            assert(tests@[j] == tests0[j]);
                        }
                    }
                }
                while k < self.tests.len()
                    invariant
                        self.wf(old(tests).len() as nat),
                        self@ == old(self)@,
                        s0 == old(self)@,
                        tv0 == views(old(tests)@),
                        i <= k <= self.tests.len(),
                        t == s0.tests[i as int],
                        tests.len() == old(tests).len(),
                        tests_kept_wf(old(tests)@, tests@),
                        forall|j: int|
                            i <= j < k ==> (#[trigger] tests@[self@.tests[j] as int])@.state
                                == skipped_state(),
                        forall|j: int| 0 <= j < tv0.len() ==> #[trigger] views(tests@)[j]
                            == (if s0.tests.subrange(i as int, k as int).contains(j as usize) || j == t {
                            made_skipped(tv0[j])
                        } else {
                            tv0[j]
                        }),
                    decreases self.tests.len() - k,
                {
                    let u = self.tests[k];
                    let ghost before = tests@;
                    set_skipped(tests, u);
                    proof {
                        assert forall|j: int| 0 <= j < tv0.len() implies #[trigger] views(tests@)[j]
                            == (if s0.tests.subrange(i as int, k + 1).contains(j as usize) || j == t {
                            made_skipped(tv0[j])
                        } else {
                            tv0[j]
                        }) by {
                            lemma_range_contains(s0.tests, i as int, k as int, j as usize);
                            assert(views(tests@)[j] == tests@[j]@);
                            assert(views(before)[j] == before[j]@);
                            if j != u {
                                assert(tests@[j] == before[j]);
                            }
                        }
                    }
                    assert forall|j: int| i <= j < k + 1 implies (#[trigger] tests@[self@.tests[j]
                        as int])@.state == skipped_state() by {
                        if j < k {
                            assert(self@.tests[j] != u);
                            assert(tests@[self@.tests[j] as int] == before[self@.tests[j] as int]);
                        }
                    }
                    k = k + 1;
                }
                proof {
                    assert(s0.tests.subrange(i as int, s0.tests.len() as int)[0] == t);
                    assert(views(tests@) =~= skipped_from(tv0, s0.tests, i as int));
                    assert(views(tests@)[t as int] == tests@[t as int]@);
                }
                let a = tests[t].stop(t, &self.working_directory);
                append_actions(&mut actions, a);
                let ghost skipped = tests@;
                let a = self.finish_scenario(tests);
                proof {
                    assert forall|j: int| i <= j < self@.tests.len() implies (#[trigger] tests@[self@.tests[j]
                        as int])@.state == skipped_state() by {
                        assert(self@.tests.contains(self@.tests[j]));
                        assert(skipped[self@.tests[j] as int]@.state == skipped_state());
                    }
                }
                append_actions(&mut actions, a);
            },
        }
        self.state = ScenarioState::TestFinished;
        actions
    }

    /// Broadcasts a description of the scenario: its name, its description
    /// and its tests, in order.
    pub fn describe(&self, tests: &Vec<Test>) -> (r: Vec<Action>)
        requires
            self.wf(tests.len() as nat),
        ensures
            actions_view(r@) == scenario_description(self@, test_ids(tests@)),
    {
        let mut names: Vec<String> = Vec::new();
        let mut k: usize = 0;
        while k < self.tests.len()
            invariant
                self.wf(tests.len() as nat),
                k <= self.tests.len(),
                strings_view(names@) == self@.tests.subrange(0, k as int).map_values(
                    |t: usize| test_ids(tests@)[t as int],
                ),
            decreases self.tests.len() - k,
        {
            let t = self.tests[k];
            let ghost nv = strings_view(names@);
            names.push(own(tests[t].id()));
            assert(strings_view(names@) =~= nv.push(test_ids(tests@)[t as int]));
            assert(self@.tests.subrange(0, k + 1) =~= self@.tests.subrange(0, k as int).push(t));
            assert(strings_view(names@) =~= self@.tests.subrange(0, k + 1).map_values(
                |t: usize| test_ids(tests@)[t as int],
            ));
            k = k + 1;
        }
        assert(self@.tests.subrange(0, self@.tests.len() as int) =~= self@.tests);
        let mut r: Vec<Action> = Vec::new();
        r.push(
            broadcast(
                "standard",
                self.id.as_str(),
                "scenario",
                BroadcastMessageContents::Describe(
                    own("scenario"),
                    own("name"),
                    self.id.clone(),
                    self.name.clone(),
                ),
            ),
        );
        r.push(
            broadcast(
                "standard",
                self.id.as_str(),
                "scenario",
                BroadcastMessageContents::Describe(
                    own("scenario"),
                    own("description"),
                    self.id.clone(),
                    self.description.clone(),
                ),
            ),
        );
        r.push(
            broadcast(
                "standard",
                self.id.as_str(),
                "scenario",
                BroadcastMessageContents::Tests(self.id.clone(), names),
            ),
        );
        assert(actions_view(r@) =~= seq![r@[0]@, r@[1]@, r@[2]@]);
        r
    }
}

} // verus!
