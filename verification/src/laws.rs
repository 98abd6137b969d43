use vstd::prelude::*;

use crate::config::ConfigView;
use crate::controller::{BroadcastContentsView, BroadcastMessageView, ControlContentsView};
use crate::protocol::{json_fields, line_words, text_command, text_line_complete, trigger_command, JsonFieldView};
use crate::text::{escaped, escape_char, lowercase, tokens, unescaped, Separators};
use crate::types::scenario::loaded_scenario;
use crate::types::test::{stop_actions, TestType};
use crate::unitfile::get_spec;
use crate::graph::has_edge;
use crate::types::deps::deps_ok;
use crate::types::ordering::{lemma_order_result_keeps_order, order_result, test_index};
use crate::types::test::Test;
use crate::actions::ActionView;
use crate::types::ordering::order_wf;
use crate::types::scenario::{
    advanced, scenario_description, scenario_wf, scenario_says, check_state, finish_code, lemma_next_from_step, next_from, rank, succ_state, timed_out, view_states, ScenarioState,
    ScenarioView,
};
use crate::types::test::{test_says, test_step, TestEventView, TestStateView, TestView};
use crate::types::fields::Directives;
use crate::types::jig::loaded_jig;
use crate::testset::{
    descriptions, jig_ids_view, loaded_test_ids, put_by_id, tests_announcement,
    abort_result, jig_default, scenario_added, scenario_ids, scenarios_announcement, start_result,
    testset_says, TestSetView,
};

verus! {

/// The result code of a finished run is 200 exactly when no test failed;
/// otherwise it is 500 plus the number of failures.
pub proof fn law_finish_code(failures: u32)
    requires
        failures < u32::MAX - 500,
    ensures
        (finish_code(failures) == 200) == (failures == 0),
        failures > 0 ==> finish_code(failures) == failures + 500,
{
}

/// A scenario's tests run in an order that keeps both the order in which
/// they are listed and their dependencies: each listed test comes after the
/// one listed before it, and each test comes after every test it depends on
/// (every edge of the scenario's graph goes forwards).
pub proof fn law_scenario_order_keeps_list_and_dependencies(tv: Seq<Test>, nv: Seq<Seq<char>>)
    requires
        order_result(tv, nv) is Ok,
    ensures
        ({
            let edges = (order_result(tv, nv)->Ok_0).0;
            let order = (order_result(tv, nv)->Ok_0).1;
            &&& forall|k: int, i: int|
                1 <= k < nv.len() && 0 <= i < order.len() && #[trigger] order[i] == test_index(tv, #[trigger] nv[k]) as usize
                    ==> exists|j: int| 0 <= j < i && order[j] == test_index(tv, nv[k - 1]) as usize
            &&& forall|i: int, p: usize|
                0 <= i < order.len() && #[trigger] has_edge(edges, p, order[i]) ==> exists|j: int|
                    0 <= j < i && order[j] == p
        }),
{
    lemma_order_result_keeps_order(tv, nv);
    let edges = (order_result(tv, nv)->Ok_0).0;
    let order = (order_result(tv, nv)->Ok_0).1;
    assert forall|k: int, i: int|
        1 <= k < nv.len() && 0 <= i < order.len() && #[trigger] order[i] == test_index(tv, #[trigger] nv[k]) as usize
        implies exists|j: int| 0 <= j < i && order[j] == test_index(tv, nv[k - 1]) as usize by {
        assert(has_edge(edges, test_index(tv, nv[k - 1]) as usize, test_index(tv, nv[k]) as usize));
        assert(has_edge(edges, test_index(tv, nv[k - 1]) as usize, order[i]));
    }
}

/// A run moves from `cur` to the first later state that may be entered,
/// and never back: the opening command only where there is one, the tests
/// in turn (see `law_test_runs_only_when_ready`), then the closing command
/// for success where no test failed or for failure where one did, where
/// that command exists, then the end.  Leaving Idle clears the failures.
pub proof fn law_scenario_step(
    s: ScenarioView,
    failures: u32,
    tv: Seq<TestView>,
    cur: ScenarioState,
    elapsed: u64,
)
    requires
        1 <= s.tests.len() <= usize::MAX,
        cur matches ScenarioState::Running(i) ==> i < s.tests.len(),
    ensures
        ({
            let n = next_from(s, failures, tv, cur, elapsed);
            &&& n.0 is TestFinished || rank(n.0, s.tests.len()) > rank(cur, s.tests.len())
            &&& !(n.0 is Idle)
            &&& n.1 == (if cur is Idle { 0 } else { failures })
            &&& n.0 is PreStart ==> s.exec_start is Some
            &&& n.0 is PostSuccess ==> s.exec_stop_success is Some && n.1 == 0
            &&& n.0 is PostFailure ==> s.exec_stop_failure is Some && n.1 > 0
        }),
    decreases s.tests.len() + 3 - rank(cur, s.tests.len()),
{
    let f1: u32 = if cur is Idle { 0 } else { failures };
    let next = succ_state(cur, s.tests.len(), f1);
    let tv1 = if cur is Idle {
        crate::types::scenario::all_pending(tv, s.tests)
    } else {
        tv
    };
    let c = check_state(s, tv1, next, elapsed);
    lemma_next_from_step(s, failures, tv, cur, elapsed);
    if !(c.0 || next is TestFinished) {
        law_scenario_step(s, f1, c.1, next, elapsed);
    }
}

/// The next state of a run is the first one, in the order of `succ_state`,
/// that may be entered: the state after `cur` is taken where the check of
/// `Scenario::is_state_okay` lets it be entered (or where it is the end);
/// where the check refuses it, the search goes on from that state, with the
/// tests as the check left them (a test whose requirements failed is
/// skipped) and after what the check broadcast.
pub proof fn law_next_state_is_first_accepted(
    s: ScenarioView,
    failures: u32,
    tv: Seq<TestView>,
    cur: ScenarioState,
    elapsed: u64,
)
    requires
        1 <= s.tests.len() <= usize::MAX,
        cur matches ScenarioState::Running(i) ==> i < s.tests.len(),
    ensures
        ({
            let f1: u32 = if cur is Idle { 0 } else { failures };
            let tv1 = if cur is Idle {
                crate::types::scenario::all_pending(tv, s.tests)
            } else {
                tv
            };
            let a1: Seq<ActionView> = if cur is Idle {
                seq![scenario_says(s, "standard"@, BroadcastContentsView::Start(s.id))]
            } else {
                seq![]
            };
            let next = succ_state(cur, s.tests.len(), f1);
            let c = check_state(s, tv1, next, elapsed);
            let n = next_from(s, failures, tv, cur, elapsed);
            &&& (c.0 || next is TestFinished) ==> n == (next, f1, c.1, a1 + c.2)
            &&& !(c.0 || next is TestFinished) ==> {
                let m = next_from(s, f1, c.1, next, elapsed);
                n == (m.0, m.1, m.2, a1 + c.2 + m.3)
            }
        }),
{
    lemma_next_from_step(s, failures, tv, cur, elapsed);
}

/// The first position of the scenario's list that a search from `cur` may
/// enter: the first test from Idle or the opening command, the next one
/// from a test.
pub open spec fn first_position(cur: ScenarioState, count: nat) -> int {
    match cur {
        ScenarioState::Idle | ScenarioState::PreStart => 0,
        ScenarioState::Running(i) => i + 1,
        _ => count as int,
    }
}

/// The search for the next state leaves the tests of the positions before
/// `first_position(cur, s.tests.len())` as they are, and keeps the length of the tests.
proof fn lemma_search_keeps_earlier_tests(
    s: ScenarioView,
    failures: u32,
    tv: Seq<TestView>,
    cur: ScenarioState,
    elapsed: u64,
)
    requires
        1 <= s.tests.len() <= usize::MAX,
        cur matches ScenarioState::Running(i) ==> i < s.tests.len(),
        !(cur is Idle),
        order_wf(s.tests, tv.len()),
    ensures
        next_from(s, failures, tv, cur, elapsed).2.len() == tv.len(),
        forall|j: int|
            0 <= j < first_position(cur, s.tests.len()) && j < s.tests.len() ==> next_from(s, failures, tv, cur, elapsed).2[
                #[trigger] s.tests[j] as int] == tv[s.tests[j] as int],
    decreases s.tests.len() + 3 - rank(cur, s.tests.len()),
{
    let next = succ_state(cur, s.tests.len(), failures);
    let c = check_state(s, tv, next, elapsed);
    lemma_next_from_step(s, failures, tv, cur, elapsed);
    if let ScenarioState::Running(m) = next {
        assert forall|j: int| 0 <= j < first_position(cur, s.tests.len()) && j < s.tests.len() implies c.1[
            #[trigger] s.tests[j] as int] == tv[s.tests[j] as int] by {
            assert(j < m);
            assert(s.tests[j] != s.tests[m as int]);
        }
    }
    if !(c.0 || next is TestFinished) {
        lemma_search_keeps_earlier_tests(s, failures, c.1, next, elapsed);
        assert(first_position(cur, s.tests.len()) <= first_position(next, s.tests.len()));
    }
}

/// Where the search enters a test, each test listed between the one it
/// started after and the one entered is no longer pending: it had run, or
/// its requirements had failed and it was skipped.  Past the scenario's
/// time, no test is entered.
proof fn lemma_search_passes_no_ready_test(
    s: ScenarioView,
    failures: u32,
    tv: Seq<TestView>,
    cur: ScenarioState,
    elapsed: u64,
)
    requires
        1 <= s.tests.len() <= usize::MAX,
        cur matches ScenarioState::Running(i) ==> i < s.tests.len(),
        order_wf(s.tests, tv.len()),
    ensures
        ({
            let n = next_from(s, failures, tv, cur, elapsed);
            &&& n.2.len() == tv.len()
            &&& timed_out(s.timeout, elapsed) ==> !(n.0 is Running)
            &&& n.0 matches ScenarioState::Running(k) ==> forall|j: int|
                first_position(cur, s.tests.len()) <= j < k ==> !(n.2[#[trigger] s.tests[j] as int].state is Pending)
        }),
    decreases s.tests.len() + 3 - rank(cur, s.tests.len()),
{
    let f1: u32 = if cur is Idle { 0 } else { failures };
    let tv1 = if cur is Idle {
        crate::types::scenario::all_pending(tv, s.tests)
    } else {
        tv
    };
    let next = succ_state(cur, s.tests.len(), f1);
    let c = check_state(s, tv1, next, elapsed);
    lemma_next_from_step(s, failures, tv, cur, elapsed);
    assert(tv1.len() == tv.len());
    assert(c.1.len() == tv.len());
    if !(c.0 || next is TestFinished) {
        lemma_search_passes_no_ready_test(s, f1, c.1, next, elapsed);
        let n = next_from(s, f1, c.1, next, elapsed);
        if let ScenarioState::Running(m) = next {
            if !timed_out(s.timeout, elapsed) {
                assert(!(c.1[s.tests[m as int] as int].state is Pending));
                lemma_search_keeps_earlier_tests(s, f1, c.1, next, elapsed);
                assert(n.2[s.tests[m as int] as int] == c.1[s.tests[m as int] as int]);
            }
        }
    }
}

/// A step of a run that enters a test (see `Scenario::advance`, whose
/// result is `advanced`) enters the first test of the scenario's order,
/// after the one that ran, that may run: the scenario has time left, the
/// test was pending and every test it requires passed or runs when the
/// search reached it (the tests as `next_from` leaves them), and every
/// test listed between is no longer pending — it had run, or was skipped
/// because a requirement failed.
pub proof fn law_advance_enters_first_ready_test(s: ScenarioView, tv: Seq<TestView>, index: usize, elapsed: u64)
    requires
        scenario_wf(s, tv.len()),
        s.tests.len() <= usize::MAX,
        !(s.state is TestFinished),
    ensures
        ({
            let a = advanced(s, tv, index, elapsed);
            let n = next_from(s, s.failures, tv, s.state, elapsed);
            a.0.state matches ScenarioState::Running(k) ==> {
                let t = s.tests[k as int];
                &&& first_position(s.state, s.tests.len()) <= k < s.tests.len()
                &&& !timed_out(s.timeout, elapsed)
                &&& n.2[t as int].state is Pending
                &&& deps_ok(s.edges, view_states(n.2), t)
                &&& forall|j: int|
                    first_position(s.state, s.tests.len()) <= j < k ==> !(a.1[#[trigger] s.tests[j] as int].state is Pending)
            }
        }),
{
    let n = next_from(s, s.failures, tv, s.state, elapsed);
    law_test_runs_only_when_ready(s, s.failures, tv, s.state, elapsed);
    law_scenario_step(s, s.failures, tv, s.state, elapsed);
    lemma_search_passes_no_ready_test(s, s.failures, tv, s.state, elapsed);
    if let ScenarioState::Running(k) = n.0 {
        let t = s.tests[k as int];
        assert(advanced(s, tv, index, elapsed).1 == n.2.update(
            t as int,
            crate::types::test::started(n.2[t as int], s.working_directory),
        ));
        assert forall|j: int| first_position(s.state, s.tests.len()) <= j < k implies !(advanced(s, tv, index, elapsed).1[
            #[trigger] s.tests[j] as int].state is Pending) by {
            assert(s.tests[j] != t);
            assert(!(n.2[s.tests[j] as int].state is Pending));
        }
    }
}

/// A run enters a test only while the scenario has time left, only where
/// the test is pending, and only where every test it requires (directly or
/// through others) passed or is running.
pub proof fn law_test_runs_only_when_ready(
    s: ScenarioView,
    failures: u32,
    tv: Seq<TestView>,
    cur: ScenarioState,
    elapsed: u64,
)
    requires
        1 <= s.tests.len() <= usize::MAX,
        cur matches ScenarioState::Running(i) ==> i < s.tests.len(),
    ensures
        ({
            let n = next_from(s, failures, tv, cur, elapsed);
            n.0 matches ScenarioState::Running(i) ==> {
                let t = s.tests[i as int];
                &&& i < s.tests.len()
                &&& !timed_out(s.timeout, elapsed)
                &&& n.2[t as int].state is Pending
                &&& deps_ok(s.edges, view_states(n.2), t)
            }
        }),
    decreases s.tests.len() + 3 - rank(cur, s.tests.len()),
{
    let f1: u32 = if cur is Idle { 0 } else { failures };
    let next = succ_state(cur, s.tests.len(), f1);
    let tv1 = if cur is Idle {
        crate::types::scenario::all_pending(tv, s.tests)
    } else {
        tv
    };
    let c = check_state(s, tv1, next, elapsed);
    lemma_next_from_step(s, failures, tv, cur, elapsed);
    if !(c.0 || next is TestFinished) {
        law_test_runs_only_when_ready(s, f1, c.1, next, elapsed);
    }
}

/// Selecting a loaded scenario and then starting a run without naming one
/// does exactly what starting that scenario by name does.
pub proof fn law_selected_scenario_starts(v: TestSetView, n: Seq<char>)
    requires
        scenario_ids(v.scenarios).contains(n),
        v.scenarios.len() <= usize::MAX,
    ensures
        start_result(
            TestSetView { scenario: Some(scenario_ids(v.scenarios).index_of(n) as usize), ..v },
            None,
        ) == start_result(v, Some(n)),
{
    let k = scenario_ids(v.scenarios).index_of(n);
    assert(0 <= k < v.scenarios.len());
    let v1 = TestSetView { scenario: Some(k as usize), ..v };
    assert(v1.scenarios == v.scenarios);
    assert(v1.tests == v.tests);
}

/// Loading a directory: where the scenario added is the default of the jig
/// in use, it becomes the scenario in use and is announced first; the
/// announcement that ends the load then lists every loaded scenario.
pub proof fn law_default_scenario_is_selected_and_announced(v: TestSetView, id: Seq<char>, s: ScenarioView)
    requires
        jig_default(v) == Some(id),
        s.id == id,
    ensures
        ({
            let (v1, a) = scenario_added(v, id, s);
            &&& scenario_ids(v1.scenarios).contains(id)
            &&& v1.scenario == Some(scenario_ids(v1.scenarios).index_of(id) as usize)
            &&& a[0] == testset_says("standard"@, BroadcastContentsView::Scenario(id))
            &&& scenarios_announcement(v1) == seq![
                testset_says("standard"@, BroadcastContentsView::Scenarios(scenario_ids(v1.scenarios))),
            ]
        }),
{
    let ids = scenario_ids(v.scenarios);
    let v1 = scenario_added(v, id, s).0;
    if ids.contains(id) {
        let k = ids.index_of(id);
        assert(scenario_ids(v1.scenarios)[k] == id);
    } else {
        assert(scenario_ids(v1.scenarios)[v.scenarios.len() as int] == id);
    }
}

/// Loading a directory whose first jig names a default scenario: once the
/// jig is loaded (it becomes the jig in use) and, later in the same load,
/// that scenario is added, the scenario is the one in use, and the load
/// announces, in this order: that scenario, its description, the list of
/// every loaded scenario (see `TestSet::announce_scenarios`), each
/// scenario's description, then again the description of the scenario in
/// use.  `v1` is the test set at the time the scenario is added: what was
/// loaded after the jig left the jigs and the jig in use as `load_jig` made
/// them.
pub proof fn law_first_jig_default_scenario_load(
    v0: TestSetView,
    jig_id: Seq<char>,
    jig_unit: Directives,
    v1: TestSetView,
    s: ScenarioView,
)
    requires
        v0.jig is None,
        v0.jigs.len() < usize::MAX,
        v1.scenarios.len() < usize::MAX,
        loaded_jig(jig_id, jig_unit).default_scenario == Some(s.id),
        v1.jigs == put_by_id(v0.jigs, jig_ids_view(v0.jigs), jig_id, loaded_jig(jig_id, jig_unit)),
        v1.jig == Some(jig_ids_view(v1.jigs).index_of(jig_id) as usize),
    ensures
        ({
            let (v2, a) = scenario_added(v1, s.id, s);
            let ids = loaded_test_ids(v1.tests);
            let k = scenario_ids(v2.scenarios).index_of(s.id);
            &&& 0 <= k < v2.scenarios.len()
            &&& v2.scenarios[k] == s
            &&& v2.scenario == Some(k as usize)
            &&& v2.tests == v1.tests
            &&& a + (scenarios_announcement(v2) + descriptions(v2.scenarios, ids) + tests_announcement(v2, None))
                == seq![testset_says("standard"@, BroadcastContentsView::Scenario(s.id))]
                + scenario_description(s, ids) + seq![
                testset_says("standard"@, BroadcastContentsView::Scenarios(scenario_ids(v2.scenarios))),
            ] + descriptions(v2.scenarios, ids) + scenario_description(s, ids)
        }),
{
    let old_ids = jig_ids_view(v0.jigs);
    let j = loaded_jig(jig_id, jig_unit);
    if old_ids.contains(jig_id) {
        let k = old_ids.index_of(jig_id);
        assert(jig_ids_view(v1.jigs) =~= old_ids);
        assert(v1.jigs[k] == j);
    } else {
        assert(jig_ids_view(v1.jigs) =~= old_ids.push(jig_id));
        assert(jig_ids_view(v1.jigs)[v0.jigs.len() as int] == jig_id);
        assert(jig_ids_view(v1.jigs).index_of(jig_id) == v0.jigs.len());
    }
    let jk = jig_ids_view(v1.jigs).index_of(jig_id);
    assert(0 <= jk < v1.jigs.len() && v1.jigs[jk] == j);
    assert(jk as usize as int == jk);
    assert(jig_default(v1) == Some(s.id));
    let sids = scenario_ids(v1.scenarios);
    let v2 = scenario_added(v1, s.id, s).0;
    if sids.contains(s.id) {
        let k = sids.index_of(s.id);
        assert(scenario_ids(v2.scenarios) =~= sids);
        assert(v2.scenarios[k] == s);
    } else {
        assert(scenario_ids(v2.scenarios) =~= sids.push(s.id));
        assert(scenario_ids(v2.scenarios)[v1.scenarios.len() as int] == s.id);
        assert(scenario_ids(v2.scenarios).index_of(s.id) == v1.scenarios.len());
    }
    assert(loaded_test_ids(v2.tests) == loaded_test_ids(v1.tests));
}

/// After a run is stopped, the next start of the scenario in use begins a
/// new run.
pub proof fn law_start_after_stop(v: TestSetView)
    requires
        v.scenario matches Some(k) && k < v.scenarios.len(),
    ensures
        start_result(abort_result(v).0, None).0,
{
}

/// The last line a simple test prints is its result: when it then ends
/// well, it passes with that line as its message; when it ends badly, it
/// fails with the reason given.
pub proof fn law_last_line_is_result(t: TestView, index: usize, stream: Seq<char>, line: Seq<char>, reason: Seq<char>)
    ensures
        ({
            let t1 = test_step(t, index, TestEventView::Output(stream, line)).0;
            let (t2, acts) = test_step(t1, index, TestEventView::Finished(Ok(())));
            &&& t2.state == TestStateView::Pass
            &&& acts[0] == test_says(t, "result"@, BroadcastContentsView::Pass(t.id, line))
        }),
        ({
            let t1 = test_step(t, index, TestEventView::Output(stream, line)).0;
            let (t2, acts) = test_step(t1, index, TestEventView::Finished(Err(reason)));
            &&& t2.state == TestStateView::Fail(reason)
            &&& acts[0] == test_says(t, "result"@, BroadcastContentsView::Fail(t.id, reason))
        }),
{
}

/// A daemon that exits while it should run has failed; one that exits once
/// it had come up and no longer ran (it was stopped, or had failed) passes;
/// the exit of a daemon that never came up says nothing.  Only the exit of a
/// running daemon changes it.
pub proof fn law_daemon_exit(t: TestView, index: usize, how: Seq<char>)
    ensures
        t.state is Running ==> test_step(t, index, TestEventView::DaemonExited(how)).0.state is Fail
            && test_step(t, index, TestEventView::DaemonExited(how)).1 == seq![
            test_says(t, "standard"@, BroadcastContentsView::Fail(t.id, "Daemon exited: "@ + how)),
        ],
        !(t.state is Running) ==> test_step(t, index, TestEventView::DaemonExited(how)).0 == t,
        !(t.state is Running) && t.came_up ==> test_step(t, index, TestEventView::DaemonExited(how)).1
            == seq![test_says(t, "standard"@, BroadcastContentsView::Pass(t.id, "Okay"@))],
        !(t.state is Running) && !t.came_up ==> test_step(t, index, TestEventView::DaemonExited(how)).1
            == Seq::<crate::actions::ActionView>::empty(),
{
}

/// An escaped message holds no tab and no line feed (and no carriage
/// return where those are escaped too): it stays one field of one line.
pub proof fn law_escaped_one_field(s: Seq<char>, with_cr: bool)
    ensures
        forall|i: int|
            0 <= i < escaped(s, with_cr).len() ==> #[trigger] escaped(s, with_cr)[i] != '\t'
                && escaped(s, with_cr)[i] != '\n' && (with_cr ==> escaped(s, with_cr)[i] != '\r'),
    decreases s.len(),
{
    if s.len() > 0 {
        let rest = escaped(s.drop_last(), with_cr);
        let last = escape_char(s.last(), with_cr);
        law_escaped_one_field(s.drop_last(), with_cr);
        assert forall|i: int|
            0 <= i < escaped(s, with_cr).len() implies #[trigger] escaped(s, with_cr)[i] != '\t'
            && escaped(s, with_cr)[i] != '\n' && (with_cr ==> escaped(s, with_cr)[i] != '\r') by {
            if i < rest.len() {
                assert(escaped(s, with_cr)[i] == rest[i]);
            } else {
                assert(escaped(s, with_cr)[i] == last[i - rest.len()]);
            }
        }
    }
}

/// Verbs are case-insensitive: two lines from an interface whose words
/// differ only in the case of the verb ask for the same (where the lines
/// can be read at all).
pub proof fn law_verbs_case_insensitive(a: Seq<char>, b: Seq<char>)
    requires
        line_words(a).len() >= 1,
        text_line_complete(a),
        line_words(a).len() == line_words(b).len(),
        lowercase(line_words(a)[0]) == lowercase(line_words(b)[0]),
        line_words(a).drop_first() == line_words(b).drop_first(),
    ensures
        text_command(a) == text_command(b),
{
    let wa = line_words(a);
    let wb = line_words(b);
    if wa.len() >= 2 {
        assert(wa[1] == wa.drop_first()[0]);
        assert(wb[1] == wb.drop_first()[0]);
    }
}

/// Trigger verbs are case-insensitive too: two lines from a trigger whose
/// words differ only in the case of the verb ask for the same.
pub proof fn law_trigger_verbs_case_insensitive(a: Seq<char>, b: Seq<char>)
    requires
        line_words(a).len() >= 1,
        line_words(a).len() == line_words(b).len(),
        lowercase(line_words(a)[0]) == lowercase(line_words(b)[0]),
        line_words(a).drop_first() == line_words(b).drop_first(),
    ensures
        trigger_command(a) == trigger_command(b),
{
}

/// TESTS and START keep their argument: a line whose first word is
/// `tests` (in any case) asks for the tests of the scenario its second
/// word names (unescaped, in lower case), and of the scenario in use where
/// it has no second word; the same holds of `start`, which starts that
/// scenario.  SCENARIO selects the scenario its second word names.
pub proof fn law_tests_and_start_keep_their_argument(line: Seq<char>)
    requires
        tokens(line, Separators::Whitespace).len() >= 1,
    ensures
        ({
            let ws = tokens(line, Separators::Whitespace);
            let verb = lowercase(unescaped(ws[0]));
            let arg: Option<Seq<char>> = if ws.len() >= 2 {
                Some(lowercase(unescaped(ws[1])))
            } else {
                None
            };
            &&& verb == "tests"@ ==> text_command(line) == Some(ControlContentsView::GetTests(arg))
            &&& verb == "start"@ ==> text_command(line) == Some(ControlContentsView::StartScenario(arg))
            &&& verb == "scenario"@ && ws.len() >= 2 ==> text_command(line) == Some(
                ControlContentsView::Scenario(lowercase(unescaped(ws[1]))),
            )
        }),
{
    let ws = tokens(line, Separators::Whitespace);
    let words = line_words(line);
    assert(words.len() == ws.len());
    assert(words[0] == unescaped(ws[0]));
    if ws.len() >= 2 {
        assert(words[1] == unescaped(ws[1]));
    }
    reveal_strlit("tests");
    reveal_strlit("start");
    reveal_strlit("scenario");
    reveal_strlit("scenarios");
    assert("tests"@[0] == 't' && "start"@[0] == 's' && "scenario"@[0] == 's' && "scenarios"@[0] == 's');
    assert("start"@.len() == 5 && "scenario"@.len() == 8 && "scenarios"@.len() == 9);
    assert("tests"@ != "scenario"@ && "tests"@ != "scenarios"@);
    assert("start"@ != "scenario"@ && "start"@ != "scenarios"@ && "start"@ != "tests"@);
}

/// The `type` member of a broadcast's JSON record: the name of its kind.
pub open spec fn json_type(m: BroadcastMessageView) -> JsonFieldView {
    json_fields(m)[5].1
}

/// Every JSON record an interface receives names the kind of its
/// broadcast in its `type` member, the first member after the five of the
/// header (none of which is called `type`); a pass, a failure and a skip
/// then give the test and the reason.
pub proof fn law_json_record_names_its_kind(m: BroadcastMessageView)
    ensures
        json_fields(m).len() >= 6,
        forall|i: int| 0 <= i < 5 ==> json_fields(m)[i].0 != "type"@,
        json_fields(m)[5].0 == "type"@,
        m.message matches BroadcastContentsView::Pass(t, r) ==> json_fields(m).len() == 8
            && json_fields(m)[5] == ("type"@, JsonFieldView::Str("pass"@))
            && json_fields(m)[6] == ("test"@, JsonFieldView::Str(t))
            && json_fields(m)[7] == ("reason"@, JsonFieldView::Str(r)),
        m.message matches BroadcastContentsView::Fail(t, r) ==> json_fields(m).len() == 8
            && json_fields(m)[5] == ("type"@, JsonFieldView::Str("fail"@))
            && json_fields(m)[6] == ("test"@, JsonFieldView::Str(t))
            && json_fields(m)[7] == ("reason"@, JsonFieldView::Str(r)),
        m.message matches BroadcastContentsView::Skip(t, r) ==> json_fields(m).len() == 8
            && json_fields(m)[5] == ("type"@, JsonFieldView::Str("skip"@))
            && json_fields(m)[6] == ("test"@, JsonFieldView::Str(t))
            && json_fields(m)[7] == ("reason"@, JsonFieldView::Str(r)),
        m.message matches BroadcastContentsView::Running(t) ==> json_fields(m).len() == 7
            && json_type(m) == JsonFieldView::Str("running"@)
            && json_fields(m)[6] == ("test"@, JsonFieldView::Str(t)),
        m.message matches BroadcastContentsView::Start(sc) ==> json_fields(m).len() == 7
            && json_type(m) == JsonFieldView::Str("start"@)
            && json_fields(m)[6] == ("scenario"@, JsonFieldView::Str(sc)),
        m.message matches BroadcastContentsView::Finish(sc, code, r) ==> json_fields(m).len() == 9
            && json_type(m) == JsonFieldView::Str("finish"@)
            && json_fields(m)[6] == ("scenario"@, JsonFieldView::Str(sc))
            && json_fields(m)[7] == ("result"@, JsonFieldView::Num(code as u64))
            && json_fields(m)[8] == ("reason"@, JsonFieldView::Str(r)),
        m.message matches BroadcastContentsView::Log(l) ==> json_fields(m).len() == 7
            && json_type(m) == JsonFieldView::Str("log"@)
            && json_fields(m)[6] == ("message"@, JsonFieldView::Str(l)),
        m.message is Describe ==> json_type(m) == JsonFieldView::Str("describe"@),
        m.message is Scenario ==> json_type(m) == JsonFieldView::Str("scenario"@),
        m.message is Scenarios ==> json_type(m) == JsonFieldView::Str("scenarios"@),
        m.message is Jig ==> json_type(m) == JsonFieldView::Str("jig"@),
        m.message is Shutdown ==> json_type(m) == JsonFieldView::Str("shutdown"@),
        m.message is Tests ==> json_type(m) == JsonFieldView::Str("tests"@),
{
    reveal_strlit("type");
    reveal_strlit("message_class");
    reveal_strlit("unit_id");
    reveal_strlit("unit_type");
    reveal_strlit("unix_time");
    reveal_strlit("unix_time_nsecs");
    let f = json_fields(m);
    assert(f[0].0 == "message_class"@);
    assert(f[1].0 == "unit_id"@);
    assert(f[2].0 == "unit_type"@);
    assert(f[3].0 == "unix_time"@);
    assert(f[4].0 == "unix_time_nsecs"@);
}

/// The names `pass`, `fail` and `skip` differ from each other and from the
/// names of the other kinds of broadcast.
proof fn lemma_kind_names_differ()
    ensures
        ({
            let others = seq![
                "running"@, "start"@, "finish"@, "log"@, "describe"@, "scenario"@, "scenarios"@, "jig"@,
                "shutdown"@, "tests"@,
            ];
            &&& "pass"@ != "fail"@ && "pass"@ != "skip"@ && "fail"@ != "skip"@
            &&& forall|i: int| 0 <= i < others.len() ==> "pass"@ != others[i] && "fail"@ != others[i] && "skip"@ != others[i]
        }),
{
    reveal_strlit("pass");
    reveal_strlit("fail");
    reveal_strlit("skip");
    reveal_strlit("running");
    reveal_strlit("start");
    reveal_strlit("finish");
    reveal_strlit("log");
    reveal_strlit("describe");
    reveal_strlit("scenario");
    reveal_strlit("scenarios");
    reveal_strlit("jig");
    reveal_strlit("shutdown");
    reveal_strlit("tests");
    let others = seq![
        "running"@, "start"@, "finish"@, "log"@, "describe"@, "scenario"@, "scenarios"@, "jig"@,
        "shutdown"@, "tests"@,
    ];
    assert("pass"@[0] == 'p' && "fail"@[0] == 'f' && "skip"@[0] == 's');
    assert("pass"@.len() == 4 && "fail"@.len() == 4 && "skip"@.len() == 4);
    assert forall|i: int| 0 <= i < others.len() implies "pass"@ != others[i] && "fail"@ != others[i] && "skip"@
        != others[i] by {
        assert(others[i].len() != 4);
    }
}

/// A JSON record whose `type` is `pass`, `fail` or `skip` is that of a
/// pass, a failure or a skip: no other kind of broadcast uses these names.
pub proof fn law_json_type_tells_pass_fail_skip(m: BroadcastMessageView)
    ensures
        json_type(m) == JsonFieldView::Str("pass"@) ==> m.message is Pass,
        json_type(m) == JsonFieldView::Str("fail"@) ==> m.message is Fail,
        json_type(m) == JsonFieldView::Str("skip"@) ==> m.message is Skip,
{
    law_json_record_names_its_kind(m);
    lemma_kind_names_differ();
    let others = seq![
        "running"@, "start"@, "finish"@, "log"@, "describe"@, "scenario"@, "scenarios"@, "jig"@,
        "shutdown"@, "tests"@,
    ];
    assert(others[0] == "running"@ && others[1] == "start"@ && others[2] == "finish"@ && others[3] == "log"@
        && others[4] == "describe"@ && others[5] == "scenario"@ && others[6] == "scenarios"@ && others[7] == "jig"@
        && others[8] == "shutdown"@ && others[9] == "tests"@);
}

/// A pass, a failure and a skip are told apart in JSON: two records whose
/// `type` members agree are of the same one of these kinds.
pub proof fn law_json_pass_fail_skip_distinct(a: BroadcastMessageView, b: BroadcastMessageView)
    requires
        json_type(a) == json_type(b),
    ensures
        (a.message is Pass) == (b.message is Pass),
        (a.message is Fail) == (b.message is Fail),
        (a.message is Skip) == (b.message is Skip),
{
    law_json_record_names_its_kind(a);
    law_json_record_names_its_kind(b);
    law_json_type_tells_pass_fail_skip(a);
    law_json_type_tells_pass_fail_skip(b);
}

/// A scenario's cleanup commands: after a successful run its
/// `ExecStopSuccess`, else its `ExecStop`; after a failed one its
/// `ExecStopFailure`, else its `ExecStopFail`, else its `ExecStop`.  So a
/// scenario that only has `ExecStop` runs it after either outcome.
pub proof fn law_scenario_cleanup_commands(id: Seq<char>, m: Directives, c: ConfigView, base: ScenarioView)
    ensures
        ({
            let s = loaded_scenario(id, m, c, base);
            let stop = get_spec(m, "Scenario"@, "ExecStop"@);
            &&& s.exec_stop_success == match get_spec(m, "Scenario"@, "ExecStopSuccess"@) {
                Some(x) => Some(x),
                None => stop,
            }
            &&& s.exec_stop_failure == match get_spec(m, "Scenario"@, "ExecStopFailure"@) {
                Some(x) => Some(x),
                None => match get_spec(m, "Scenario"@, "ExecStopFail"@) {
                    Some(x) => Some(x),
                    None => stop,
                },
            }
            &&& get_spec(m, "Scenario"@, "ExecStopSuccess"@) is None && get_spec(m, "Scenario"@, "ExecStopFailure"@)
                is None && get_spec(m, "Scenario"@, "ExecStopFail"@) is None ==> s.exec_stop_success == stop
                && s.exec_stop_failure == stop
        }),
{
}

/// Describing a loaded scenario gives, in this order, its display name
/// (the `Name` of its unit where it has one, else its id), its description
/// (empty where its unit gives none), and the ids of its tests in the
/// order they run.
pub proof fn law_scenario_description_gives_its_name(
    id: Seq<char>,
    m: Directives,
    c: ConfigView,
    base: ScenarioView,
    ids: Seq<Seq<char>>,
)
    ensures
        scenario_description(loaded_scenario(id, m, c, base), ids).len() == 3,
        scenario_description(loaded_scenario(id, m, c, base), ids)[1] == ActionView::Broadcast(
            "standard"@,
            id,
            "scenario"@,
            BroadcastContentsView::Describe(
                "scenario"@,
                "description"@,
                id,
                match get_spec(m, "Scenario"@, "Description"@) {
                    Some(d) => d,
                    None => Seq::<char>::empty(),
                },
            ),
        ),
        scenario_description(loaded_scenario(id, m, c, base), ids)[2] == ActionView::Broadcast(
            "standard"@,
            id,
            "scenario"@,
            BroadcastContentsView::Tests(id, Seq::new(base.tests.len(), |i: int| ids[base.tests[i] as int])),
        ),
        scenario_description(loaded_scenario(id, m, c, base), ids)[0] == ActionView::Broadcast(
            "standard"@,
            id,
            "scenario"@,
            BroadcastContentsView::Describe(
                "scenario"@,
                "name"@,
                id,
                match get_spec(m, "Scenario"@, "Name"@) {
                    Some(n) => n,
                    None => id,
                },
            ),
        ),
{
    let s = loaded_scenario(id, m, c, base);
    assert(s.tests.map_values(|t: usize| ids[t as int]) =~= Seq::new(
        base.tests.len(),
        |i: int| ids[base.tests[i] as int],
    ));
}

/// Stopping a simple test runs the cleanup command for its outcome: after
/// a pass its `ExecStopSuccess` (announced as such, with its time limit),
/// while it runs or after a failure its `ExecStopFailure`, and none while
/// it is pending or starting; a test that still has a process is killed
/// first.  A daemon is not stopped this way (see `Test::terminate`).
pub proof fn law_stop_runs_the_cleanup_for_the_outcome(t: TestView, index: usize, wd: Option<Seq<char>>)
    requires
        t.test_type == TestType::Simple,
    ensures
        ({
            let kill: Seq<ActionView> = if t.has_process {
                seq![ActionView::KillTest(index)]
            } else {
                seq![]
            };
            let (cmd, label, timeout) = match t.state {
                TestStateView::Pass => (t.exec_stop_success, "Running ExecStopSuccess: "@, t.exec_stop_success_timeout),
                _ => (t.exec_stop_failure, "Running ExecStopFailure: "@, t.exec_stop_failure_timeout),
            };
            &&& (t.state is Pending || t.state is Starting) ==> stop_actions(t, index, wd) == kill
            &&& !(t.state is Pending || t.state is Starting) ==> stop_actions(t, index, wd) == kill + match cmd {
                None => Seq::<ActionView>::empty(),
                Some(x) => seq![
                    ActionView::Broadcast(
                        "standard"@,
                        t.id,
                        "test"@,
                        BroadcastContentsView::Log(label + x),
                    ),
                    ActionView::RunCommand(x, wd, timeout),
                ],
            }
        }),
{
}

} // verus!
