use vstd::prelude::*;

use crate::actions::{actions_view, append_actions, broadcast, Action, ActionView};
use crate::config::{opt_view, Config, ConfigView};
use crate::controller::{BroadcastContentsView, BroadcastMessageContents};
use crate::text::{concat, str_eq, strings_view};
use crate::types::fields::own;
use crate::types::interface::{Interface, InterfaceView};
use crate::types::jig::{jig_description, jig_probe_passed, loaded_jig, Jig, JigError, JigView};
use crate::types::logger::{Logger, LoggerView};
use crate::types::trigger::{Trigger, TriggerView};
use crate::unitfile::{get_spec, has_section_spec};
use crate::types::fields::compatible_spec;
use crate::types::fields::Directives;
use crate::types::ordering::{ids_unique, loaded, order_result, ScenarioError, ScenarioErrorView};
use crate::graph::EdgeList;
use crate::types::scenario::{
    advanced, aborted, all_pending, finish_code, finish_reason, loaded_scenario, rank,
    scenario_tests_field,
    scenario_description, scenario_loadable, scenario_says, state_text, test_ids, views, Scenario,
    ScenarioState, ScenarioView,
};
use crate::types::test::{
    test_outcome, test_step, Test, TestError, TestErrorView, TestEvent, TestView,
};
use crate::unitfile::UnitFile;

verus! {

#[verifier::external_type_specification]
#[verifier::external_body]
pub struct ExIoError(std::io::Error);

#[derive(Debug)]
pub enum TestSetError {
    TestSetIoError(std::io::Error),
}

/// The commands that steer the test set.
#[derive(Debug)]
pub enum TestSetCommand {
    DescribeJig,
    AbortScenario,
    SetScenario(String),
    SetInterfaceHello(String, String),
    StartScenario(Option<String>),
    AdvanceScenario,
    AbortTests,
    SendScenarios,
    SendTests(Option<String>),
    Shutdown,
}

pub enum TestSetCommandView {
    DescribeJig,
    AbortScenario,
    SetScenario(Seq<char>),
    SetInterfaceHello(Seq<char>, Seq<char>),
    StartScenario(Option<Seq<char>>),
    AdvanceScenario,
    AbortTests,
    SendScenarios,
    SendTests(Option<Seq<char>>),
    Shutdown,
}

impl View for TestSetCommand {
    type V = TestSetCommandView;

    open spec fn view(&self) -> TestSetCommandView {
        match self {
            TestSetCommand::DescribeJig => TestSetCommandView::DescribeJig,
            TestSetCommand::AbortScenario => TestSetCommandView::AbortScenario,
            TestSetCommand::SetScenario(s) => TestSetCommandView::SetScenario(s@),
            TestSetCommand::SetInterfaceHello(a, b) => TestSetCommandView::SetInterfaceHello(
                a@,
                b@,
            ),
            TestSetCommand::StartScenario(s) => TestSetCommandView::StartScenario(opt_view(*s)),
            TestSetCommand::AdvanceScenario => TestSetCommandView::AdvanceScenario,
            TestSetCommand::AbortTests => TestSetCommandView::AbortTests,
            TestSetCommand::SendScenarios => TestSetCommandView::SendScenarios,
            TestSetCommand::SendTests(s) => TestSetCommandView::SendTests(opt_view(*s)),
            TestSetCommand::Shutdown => TestSetCommandView::Shutdown,
        }
    }
}


/// What the test set says: a broadcast of the test set unit.
pub open spec fn testset_says(class: Seq<char>, m: BroadcastContentsView) -> ActionView {
    ActionView::Broadcast(class, "testset"@, "testset"@, m)
}

/// A broadcast of the test set unit.
fn testset_broadcast(class: &str, m: BroadcastMessageContents) -> (r: Action)
    ensures
        r@ == testset_says(class@, m@),
{
    broadcast(class, "testset", "testset", m)
}


pub open spec fn scenarios_view(v: Seq<Scenario>) -> Seq<ScenarioView> {
    v.map_values(|s: Scenario| s@)
}

pub open spec fn jigs_view(v: Seq<Jig>) -> Seq<JigView> {
    v.map_values(|j: Jig| j@)
}

/// The ids of the loaded jigs, in the order they were loaded.
pub open spec fn jig_ids_view(v: Seq<JigView>) -> Seq<Seq<char>> {
    v.map_values(|j: JigView| j.id)
}

#[verifier::ext_equal]
pub struct TestSetView {
    pub tests: Seq<TestView>,
    pub scenarios: Seq<ScenarioView>,
    pub jigs: Seq<JigView>,
    pub loggers: Seq<LoggerView>,
    pub triggers: Seq<TriggerView>,
    pub interfaces: Seq<InterfaceView>,
    pub jig: Option<usize>,
    pub scenario: Option<usize>,
    pub aliases: Seq<(Seq<char>, Seq<char>)>,
    pub config: ConfigView,
}

/// Every unit known to the controller: the loaded tests, scenarios, jigs,
/// loggers, triggers and interfaces, the jig and the scenario in use, and
/// the names that tests answer to (their own and those they provide).
pub struct TestSet {
    tests: Vec<Test>,
    scenarios: Vec<Scenario>,
    jigs: Vec<Jig>,
    loggers: Vec<Logger>,
    triggers: Vec<Trigger>,
    interfaces: Vec<Interface>,
    jig: Option<usize>,
    scenario: Option<usize>,
    test_aliases: Vec<(String, String)>,
    config: Config,
}

impl View for TestSet {
    type V = TestSetView;

    closed spec fn view(&self) -> TestSetView {
        TestSetView {
            tests: views(self.tests@),
            scenarios: scenarios_view(self.scenarios@),
            jigs: jigs_view(self.jigs@),
            loggers: self.loggers@.map_values(|l: Logger| l@),
            triggers: self.triggers@.map_values(|t: Trigger| t@),
            interfaces: self.interfaces@.map_values(|i: Interface| i@),
            jig: self.jig,
            scenario: self.scenario,
            aliases: self.test_aliases@.map_values(|p: (String, String)| (p.0@, p.1@)),
            config: self.config@,
        }
    }
}

impl TestSet {
    /// The test set is well formed: every test and scenario is, over the
    /// loaded tests; the jig and scenario in use are loaded ones; no name is
    /// answered to by two tests.
    pub closed spec fn wf(&self) -> bool {
        &&& forall|i: int| 0 <= i < self.tests.len() ==> (#[trigger] self.tests@[i]).wf()
        &&& forall|i: int|
            0 <= i < self.scenarios.len() ==> (#[trigger] self.scenarios@[i]).wf(
                self.tests.len() as nat,
            )
        &&& self.jig matches Some(j) ==> j < self.jigs.len()
        &&& self.scenario matches Some(s) ==> s < self.scenarios.len()
        &&& alias_keys(self@.aliases).no_duplicates()
        &&& ids_unique(self.tests@)
        &&& forall|i: int| 0 <= i < self.tests.len() ==> alias_keys(self@.aliases).contains(
            #[trigger] self.tests@[i]@.id,
        )
        &&& aliases_ok(self.tests@, self@.aliases)
        &&& jig_ids_view(self@.jigs).no_duplicates()
        &&& scenario_ids(self@.scenarios).no_duplicates()
        &&& logger_ids(self@.loggers).no_duplicates()
        &&& trigger_ids(self@.triggers).no_duplicates()
        &&& interface_ids(self@.interfaces).no_duplicates()
    }

    /// An empty test set, with configuration `config`.
    pub fn new(config: Config) -> (r: TestSet)
        ensures
            r.wf(),
            r@ == (TestSetView {
                tests: seq![],
                scenarios: seq![],
                jigs: seq![],
                loggers: seq![],
                triggers: seq![],
                interfaces: seq![],
                jig: None,
                scenario: None,
                aliases: seq![],
                config: config@,
            }),
    {
        let r = TestSet {
            tests: Vec::new(),
            scenarios: Vec::new(),
            jigs: Vec::new(),
            loggers: Vec::new(),
            triggers: Vec::new(),
            interfaces: Vec::new(),
            jig: None,
            scenario: None,
            test_aliases: Vec::new(),
            config: config,
        };
        assert(r@.tests =~= seq![]);
        assert(r@.scenarios =~= seq![]);
        assert(r@.jigs =~= seq![]);
        assert(r@.loggers =~= seq![]);
        assert(r@.triggers =~= seq![]);
        assert(r@.interfaces =~= seq![]);
        assert(r@.aliases =~= seq![]);
        r
    }

    /// The configuration of the controller.
    pub fn config(&self) -> (r: &Config)
        ensures
            r@ == self@.config,
    {
        &self.config
    }

    /// The ids of the loaded jigs.
    pub fn jig_ids(&self) -> (r: Vec<String>)
        ensures
            strings_view(r@) == jig_ids_view(self@.jigs),
    {
        let mut r: Vec<String> = Vec::new();
        let mut i: usize = 0;
        while i < self.jigs.len()
            invariant
                i <= self.jigs.len(),
                strings_view(r@) == jig_ids_view(self@.jigs).take(i as int),
            decreases self.jigs.len() - i,
        {
            let ghost before = strings_view(r@);
            r.push(own(self.jigs[i].id()));
            assert(strings_view(r@) =~= before.push(self.jigs@[i as int]@.id));
            assert(jig_ids_view(self@.jigs).take(i + 1) =~= jig_ids_view(self@.jigs).take(
                i as int,
            ).push(self.jigs@[i as int]@.id));
            i = i + 1;
        }
        assert(jig_ids_view(self@.jigs).take(self.jigs.len() as int) =~= jig_ids_view(self@.jigs));
        r
    }
}

/// The names that tests answer to.
pub open spec fn alias_keys(a: Seq<(Seq<char>, Seq<char>)>) -> Seq<Seq<char>> {
    a.map_values(|p: (Seq<char>, Seq<char>)| p.0)
}

/// The test that answers to `name`, if any.
pub open spec fn alias_of(a: Seq<(Seq<char>, Seq<char>)>, name: Seq<char>) -> Option<Seq<char>> {
    if alias_keys(a).contains(name) {
        Some(a[alias_keys(a).index_of(name)].1)
    } else {
        None
    }
}

/// The names tests answer to are sound: each test's own id leads to
/// itself, and every name leads to a loaded test.
pub open spec fn aliases_ok(tests: Seq<Test>, a: Seq<(Seq<char>, Seq<char>)>) -> bool {
    &&& forall|i: int| 0 <= i < tests.len() ==> alias_of(a, #[trigger] tests[i]@.id) == Some(tests[i]@.id)
    &&& forall|x: Seq<char>| #[trigger] alias_keys(a).contains(x) ==> loaded(tests, alias_of(a, x).unwrap())
}

/// The names stay sound as the tests change, keeping their ids.
proof fn lemma_aliases_same_ids(old_tests: Seq<Test>, new_tests: Seq<Test>, a: Seq<(Seq<char>, Seq<char>)>)
    requires
        aliases_ok(old_tests, a),
        new_tests.len() == old_tests.len(),
        forall|i: int| 0 <= i < new_tests.len() ==> (#[trigger] new_tests[i])@.id == old_tests[i]@.id,
    ensures
        aliases_ok(new_tests, a),
{
    assert(test_ids(new_tests) =~= test_ids(old_tests));
    assert forall|i: int| 0 <= i < new_tests.len() implies alias_of(a, #[trigger] new_tests[i]@.id) == Some(
        new_tests[i]@.id,
    ) by {
        assert(old_tests[i]@.id == new_tests[i]@.id);
    }
}

/// `a` where `name` leads to `test`.
pub open spec fn set_alias(a: Seq<(Seq<char>, Seq<char>)>, name: Seq<char>, test: Seq<char>) -> Seq<
    (Seq<char>, Seq<char>),
> {
    if alias_keys(a).contains(name) {
        a.update(alias_keys(a).index_of(name), (name, test))
    } else {
        a.push((name, test))
    }
}

/// `a` where each of `names`, in turn, leads to `test`.
pub open spec fn add_aliases(a: Seq<(Seq<char>, Seq<char>)>, names: Seq<Seq<char>>, test: Seq<char>) -> Seq<
    (Seq<char>, Seq<char>),
>
    decreases names.len(),
{
    if names.len() == 0 {
        a
    } else {
        set_alias(add_aliases(a, names.drop_last(), test), names.last(), test)
    }
}

pub open spec fn scenario_ids(v: Seq<ScenarioView>) -> Seq<Seq<char>> {
    v.map_values(|s: ScenarioView| s.id)
}

pub open spec fn logger_ids(v: Seq<LoggerView>) -> Seq<Seq<char>> {
    v.map_values(|l: LoggerView| l.id)
}

pub open spec fn trigger_ids(v: Seq<TriggerView>) -> Seq<Seq<char>> {
    v.map_values(|t: TriggerView| t.id)
}

pub open spec fn interface_ids(v: Seq<InterfaceView>) -> Seq<Seq<char>> {
    v.map_values(|i: InterfaceView| i.id)
}

/// `s` with `v` in place of the unit of id `id` where there is one (`ids`
/// are the ids of `s`), else with `v` added at the end.
pub open spec fn put_by_id<V>(s: Seq<V>, ids: Seq<Seq<char>>, id: Seq<char>, v: V) -> Seq<V> {
    if ids.contains(id) {
        s.update(ids.index_of(id), v)
    } else {
        s.push(v)
    }
}

/// The entry of `name` among distinct keys is the one at its index.
proof fn lemma_alias_index(a: Seq<(Seq<char>, Seq<char>)>, name: Seq<char>, i: int)
    requires
        alias_keys(a).no_duplicates(),
        0 <= i < a.len(),
        a[i].0 == name,
    ensures
        alias_keys(a).contains(name),
        alias_keys(a).index_of(name) == i,
        alias_of(a, name) == Some(a[i].1),
{
    let keys = alias_keys(a);
    assert(keys[i] == name);
    let j = keys.index_of(name);
    assert(keys[j] == name);
}

/// Making `name` lead to `test` keeps the keys distinct, adds `name` to
/// them, and changes where `name` alone leads.
pub proof fn lemma_set_alias(a: Seq<(Seq<char>, Seq<char>)>, name: Seq<char>, test: Seq<char>, x: Seq<char>)
    requires
        alias_keys(a).no_duplicates(),
    ensures
        alias_keys(set_alias(a, name, test)).no_duplicates(),
        alias_keys(set_alias(a, name, test)).contains(x) == (alias_keys(a).contains(x) || x == name),
        alias_of(set_alias(a, name, test), x) == if x == name {
            Some(test)
        } else {
            alias_of(a, x)
        },
{
    let keys = alias_keys(a);
    let b = set_alias(a, name, test);
    if keys.contains(name) {
        let i = keys.index_of(name);
        assert(keys[i] == name);
        assert(alias_keys(b) =~= keys);
        lemma_alias_index(b, name, i);
        if x != name && keys.contains(x) {
            let k = keys.index_of(x);
            assert(keys[k] == x);
            lemma_alias_index(a, x, k);
            lemma_alias_index(b, x, k);
        }
    } else {
        assert(alias_keys(b) =~= keys.push(name));
        lemma_alias_index(b, name, a.len() as int);
        if x != name && keys.contains(x) {
            let k = keys.index_of(x);
            assert(keys[k] == x);
            lemma_alias_index(a, x, k);
            assert(b[k] == a[k]);
            lemma_alias_index(b, x, k);
        }
    }
}

/// After a test answers to `names`: each of them leads to it, every other
/// name leads where it led before, and no name is a key twice.
pub proof fn lemma_add_aliases(a: Seq<(Seq<char>, Seq<char>)>, names: Seq<Seq<char>>, test: Seq<char>, x: Seq<char>)
    requires
        alias_keys(a).no_duplicates(),
    ensures
        alias_keys(add_aliases(a, names, test)).no_duplicates(),
        alias_keys(add_aliases(a, names, test)).contains(x) == (alias_keys(a).contains(x)
            || names.contains(x)),
        alias_of(add_aliases(a, names, test), x) == if names.contains(x) {
            Some(test)
        } else {
            alias_of(a, x)
        },
    decreases names.len(),
{
    if names.len() > 0 {
        let rest = names.drop_last();
        lemma_add_aliases(a, rest, test, x);
        lemma_set_alias(add_aliases(a, rest, test), names.last(), test, x);
        assert(names.contains(x) == (rest.contains(x) || names.last() == x)) by {
            if names.contains(x) {
                let k = choose|k: int| 0 <= k < names.len() && names[k] == x;
                if k < rest.len() {
                    assert(rest[k] == x);
                }
            }
            if rest.contains(x) {
                let k = choose|k: int| 0 <= k < rest.len() && rest[k] == x;
                assert(names[k] == x);
            }
        }
    } else {
        assert(!names.contains(x));
    }
}

/// What loading a unit gave.
#[derive(Debug)]
pub enum Loaded<E> {
    /// The unit was added, in place of a unit of the same id if there was one.
    Added,
    /// The unit is not for the loaded jigs (a jig: not for this machine).
    Incompatible,
    /// The unit file is in error.
    Failed(E),
}

impl TestSet {
    /// Where the jig `id` is loaded.
    fn find_jig(&self, id: &str) -> (r: Option<usize>)
        requires
            jig_ids_view(self@.jigs).no_duplicates(),
        ensures
            r is None <==> !jig_ids_view(self@.jigs).contains(id@),
            r matches Some(i) ==> i == jig_ids_view(self@.jigs).index_of(id@) && i < self@.jigs.len(),
    {
        let ghost ids = jig_ids_view(self@.jigs);
        let mut i: usize = 0;
        while i < self.jigs.len()
            invariant
                i <= self.jigs.len(),
                ids == jig_ids_view(self@.jigs),
                ids.no_duplicates(),
                forall|k: int| 0 <= k < i ==> ids[k] != id@,
            decreases self.jigs.len() - i,
        {
            if str_eq(self.jigs[i].id(), id) {
                assert(ids[i as int] == id@);
                assert(ids.contains(id@));
                proof {
                    let j = ids.index_of(id@);
                    assert(ids[j] == id@);
                    assert(j == i);
                }
                return Some(i);
            }
            i = i + 1;
        }
        assert(!ids.contains(id@)) by {
            if ids.contains(id@) {
                let j = choose|j: int| 0 <= j < ids.len() && ids[j] == id@;
                assert(ids[j] != id@);
            }
        }
        None
    }

    /// Loads the jig `id` (see `Jig::new`).  The first jig loaded becomes
    /// the jig in use.
    pub fn load_jig(&mut self, id: &str, unitfile: &UnitFile, test_file_exists: bool, test_program_passed: bool) -> (r:
        Loaded<JigError>)
        requires
            old(self).wf(),
        ensures
            final(self).wf(),
            !has_section_spec(unitfile@, "Jig"@) ==> (r matches Loaded::Failed(JigError::MissingJigSection))
                && final(self)@ == old(self)@,
            has_section_spec(unitfile@, "Jig"@) && !jig_probe_passed(
                unitfile@,
                test_file_exists,
                test_program_passed,
            ) ==> r is Incompatible && final(self)@ == old(self)@,
            has_section_spec(unitfile@, "Jig"@) && jig_probe_passed(
                unitfile@,
                test_file_exists,
                test_program_passed,
            ) ==> r is Added && final(self)@ == (TestSetView {
                jigs: put_by_id(
                    old(self)@.jigs,
                    jig_ids_view(old(self)@.jigs),
                    id@,
                    loaded_jig(id@, unitfile@),
                ),
                jig: if old(self)@.jig is None {
                    Some(jig_ids_view(final(self)@.jigs).index_of(id@) as usize)
                } else {
                    old(self)@.jig
                },
                ..old(self)@
            }),
    {
        match Jig::new(id, unitfile, test_file_exists, test_program_passed) {
            None => Loaded::Incompatible,
            Some(Err(e)) => Loaded::Failed(e),
            Some(Ok(j)) => {
                let ghost jv = j@;
                let ghost old_ids = jig_ids_view(self@.jigs);
                let idx = match self.find_jig(id) {
                    Some(i) => {
                        self.jigs.set(i, j);
                        proof {
                            assert(jigs_view(self.jigs@) =~= jigs_view(old(self).jigs@).update(i as int, jv));
                            assert(jig_ids_view(self@.jigs) =~= old_ids);
                        }
                        i
                    },
                    None => {
                        self.jigs.push(j);
                        proof {
                            assert(jigs_view(self.jigs@) =~= jigs_view(old(self).jigs@).push(jv));
                            assert(jig_ids_view(self@.jigs) =~= old_ids.push(id@));
                            assert(jig_ids_view(self@.jigs)[old_ids.len() as int] == id@);
                        }
                        self.jigs.len() - 1
                    },
                };
                proof {
                    let ids = jig_ids_view(self@.jigs);
                    assert(ids[idx as int] == id@);
                    assert(ids.contains(id@));
                    assert(ids.index_of(id@) == idx);
                }
                if self.jig.is_none() {
                    self.jig = Some(idx);
                }
                assert(self@ =~= (TestSetView {
                    jigs: put_by_id(old(self)@.jigs, old_ids, id@, jv),
                    jig: if old(self)@.jig is None {
                        Some(jig_ids_view(self@.jigs).index_of(id@) as usize)
                    } else {
                        old(self)@.jig
                    },
                    ..old(self)@
                }));
                Loaded::Added
            },
        }
    }
}


/// The ids of the loaded tests, in order.
pub open spec fn loaded_test_ids(v: Seq<TestView>) -> Seq<Seq<char>> {
    v.map_values(|t: TestView| t.id)
}

/// What describing the jig in use says: its id and its description
/// (nothing without a jig).
pub open spec fn jig_announcement(v: TestSetView) -> Seq<ActionView> {
    match v.jig {
        None => seq![],
        Some(j) => seq![testset_says("standard"@, BroadcastContentsView::Jig(v.jigs[j as int].id))]
            + jig_description(v.jigs[j as int]),
    }
}

/// What listing the scenarios says: their ids, in the order they were
/// loaded.
pub open spec fn scenarios_announcement(v: TestSetView) -> Seq<ActionView> {
    seq![testset_says("standard"@, BroadcastContentsView::Scenarios(scenario_ids(v.scenarios)))]
}

/// What describing the scenario `name` (or the one in use) says.
pub open spec fn tests_announcement(v: TestSetView, name: Option<Seq<char>>) -> Seq<ActionView> {
    match chosen_scenario(v, name) {
        None => seq![no_scenario_log()],
        Some(k) => scenario_description(v.scenarios[k], loaded_test_ids(v.tests)),
    }
}

/// The log line that says no scenario is selected.
pub open spec fn no_scenario_log() -> ActionView {
    testset_says("debug-internal"@, BroadcastContentsView::Log("No default scenario selected"@))
}

impl TestSet {
    proof fn lemma_test_ids(&self)
        ensures
            test_ids(self.tests@) == loaded_test_ids(self@.tests),
    {
        assert(test_ids(self.tests@) =~= loaded_test_ids(self@.tests));
    }

    /// Where the scenario `id` is loaded.
    fn find_scenario(&self, id: &str) -> (r: Option<usize>)
        requires
            scenario_ids(self@.scenarios).no_duplicates(),
        ensures
            r is None <==> !scenario_ids(self@.scenarios).contains(id@),
            r matches Some(i) ==> i == scenario_ids(self@.scenarios).index_of(id@) && i
                < self@.scenarios.len(),
    {
        let ghost ids = scenario_ids(self@.scenarios);
        let mut i: usize = 0;
        while i < self.scenarios.len()
            invariant
                i <= self.scenarios.len(),
                ids == scenario_ids(self@.scenarios),
                ids.no_duplicates(),
                forall|k: int| 0 <= k < i ==> ids[k] != id@,
            decreases self.scenarios.len() - i,
        {
            if str_eq(self.scenarios[i].id(), id) {
                assert(ids[i as int] == id@);
                assert(ids.contains(id@));
                proof {
                    let j = ids.index_of(id@);
                    assert(ids[j] == id@);
                    assert(j == i);
                }
                return Some(i);
            }
            i = i + 1;
        }
        assert(!ids.contains(id@)) by {
            if ids.contains(id@) {
                let j = choose|j: int| 0 <= j < ids.len() && ids[j] == id@;
                assert(ids[j] != id@);
            }
        }
        None
    }

    /// Whether a scenario of id `id` is loaded.
    pub fn has_scenario(&self, id: &str) -> (r: bool)
        requires
            self.wf(),
        ensures
            r == scenario_ids(self@.scenarios).contains(id@),
    {
        self.find_scenario(id).is_some()
    }

    /// The default scenario of the jig in use, if any.
    pub fn get_jig_default_scenario(&self) -> (r: Option<String>)
        requires
            self.wf(),
        ensures
            opt_view(r) == (match self@.jig {
                None => None,
                Some(j) => self@.jigs[j as int].default_scenario,
            }),
    {
        match self.jig {
            None => None,
            Some(j) => self.jigs[j].default_scenario().clone(),
        }
    }

    /// The default working directory of the jig in use, if any.
    pub fn jig_working_directory(&self) -> (r: Option<String>)
        requires
            self.wf(),
        ensures
            opt_view(r) == (match self@.jig {
                None => None,
                Some(j) => self@.jigs[j as int].default_working_directory,
            }),
    {
        match self.jig {
            None => None,
            Some(j) => self.jigs[j].default_working_directory().clone(),
        }
    }

    /// Announces the jig in use and describes it (nothing without one).
    pub fn describe_jig(&self) -> (r: Vec<Action>)
        requires
            self.wf(),
        ensures
            actions_view(r@) == jig_announcement(self@),
    {
        let mut r: Vec<Action> = Vec::new();
        match self.jig {
            None => {
                assert(actions_view(r@) =~= seq![]);
            },
            Some(j) => {
                r.push(testset_broadcast("standard", BroadcastMessageContents::Jig(own(self.jigs[j].id()))));
                let ghost first = actions_view(r@);
                let d = self.jigs[j].describe();
                append_actions(&mut r, d);
            },
        }
        r
    }

    /// Broadcasts the ids of the loaded scenarios, in the order they were
    /// loaded.
    pub fn send_scenarios(&self) -> (r: Vec<Action>)
        ensures
            actions_view(r@) == scenarios_announcement(self@),
    {
        let mut ids: Vec<String> = Vec::new();
        let mut i: usize = 0;
        while i < self.scenarios.len()
            invariant
                i <= self.scenarios.len(),
                strings_view(ids@) == scenario_ids(self@.scenarios).take(i as int),
            decreases self.scenarios.len() - i,
        {
            let ghost before = strings_view(ids@);
            ids.push(own(self.scenarios[i].id()));
            assert(strings_view(ids@) =~= before.push(self.scenarios@[i as int]@.id));
            assert(scenario_ids(self@.scenarios).take(i + 1) =~= scenario_ids(self@.scenarios).take(
                i as int,
            ).push(self.scenarios@[i as int]@.id));
            i = i + 1;
        }
        assert(scenario_ids(self@.scenarios).take(self.scenarios.len() as int) =~= scenario_ids(
            self@.scenarios,
        ));
        let mut r: Vec<Action> = Vec::new();
        r.push(testset_broadcast("standard", BroadcastMessageContents::Scenarios(ids)));
        assert(actions_view(r@) =~= seq![r@[0]@]);
        r
    }

    /// Describes the scenario `id`, or the scenario in use where `id` is
    /// `None` (where none is in use, that is logged).
    pub fn send_tests(&self, id: Option<String>) -> (r: Vec<Action>)
        requires
            self.wf(),
            id matches Some(n) ==> scenario_ids(self@.scenarios).contains(n@),
        ensures
            actions_view(r@) == tests_announcement(self@, opt_view(id)),
    {
        proof {
            self.lemma_test_ids();
        }
        let index = match id {
            None => match self.scenario {
                None => {
                    let mut r: Vec<Action> = Vec::new();
                    r.push(
                        testset_broadcast(
                            "debug-internal",
                            BroadcastMessageContents::Log(own("No default scenario selected")),
                        ),
                    );
                    assert(actions_view(r@) =~= seq![r@[0]@]);
                    return r;
                },
                Some(s) => s,
            },
            Some(n) => match self.find_scenario(n.as_str()) {
                Some(i) => i,
                None => {
                    assert(false);
                    0
                },
            },
        };
        self.scenarios[index].describe(&self.tests)
    }

    /// Selects the scenario `id` and describes it; where there is none of
    /// that id, that is logged and nothing changes.
    pub fn set_scenario(&mut self, id: &String) -> (r: Vec<Action>)
        requires
            old(self).wf(),
        ensures
            final(self).wf(),
            !scenario_ids(old(self)@.scenarios).contains(id@) ==> final(self)@ == old(self)@
                && actions_view(r@) == seq![
                testset_says(
                    "debug-internal"@,
                    BroadcastContentsView::Log("Unable to find scenario: "@ + id@),
                ),
            ],
            scenario_ids(old(self)@.scenarios).contains(id@) ==> final(self)@ == (TestSetView {
                scenario: Some(scenario_ids(old(self)@.scenarios).index_of(id@) as usize),
                ..old(self)@
            }) && actions_view(r@) == seq![
                testset_says("standard"@, BroadcastContentsView::Scenario(id@)),
            ] + scenario_description(
                old(self)@.scenarios[scenario_ids(old(self)@.scenarios).index_of(id@)],
                loaded_test_ids(old(self)@.tests),
            ),
    {
        proof {
            self.lemma_test_ids();
        }
        let mut r: Vec<Action> = Vec::new();
        match self.find_scenario(id.as_str()) {
            None => {
                r.push(
                    testset_broadcast(
                        "debug-internal",
                        BroadcastMessageContents::Log(concat(&own("Unable to find scenario: "), id)),
                    ),
                );
                assert(actions_view(r@) =~= seq![r@[0]@]);
            },
            Some(i) => {
                self.scenario = Some(i);
                r.push(testset_broadcast("standard", BroadcastMessageContents::Scenario(id.clone())));
                let d = self.scenarios[i].describe(&self.tests);
                append_actions(&mut r, d);
                assert(actions_view(r@) =~= seq![r@[0]@] + actions_view(d@));
                assert(self@ =~= (TestSetView { scenario: Some(i), ..old(self)@ }));
            },
        }
        r
    }
}


/// What loading a test gave.
#[derive(Debug)]
pub enum TestLoad {
    /// The test was added.
    Added,
    /// The test is not for the loaded jigs.
    Incompatible,
    /// The unit file is in error.
    Failed(TestError),
    /// The id of the test is a name that the given test already answers to.
    IdTaken(String),
    /// A name the test provides is already answered to: by the given test,
    /// the given name.
    ProvidesTaken(String, String),
}

/// One of `names` is a name that a test answers to already.
pub open spec fn names_taken(a: Seq<(Seq<char>, Seq<char>)>, names: Seq<Seq<char>>) -> bool {
    exists|k: int| 0 <= k < names.len() && alias_keys(a).contains(#[trigger] names[k])
}

impl TestSet {
    /// Where the name `name` is among the names that tests answer to.
    fn find_alias(&self, name: &str) -> (r: Option<usize>)
        requires
            alias_keys(self@.aliases).no_duplicates(),
        ensures
            r is None <==> !alias_keys(self@.aliases).contains(name@),
            r matches Some(i) ==> i == alias_keys(self@.aliases).index_of(name@) && i
                < self@.aliases.len(),
    {
        let ghost keys = alias_keys(self@.aliases);
        let mut i: usize = 0;
        while i < self.test_aliases.len()
            invariant
                i <= self.test_aliases.len(),
                keys == alias_keys(self@.aliases),
                keys.no_duplicates(),
                forall|k: int| 0 <= k < i ==> keys[k] != name@,
            decreases self.test_aliases.len() - i,
        {
            if str_eq(self.test_aliases[i].0.as_str(), name) {
                assert(keys[i as int] == name@);
                assert(keys.contains(name@));
                proof {
                    let j = keys.index_of(name@);
                    assert(keys[j] == name@);
                    assert(j == i);
                }
                return Some(i);
            }
            i = i + 1;
        }
        assert(!keys.contains(name@)) by {
            if keys.contains(name@) {
                let j = choose|j: int| 0 <= j < keys.len() && keys[j] == name@;
                assert(keys[j] != name@);
            }
        }
        None
    }

    /// Makes `name` lead to the test `test`.
    fn put_alias(&mut self, name: String, test: String)
        requires
            alias_keys(old(self)@.aliases).no_duplicates(),
        ensures
            alias_keys(final(self)@.aliases).no_duplicates(),
            final(self)@ == (TestSetView {
                aliases: set_alias(old(self)@.aliases, name@, test@),
                ..old(self)@
            }),
            final(self).tests@ == old(self).tests@,
            final(self).scenarios@ == old(self).scenarios@,
            final(self).jig == old(self).jig,
            final(self).scenario == old(self).scenario,
    {
        let ghost keys = alias_keys(self@.aliases);
        match self.find_alias(name.as_str()) {
            Some(i) => {
                let ghost nv = name@;
                self.test_aliases.set(i, (name, test));
                assert(self@.aliases =~= old(self)@.aliases.update(i as int, (nv, test@)));
                assert(alias_keys(self@.aliases) =~= keys);
            },
            None => {
                let ghost nv = name@;
                self.test_aliases.push((name, test));
                assert(self@.aliases =~= old(self)@.aliases.push((nv, test@)));
                assert(alias_keys(self@.aliases) =~= keys.push(nv));
            },
        }
    }

    /// Loads the test `id` (see `Test::new`), for the loaded jigs.  A test
    /// answers to its id and to the names it provides: it is refused where
    /// one of those names is answered to already.  Otherwise it is added,
    /// and each of those names leads to it.
    pub fn load_test(&mut self, id: &str, unitfile: &UnitFile) -> (r: TestLoad)
        requires
            old(self).wf(),
        ensures
            final(self).wf(),
            ({
                let outcome = test_outcome(
                    id@,
                    unitfile@,
                    jig_ids_view(old(self)@.jigs),
                    old(self)@.config,
                );
                let a = old(self)@.aliases;
                match outcome {
                    None => r is Incompatible && final(self)@ == old(self)@,
                    Some(Err(e)) => (r matches TestLoad::Failed(f) && f@ == e) && final(self)@
                        == old(self)@,
                    Some(Ok(t)) => if alias_keys(a).contains(t.id) {
                        (r matches TestLoad::IdTaken(o) && alias_of(a, t.id) == Some(o@))
                            && final(self)@ == old(self)@
                    } else if names_taken(a, t.provides) {
                        (r matches TestLoad::ProvidesTaken(o, p) && t.provides.contains(p@)
                            && alias_of(a, p@) == Some(o@)) && final(self)@ == old(self)@
                    } else {
                        r is Added && final(self)@ == (TestSetView {
                            tests: old(self)@.tests.push(t),
                            aliases: add_aliases(a, seq![t.id] + t.provides, t.id),
                            ..old(self)@
                        })
                    },
                }
            }),
    {
        let jigs = self.jig_ids();
        let t = match Test::new(id, unitfile, &jigs, &self.config) {
            None => return TestLoad::Incompatible,
            Some(Err(e)) => return TestLoad::Failed(e),
            Some(Ok(t)) => t,
        };
        let ghost a = self@.aliases;
        let ghost outcome = test_outcome(id@, unitfile@, jig_ids_view(old(self)@.jigs), old(self)@.config);
        assert(outcome == Some(Ok::<TestView, TestErrorView>(t@)));
        match self.find_alias(t.id()) {
            Some(i) => {
                return TestLoad::IdTaken(self.test_aliases[i].1.clone());
            },
            None => {},
        }
        let provides = t.provides();
        let mut k: usize = 0;
        while k < provides.len()
            invariant
                k <= provides.len(),
                self@ == old(self)@,
                self.wf(),
                a == self@.aliases,
                outcome == Some(Ok::<TestView, TestErrorView>(t@)),
                outcome == test_outcome(id@, unitfile@, jig_ids_view(old(self)@.jigs), old(self)@.config),
                !alias_keys(a).contains(t@.id),
                strings_view(provides@) == t@.provides,
                forall|j: int| 0 <= j < k ==> !alias_keys(a).contains(#[trigger] strings_view(provides@)[j]),
            decreases provides.len() - k,
        {
            match self.find_alias(provides[k].as_str()) {
                Some(i) => {
                    assert(strings_view(provides@)[k as int] == provides@[k as int]@);
                    assert(strings_view(provides@).contains(provides@[k as int]@));
                    assert(names_taken(a, t@.provides));
                    return TestLoad::ProvidesTaken(self.test_aliases[i].1.clone(), provides[k].clone());
                },
                None => {},
            }
            k = k + 1;
        }
        assert(!names_taken(a, t@.provides)) by {
            if names_taken(a, t@.provides) {
                let j = choose|j: int| 0 <= j < t@.provides.len() && alias_keys(a).contains(#[trigger] t@.provides[j]);
                assert(!alias_keys(a).contains(strings_view(provides@)[j]));
            }
        }
        let tid = own(t.id());
        let mut names: Vec<String> = Vec::new();
        names.push(tid.clone());
        let mut k: usize = 0;
        while k < provides.len()
            invariant
                k <= provides.len(),
                strings_view(names@) == seq![tid@] + strings_view(provides@).take(k as int),
            decreases provides.len() - k,
        {
            let ghost before = strings_view(names@);
            names.push(provides[k].clone());
            assert(strings_view(names@) =~= before.push(provides@[k as int]@));
            assert(strings_view(provides@).take(k + 1) =~= strings_view(provides@).take(k as int).push(
                provides@[k as int]@,
            ));
            k = k + 1;
        }
        assert(strings_view(provides@).take(provides.len() as int) =~= strings_view(provides@));
        let ghost all = strings_view(names@);
        let mut k: usize = 0;
        while k < names.len()
            invariant
                k <= names.len(),
                all == strings_view(names@),
                alias_keys(self@.aliases).no_duplicates(),
                self@ == (TestSetView { aliases: add_aliases(a, all.take(k as int), tid@), ..old(self)@ }),
                self.tests@ == old(self).tests@,
                self.scenarios@ == old(self).scenarios@,
                self.jig == old(self).jig,
                self.scenario == old(self).scenario,
            decreases names.len() - k,
        {
            assert(all.take(k + 1).drop_last() =~= all.take(k as int));
            assert(all.take(k + 1).last() == names@[k as int]@);
            self.put_alias(names[k].clone(), tid.clone());
            k = k + 1;
        }
        assert(all.take(names.len() as int) =~= all);
        let ghost tv = t@;
        self.tests.push(t);
        proof {
            assert(views(self.tests@) =~= views(old(self).tests@).push(tv));
            let n0 = old(self).tests.len() as int;
            assert(all[0] == tid@);
            assert(all.contains(tid@));
            lemma_add_aliases(a, all, tid@, tid@);
            assert forall|i: int| 0 <= i < self.tests.len() implies alias_keys(self@.aliases).contains(
                #[trigger] self.tests@[i]@.id,
            ) by {
                if i < n0 {
                    assert(self.tests@[i] == old(self).tests@[i]);
                    lemma_add_aliases(a, all, tid@, self.tests@[i]@.id);
                }
            }
            assert forall|i: int, j: int| 0 <= i < j < self.tests.len() implies self.tests@[i]@.id
                != self.tests@[j]@.id by {
                assert(self.tests@[i] == old(self).tests@[i]);
                if j < n0 {
                    assert(self.tests@[j] == old(self).tests@[j]);
                } else {
                    assert(alias_keys(a).contains(old(self).tests@[i]@.id));
                }
            }
            assert forall|i: int| 0 <= i < self.scenarios.len() implies (#[trigger] self.scenarios@[i]).wf(
                self.tests.len() as nat,
            ) by {
                assert(old(self).scenarios@[i].wf(old(self).tests.len() as nat));
            }
            // Each test still leads to itself, and every name to a loaded test.
            let b = self@.aliases;
            assert(self.tests@[n0]@.id == tid@);
            assert(test_ids(self.tests@)[n0] == tid@);
            assert forall|i: int| 0 <= i < self.tests.len() implies alias_of(b, #[trigger] self.tests@[i]@.id)
                == Some(self.tests@[i]@.id) by {
                let x = self.tests@[i]@.id;
                lemma_add_aliases(a, all, tid@, x);
                if i < n0 {
                    assert(self.tests@[i] == old(self).tests@[i]);
                    assert(alias_keys(a).contains(x));
                    if all.contains(x) {
                        let m = choose|m: int| 0 <= m < all.len() && all[m] == x;
                        if m == 0 {
                            assert(alias_keys(a).contains(tid@));
                        } else {
                            assert(all[m] == strings_view(provides@)[m - 1]);
                            assert(!alias_keys(a).contains(strings_view(provides@)[m - 1]));
                        }
                    }
                }
            }
            assert forall|x: Seq<char>| #[trigger] alias_keys(b).contains(x) implies loaded(
                self.tests@,
                alias_of(b, x).unwrap(),
            ) by {
                lemma_add_aliases(a, all, tid@, x);
                if !all.contains(x) {
                    let y = alias_of(a, x).unwrap();
                    assert(loaded(old(self).tests@, y));
                    let m = choose|m: int| 0 <= m < test_ids(old(self).tests@).len() && test_ids(old(self).tests@)[m] == y;
                    assert(self.tests@[m] == old(self).tests@[m]);
                    assert(test_ids(self.tests@)[m] == y);
                }
            }
        }
        TestLoad::Added
    }
}


impl TestSet {
    /// A scenario unit can be loaded here: its values are within range for
    /// the loaded jigs and tests (see `scenario_loadable`).
    /// The loaded tests, in the order they were loaded.
    pub closed spec fn loaded_tests(&self) -> Seq<Test> {
        self.tests@
    }

    /// Every loaded test answers to its own id, and every name a test answers
    /// to (its id or a name it provides) leads to a loaded test.
    pub proof fn law_names_lead_to_loaded_tests(&self)
        requires
            self.wf(),
        ensures
            forall|i: int|
                0 <= i < self@.tests.len() ==> alias_of(self@.aliases, #[trigger] self@.tests[i].id)
                    == Some(self@.tests[i].id),
            forall|x: Seq<char>|
                #[trigger] alias_keys(self@.aliases).contains(x) ==> exists|i: int|
                    0 <= i < self@.tests.len() && self@.tests[i].id == alias_of(self@.aliases, x).unwrap(),
    {
        assert forall|i: int| 0 <= i < self@.tests.len() implies alias_of(self@.aliases, #[trigger] self@.tests[i].id)
            == Some(self@.tests[i].id) by {
            assert(self@.tests[i] == self.tests@[i]@);
        }
        assert forall|x: Seq<char>| #[trigger] alias_keys(self@.aliases).contains(x) implies exists|i: int|
            0 <= i < self@.tests.len() && self@.tests[i].id == alias_of(self@.aliases, x).unwrap() by {
            let y = alias_of(self@.aliases, x).unwrap();
            assert(loaded(self.tests@, y));
            let m = choose|m: int| 0 <= m < test_ids(self.tests@).len() && test_ids(self.tests@)[m] == y;
            assert(self@.tests[m] == self.tests@[m]@);
        }
    }

    /// The loaded tests are those of the view.
    pub proof fn lemma_loaded_tests(&self)
        ensures
            views(self.loaded_tests()) == self@.tests,
    {
    }

    pub closed spec fn can_load_scenario(&self, m: Directives) -> bool {
        scenario_loadable(m, jig_ids_view(self@.jigs), self.tests@)
    }

    /// Whether the scenario unit `unitfile` can be loaded here.
    pub fn scenario_loadable_here(&self, unitfile: &UnitFile) -> (r: bool)
        ensures
            r == self.can_load_scenario(unitfile@),
    {
        let jigs = self.jig_ids();
        Scenario::loadable(unitfile, &jigs, &self.tests)
    }

    /// Adds `s`, in place of the scenario of the same id if there is one;
    /// gives its index.
    fn put_scenario(&mut self, s: Scenario) -> (r: usize)
        requires
            old(self).wf(),
            s.wf(old(self).tests.len() as nat),
        ensures
            final(self).wf(),
            final(self)@ == (TestSetView {
                scenarios: put_by_id(
                    old(self)@.scenarios,
                    scenario_ids(old(self)@.scenarios),
                    s@.id,
                    s@,
                ),
                ..old(self)@
            }),
            final(self).tests@ == old(self).tests@,
            r == scenario_ids(final(self)@.scenarios).index_of(s@.id),
            r < final(self)@.scenarios.len(),
            final(self)@.scenarios[r as int] == s@,
    {
        let ghost sv = s@;
        let ghost old_ids = scenario_ids(self@.scenarios);
        let idx = match self.find_scenario(s.id()) {
            Some(i) => {
                self.scenarios.set(i, s);
                proof {
                    assert(scenarios_view(self.scenarios@) =~= scenarios_view(old(self).scenarios@).update(
                        i as int,
                        sv,
                    ));
                    assert(scenario_ids(self@.scenarios) =~= old_ids);
                }
                i
            },
            None => {
                self.scenarios.push(s);
                proof {
                    assert(scenarios_view(self.scenarios@) =~= scenarios_view(old(self).scenarios@).push(sv));
                    assert(scenario_ids(self@.scenarios) =~= old_ids.push(sv.id));
                    assert(scenario_ids(self@.scenarios)[old_ids.len() as int] == sv.id);
                }
                self.scenarios.len() - 1
            },
        };
        proof {
            let ids = scenario_ids(self@.scenarios);
            assert(ids[idx as int] == sv.id);
            assert(ids.contains(sv.id));
            assert(ids.index_of(sv.id) == idx);
            assert forall|i: int| 0 <= i < self.scenarios.len() implies (#[trigger] self.scenarios@[i]).wf(
                self.tests.len() as nat,
            ) by {
                if i != idx {
                    assert(self.scenarios@[i] == old(self).scenarios@[i]);
                }
            }
        }
        assert(self@ =~= (TestSetView {
            scenarios: put_by_id(old(self)@.scenarios, old_ids, sv.id, sv),
            ..old(self)@
        }));
        idx
    }

    /// Loads the scenario `id` (see `Scenario::new`) over the loaded jigs
    /// and tests.  Where it is the default scenario of the jig in use, it
    /// is selected (see `set_scenario`).
    pub fn load_scenario(&mut self, id: &str, unitfile: &UnitFile) -> (r: (Loaded<ScenarioError>, Vec<Action>))
        requires
            old(self).wf(),
            old(self).can_load_scenario(unitfile@),
        ensures
            final(self).wf(),
            !has_section_spec(unitfile@, "Scenario"@) ==> (r.0 matches Loaded::Failed(
                ScenarioError::MissingScenarioSection,
            )),
            has_section_spec(unitfile@, "Scenario"@) ==> (r.0 is Incompatible <==> !compatible_spec(
                unitfile@,
                "Scenario"@,
                "Jigs"@,
                jig_ids_view(old(self)@.jigs),
            )),
            !(r.0 is Added) ==> final(self)@ == old(self)@ && r.1@.len() == 0,
            has_section_spec(unitfile@, "Scenario"@) && compatible_spec(
                unitfile@,
                "Scenario"@,
                "Jigs"@,
                jig_ids_view(old(self)@.jigs),
            ) && get_spec(unitfile@, "Scenario"@, "Tests"@) is None ==> r.0 matches Loaded::Failed(
                ScenarioError::TestListNotFound,
            ),
            has_section_spec(unitfile@, "Scenario"@) && compatible_spec(
                unitfile@,
                "Scenario"@,
                "Jigs"@,
                jig_ids_view(old(self)@.jigs),
            ) && get_spec(unitfile@, "Scenario"@, "Tests"@) is Some ==> match r.0 {
                Loaded::Added => ({
                    let s = final(self)@.scenarios[scenario_ids(final(self)@.scenarios).index_of(id@)];
                    order_result(old(self).loaded_tests(), scenario_tests_field(unitfile@)) == Ok::<
                        (EdgeList, Seq<usize>),
                        ScenarioErrorView,
                    >((s.edges, s.tests))
                }),
                Loaded::Failed(e) => order_result(old(self).loaded_tests(), scenario_tests_field(unitfile@))
                    == Err::<(EdgeList, Seq<usize>), ScenarioErrorView>(e@),
                Loaded::Incompatible => false,
            },
            r.0 is Added ==> (final(self)@, actions_view(r.1@)) == scenario_added(
                old(self)@,
                id@,
                final(self)@.scenarios[scenario_ids(final(self)@.scenarios).index_of(id@)],
            ),
            r.0 is Added ==> ({
                let ids = scenario_ids(final(self)@.scenarios);
                let s = final(self)@.scenarios[ids.index_of(id@)];
                let default = match old(self)@.jig {
                    None => None,
                    Some(j) => old(self)@.jigs[j as int].default_scenario,
                };
                &&& ids.contains(id@)
                &&& s == loaded_scenario(id@, unitfile@, old(self)@.config, s)
                &&& final(self)@ == (TestSetView {
                    scenarios: put_by_id(
                        old(self)@.scenarios,
                        scenario_ids(old(self)@.scenarios),
                        id@,
                        s,
                    ),
                    scenario: if default == Some(id@) {
                        Some(ids.index_of(id@) as usize)
                    } else {
                        old(self)@.scenario
                    },
                    ..old(self)@
                })
                &&& default == Some(id@) ==> actions_view(r.1@) == seq![
                    testset_says("standard"@, BroadcastContentsView::Scenario(id@)),
                ] + scenario_description(s, loaded_test_ids(old(self)@.tests))
                &&& default != Some(id@) ==> r.1@.len() == 0
            }),
    {
        let jigs = self.jig_ids();
        let s = match Scenario::new(id, unitfile, &jigs, &self.tests, &self.config) {
            None => return (Loaded::Incompatible, Vec::new()),
            Some(Err(e)) => return (Loaded::Failed(e), Vec::new()),
            Some(Ok(s)) => s,
        };
        let ghost sv = s@;
        let ghost s1 = self@;
        let idx = self.put_scenario(s);
        let default = self.get_jig_default_scenario();
        let is_default = match &default {
            Some(d) => str_eq(d.as_str(), id),
            None => false,
        };
        proof {
            assert(scenario_ids(self@.scenarios)[idx as int] == id@);
            assert(scenario_ids(self@.scenarios).contains(id@));
        }
        if is_default {
            let name = own(id);
            let a = self.set_scenario(&name);
            (Loaded::Added, a)
        } else {
            (Loaded::Added, Vec::new())
        }
    }

    /// Where the interface `id` is loaded.
    fn find_interface(&self, id: &str) -> (r: Option<usize>)
        requires
            interface_ids(self@.interfaces).no_duplicates(),
        ensures
            r is None <==> !interface_ids(self@.interfaces).contains(id@),
            r matches Some(i) ==> i == interface_ids(self@.interfaces).index_of(id@) && i
                < self@.interfaces.len(),
    {
        let ghost ids = interface_ids(self@.interfaces);
        let mut i: usize = 0;
        while i < self.interfaces.len()
            invariant
                i <= self.interfaces.len(),
                ids == interface_ids(self@.interfaces),
                ids.no_duplicates(),
                forall|k: int| 0 <= k < i ==> ids[k] != id@,
            decreases self.interfaces.len() - i,
        {
            if str_eq(self.interfaces[i].id(), id) {
                assert(ids[i as int] == id@);
                assert(ids.contains(id@));
                proof {
                    let j = ids.index_of(id@);
                    assert(ids[j] == id@);
                    assert(j == i);
                }
                return Some(i);
            }
            i = i + 1;
        }
        assert(!ids.contains(id@)) by {
            if ids.contains(id@) {
                let j = choose|j: int| 0 <= j < ids.len() && ids[j] == id@;
                assert(ids[j] != id@);
            }
        }
        None
    }

    /// Adds the started interface `i`, in place of the interface of the
    /// same id if there is one.
    pub fn add_interface(&mut self, i: Interface)
        requires
            old(self).wf(),
        ensures
            final(self).wf(),
            final(self)@ == (TestSetView {
                interfaces: put_by_id(
                    old(self)@.interfaces,
                    interface_ids(old(self)@.interfaces),
                    i@.id,
                    i@,
                ),
                ..old(self)@
            }),
    {
        let ghost iv = i@;
        let ghost old_ids = interface_ids(self@.interfaces);
        match self.find_interface(i.id()) {
            Some(k) => {
                self.interfaces.set(k, i);
                proof {
                    assert(self@.interfaces =~= old(self)@.interfaces.update(k as int, iv));
                    assert(interface_ids(self@.interfaces) =~= old_ids);
                }
            },
            None => {
                self.interfaces.push(i);
                proof {
                    assert(self@.interfaces =~= old(self)@.interfaces.push(iv));
                    assert(interface_ids(self@.interfaces) =~= old_ids.push(iv.id));
                }
            },
        }
        assert(self@ =~= (TestSetView {
            interfaces: put_by_id(old(self)@.interfaces, old_ids, iv.id, iv),
            ..old(self)@
        }));
    }

    /// Records the identifier that the interface `id` announced (nothing
    /// happens where no interface has that id).
    pub fn set_interface_hello(&mut self, id: String, hello: String)
        requires
            old(self).wf(),
        ensures
            final(self).wf(),
            !interface_ids(old(self)@.interfaces).contains(id@) ==> final(self)@ == old(self)@,
            interface_ids(old(self)@.interfaces).contains(id@) ==> ({
                let k = interface_ids(old(self)@.interfaces).index_of(id@);
                final(self)@ == (TestSetView {
                    interfaces: old(self)@.interfaces.update(
                        k,
                        InterfaceView { hello: hello@, ..old(self)@.interfaces[k] },
                    ),
                    ..old(self)@
                })
            }),
    {
        match self.find_interface(id.as_str()) {
            None => {},
            Some(k) => {
                let mut i = self.interfaces.remove(k);
                i.set_hello(hello);
                self.interfaces.insert(k, i);
                proof {
                    let nv = InterfaceView { hello: hello@, ..old(self)@.interfaces[k as int] };
                    assert(self@.interfaces =~= old(self)@.interfaces.update(k as int, nv));
                    assert(interface_ids(self@.interfaces) =~= interface_ids(old(self)@.interfaces));
                }
                assert(self@ =~= (TestSetView {
                    interfaces: old(self)@.interfaces.update(
                        k as int,
                        InterfaceView { hello: hello@, ..old(self)@.interfaces[k as int] },
                    ),
                    ..old(self)@
                }));
            },
        }
    }

    /// Adds the started logger `l`, in place of the logger of the same id
    /// if there is one.
    pub fn add_logger(&mut self, l: Logger)
        requires
            old(self).wf(),
        ensures
            final(self).wf(),
            final(self)@ == (TestSetView {
                loggers: put_by_id(old(self)@.loggers, logger_ids(old(self)@.loggers), l@.id, l@),
                ..old(self)@
            }),
    {
        let ghost lv = l@;
        let ghost ids = logger_ids(self@.loggers);
        let mut k: usize = 0;
        while k < self.loggers.len()
            invariant
                k <= self.loggers.len(),
                self@ == old(self)@,
                self.wf(),
                ids == logger_ids(self@.loggers),
                l@ == lv,
                forall|j: int| 0 <= j < k ==> ids[j] != lv.id,
            decreases self.loggers.len() - k,
        {
            if str_eq(self.loggers[k].id(), l.id()) {
                assert(ids[k as int] == lv.id);
                assert(ids.contains(lv.id));
                assert(ids.index_of(lv.id) == k) by {
                    let j = ids.index_of(lv.id);
                    assert(ids[j] == lv.id);
                }
                self.loggers.set(k, l);
                assert(self@.loggers =~= old(self)@.loggers.update(k as int, lv));
                assert(logger_ids(self@.loggers) =~= ids);
                assert(self@ =~= (TestSetView {
                    loggers: put_by_id(old(self)@.loggers, ids, lv.id, lv),
                    ..old(self)@
                }));
                return;
            }
            k = k + 1;
        }
        assert(!ids.contains(lv.id)) by {
            if ids.contains(lv.id) {
                let j = choose|j: int| 0 <= j < ids.len() && ids[j] == lv.id;
                assert(ids[j] != lv.id);
            }
        }
        self.loggers.push(l);
        assert(self@.loggers =~= old(self)@.loggers.push(lv));
        assert(logger_ids(self@.loggers) =~= ids.push(lv.id));
        assert(self@ =~= (TestSetView {
            loggers: put_by_id(old(self)@.loggers, ids, lv.id, lv),
            ..old(self)@
        }));
    }

    /// Adds the started trigger `t`, in place of the trigger of the same id
    /// if there is one.
    pub fn add_trigger(&mut self, t: Trigger)
        requires
            old(self).wf(),
        ensures
            final(self).wf(),
            final(self)@ == (TestSetView {
                triggers: put_by_id(old(self)@.triggers, trigger_ids(old(self)@.triggers), t@.id, t@),
                ..old(self)@
            }),
    {
        let ghost tv = t@;
        let ghost ids = trigger_ids(self@.triggers);
        let mut k: usize = 0;
        while k < self.triggers.len()
            invariant
                k <= self.triggers.len(),
                self@ == old(self)@,
                self.wf(),
                ids == trigger_ids(self@.triggers),
                t@ == tv,
                forall|j: int| 0 <= j < k ==> ids[j] != tv.id,
            decreases self.triggers.len() - k,
        {
            if str_eq(self.triggers[k].id(), t.id()) {
                assert(ids[k as int] == tv.id);
                assert(ids.contains(tv.id));
                assert(ids.index_of(tv.id) == k) by {
                    let j = ids.index_of(tv.id);
                    assert(ids[j] == tv.id);
                }
                self.triggers.set(k, t);
                assert(self@.triggers =~= old(self)@.triggers.update(k as int, tv));
                assert(trigger_ids(self@.triggers) =~= ids);
                assert(self@ =~= (TestSetView {
                    triggers: put_by_id(old(self)@.triggers, ids, tv.id, tv),
                    ..old(self)@
                }));
                return;
            }
            k = k + 1;
        }
        assert(!ids.contains(tv.id)) by {
            if ids.contains(tv.id) {
                let j = choose|j: int| 0 <= j < ids.len() && ids[j] == tv.id;
                assert(ids[j] != tv.id);
            }
        }
        self.triggers.push(t);
        assert(self@.triggers =~= old(self)@.triggers.push(tv));
        assert(trigger_ids(self@.triggers) =~= ids.push(tv.id));
        assert(self@ =~= (TestSetView {
            triggers: put_by_id(old(self)@.triggers, ids, tv.id, tv),
            ..old(self)@
        }));
    }
}


/// The descriptions of the scenarios, in order, whose tests are named by
/// `ids`.
pub open spec fn descriptions(ss: Seq<ScenarioView>, ids: Seq<Seq<char>>) -> Seq<ActionView>
    decreases ss.len(),
{
    if ss.len() == 0 {
        seq![]
    } else {
        descriptions(ss.drop_last(), ids) + scenario_description(ss.last(), ids)
    }
}

/// The scenario that a command to start or describe one is about: the one
/// named, or the one in use.
pub open spec fn chosen_scenario(v: TestSetView, name: Option<Seq<char>>) -> Option<int> {
    match name {
        Some(n) => Some(scenario_ids(v.scenarios).index_of(n)),
        None => match v.scenario {
            Some(k) => Some(k as int),
            None => None,
        },
    }
}

/// The view of a test set in which scenario `k` and the tests changed.
pub open spec fn with_scenario(v: TestSetView, k: int, s: ScenarioView, tests: Seq<TestView>) -> TestSetView {
    TestSetView { tests: tests, scenarios: v.scenarios.update(k, s), ..v }
}

/// The default scenario of the jig in use, if any.
pub open spec fn jig_default(v: TestSetView) -> Option<Seq<char>> {
    match v.jig {
        None => None,
        Some(j) => v.jigs[j as int].default_scenario,
    }
}

/// Adding the scenario `id` (whose view is `s`): the test set after, and
/// what is announced.  Where it is the default scenario of the jig in use,
/// it becomes the scenario in use, and it is announced and described.
pub open spec fn scenario_added(v: TestSetView, id: Seq<char>, s: ScenarioView) -> (TestSetView, Seq<ActionView>) {
    let scenarios = put_by_id(v.scenarios, scenario_ids(v.scenarios), id, s);
    let is_default = jig_default(v) == Some(id);
    (
        TestSetView {
            scenarios: scenarios,
            scenario: if is_default {
                Some(scenario_ids(scenarios).index_of(id) as usize)
            } else {
                v.scenario
            },
            ..v
        },
        if is_default {
            seq![testset_says("standard"@, BroadcastContentsView::Scenario(id))] + scenario_description(
                s,
                loaded_test_ids(v.tests),
            )
        } else {
            seq![]
        },
    )
}

/// The working directory of the jig in use, if any.
pub open spec fn jig_directory(v: TestSetView) -> Option<Seq<char>> {
    match v.jig {
        None => None,
        Some(j) => v.jigs[j as int].default_working_directory,
    }
}

/// Starting a run of the scenario `id` (or of the one in use): whether it
/// started, the test set after, and what is asked for (see
/// `Scenario::start`).
pub open spec fn start_result(v: TestSetView, id: Option<Seq<char>>) -> (bool, TestSetView, Seq<ActionView>) {
    match chosen_scenario(v, id) {
        None => (false, v, seq![no_scenario_log()]),
        Some(k) => {
            let s0 = v.scenarios[k];
            if s0.state is Idle || s0.state is TestFinished {
                let a = advanced(
                    ScenarioView {
                        state: ScenarioState::Idle,
                        working_directory: jig_directory(v),
                        ..s0
                    },
                    all_pending(v.tests, s0.tests),
                    k as usize,
                    0,
                );
                (
                    true,
                    TestSetView { scenario: Some(k as usize), ..with_scenario(v, k, a.0, a.1) },
                    seq![
                        scenario_says(s0, "standard"@, BroadcastContentsView::Log("Starting new scenario run"@)),
                    ] + a.2,
                )
            } else {
                (
                    false,
                    TestSetView { scenario: Some(k as usize), ..v },
                    seq![
                        scenario_says(
                            s0,
                            "standard"@,
                            BroadcastContentsView::Log(
                                "NOT starting new scenario run because ScenarioState is "@ + state_text(
                                    s0.state,
                                ) + ", not Idle"@,
                            ),
                        ),
                    ],
                )
            }
        },
    }
}

/// Moving the run of the scenario in use on, `elapsed` milliseconds after it
/// started: the test set after and what is asked for (see `advanced`).
pub open spec fn advance_result(v: TestSetView, elapsed: u64) -> (TestSetView, Seq<ActionView>) {
    let k = v.scenario.unwrap() as int;
    let a = advanced(v.scenarios[k], v.tests, k as usize, elapsed);
    (with_scenario(v, k, a.0, a.1), a.2)
}

/// Stopping the run of the scenario in use, if any: the test set after and
/// what is asked for (see `aborted`).
pub open spec fn abort_result(v: TestSetView) -> (TestSetView, Seq<ActionView>) {
    match v.scenario {
        None => (v, seq![]),
        Some(k) => {
            let s0 = v.scenarios[k as int];
            let a = aborted(s0, v.tests, k);
            (with_scenario(v, k as int, ScenarioView { state: ScenarioState::TestFinished, ..s0 }, a.0), a.1)
        },
    }
}

/// The commands the test set can carry out: a named scenario must be
/// loaded, and moving a run on needs a scenario in use.
pub open spec fn command_ok(v: TestSetView, c: TestSetCommandView) -> bool {
    match c {
        TestSetCommandView::StartScenario(Some(n)) => scenario_ids(v.scenarios).contains(n),
        TestSetCommandView::SendTests(Some(n)) => scenario_ids(v.scenarios).contains(n),
        TestSetCommandView::AdvanceScenario => v.scenario is Some,
        _ => true,
    }
}

/// What the run loop does after a command.
#[derive(Debug, PartialEq, Eq, Structural)]
pub enum TestSetStep {
    /// Go on.
    Continue,
    /// Go on: a scenario run started now (its time counts from now).
    Started,
    /// Stop.
    Shutdown,
}

impl TestSet {
    /// The loaded tests.
    pub fn tests(&self) -> (r: &Vec<Test>)
        ensures
            views(r@) == self@.tests,
    {
        &self.tests
    }

    /// The loaded jigs.
    pub fn jigs(&self) -> (r: &Vec<Jig>)
        ensures
            jigs_view(r@) == self@.jigs,
    {
        &self.jigs
    }

    /// The loaded scenarios.
    pub fn scenarios(&self) -> (r: &Vec<Scenario>)
        ensures
            scenarios_view(r@) == self@.scenarios,
    {
        &self.scenarios
    }

    /// Keeps `self.wf()` across a change of scenario `k` that keeps its id
    /// and its well-formedness, and of the tests that keeps their number and
    /// theirs.
    proof fn lemma_scenario_changed(old_ts: &TestSet, new_ts: &TestSet, k: int)
        requires
            old_ts.wf(),
            0 <= k < old_ts.scenarios.len(),
            new_ts.scenarios@ == old_ts.scenarios@.update(k, new_ts.scenarios@[k]),
            new_ts.scenarios@[k]@.id == old_ts.scenarios@[k]@.id,
            new_ts.scenarios@[k].wf(old_ts.tests.len() as nat),
            new_ts.tests.len() == old_ts.tests.len(),
            forall|i: int| 0 <= i < new_ts.tests.len() ==> (#[trigger] new_ts.tests@[i]).wf(),
            forall|i: int| 0 <= i < new_ts.tests.len() ==> (#[trigger] new_ts.tests@[i])@.id == old_ts.tests@[i]@.id,
            new_ts.jigs@ == old_ts.jigs@,
            new_ts.loggers@ == old_ts.loggers@,
            new_ts.triggers@ == old_ts.triggers@,
            new_ts.interfaces@ == old_ts.interfaces@,
            new_ts.test_aliases@ == old_ts.test_aliases@,
            new_ts.jig == old_ts.jig,
            new_ts.scenario matches Some(s) ==> s < old_ts.scenarios.len(),
        ensures
            new_ts.wf(),
            new_ts@.scenarios == old_ts@.scenarios.update(k, new_ts@.scenarios[k]),
    {
        lemma_aliases_same_ids(old_ts.tests@, new_ts.tests@, old_ts@.aliases);
        assert(new_ts@.aliases =~= old_ts@.aliases);
        assert(scenario_ids(new_ts@.scenarios) =~= scenario_ids(old_ts@.scenarios));
        assert(new_ts@.scenarios =~= old_ts@.scenarios.update(k, new_ts@.scenarios[k]));
        assert forall|i: int| 0 <= i < new_ts.scenarios.len() implies (#[trigger] new_ts.scenarios@[i]).wf(
            new_ts.tests.len() as nat,
        ) by {
            if i != k {
                assert(new_ts.scenarios@[i] == old_ts.scenarios@[i]);
            }
        }
        assert(new_ts@.jigs =~= old_ts@.jigs);
        assert(new_ts@.loggers =~= old_ts@.loggers);
        assert(new_ts@.triggers =~= old_ts@.triggers);
        assert(new_ts@.interfaces =~= old_ts@.interfaces);
        assert(new_ts@.aliases =~= old_ts@.aliases);
        assert forall|i: int, j: int| 0 <= i < j < new_ts.tests.len() implies new_ts.tests@[i]@.id
            != new_ts.tests@[j]@.id by {
            assert(new_ts.tests@[i]@.id == old_ts.tests@[i]@.id);
            assert(new_ts.tests@[j]@.id == old_ts.tests@[j]@.id);
        }
        assert forall|i: int| 0 <= i < new_ts.tests.len() implies alias_keys(new_ts@.aliases).contains(
            #[trigger] new_ts.tests@[i]@.id,
        ) by {
            assert(new_ts.tests@[i]@.id == old_ts.tests@[i]@.id);
        }
    }

    /// Starts a run of the scenario `id`, or of the scenario in use where
    /// `id` is `None` (where there is none, that is logged), from the
    /// working directory of the jig in use (see `Scenario::start`).  The
    /// scenario becomes the one in use.  `r.0` tells whether the run
    /// started.
    pub fn start_scenario(&mut self, id: Option<String>) -> (r: (bool, Vec<Action>))
        requires
            old(self).wf(),
            id matches Some(n) ==> scenario_ids(old(self)@.scenarios).contains(n@),
        ensures
            final(self).wf(),
            ({
                let e = start_result(old(self)@, opt_view(id));
                &&& r.0 == e.0
                &&& final(self)@ == e.1
                &&& actions_view(r.1@) == e.2
            }),
            chosen_scenario(old(self)@, opt_view(id)) is None ==> !r.0 && final(self)@ == old(self)@
                && actions_view(r.1@) == seq![no_scenario_log()],
            chosen_scenario(old(self)@, opt_view(id)) matches Some(k) ==> ({
                let s0 = old(self)@.scenarios[k];
                let s1 = final(self)@.scenarios[k];
                &&& final(self)@ == (TestSetView {
                    scenario: Some(k as usize),
                    ..with_scenario(old(self)@, k, s1, final(self)@.tests)
                })
                &&& final(self)@.tests.len() == old(self)@.tests.len()
                &&& s1.id == s0.id && s1.tests == s0.tests
                &&& r.0 == (s0.state is Idle || s0.state is TestFinished)
                &&& !r.0 ==> s1 == s0 && final(self)@.tests == old(self)@.tests
                &&& r.0 ==> s1.working_directory == (match old(self)@.jig {
                    None => None,
                    Some(j) => old(self)@.jigs[j as int].default_working_directory,
                }) && !(s1.state is Idle) && actions_view(r.1@)[0] == scenario_says(
                    s0,
                    "standard"@,
                    BroadcastContentsView::Log("Starting new scenario run"@),
                )
            }),
    {
        let k = match &id {
            None => match self.scenario {
                None => {
                    let mut r: Vec<Action> = Vec::new();
                    r.push(
                        testset_broadcast(
                            "debug-internal",
                            BroadcastMessageContents::Log(own("No default scenario selected")),
                        ),
                    );
                    assert(actions_view(r@) =~= seq![r@[0]@]);
                    return (false, r);
                },
                Some(k) => k,
            },
            Some(n) => match self.find_scenario(n.as_str()) {
                Some(k) => k,
                None => {
                    assert(false);
                    0
                },
            },
        };
        let ghost old_ts = *self;
        let wd = self.jig_working_directory();
        self.scenario = Some(k);
        let mut s = self.scenarios.remove(k);
        let r = s.start(k, &mut self.tests, &wd);
        self.scenarios.insert(k, s);
        proof {
            assert(self.scenarios@ =~= old_ts.scenarios@.update(k as int, self.scenarios@[k as int]));
            Self::lemma_scenario_changed(&old_ts, self, k as int);
            assert(self@ =~= (TestSetView {
                scenario: Some(k),
                ..with_scenario(old(self)@, k as int, self@.scenarios[k as int], self@.tests)
            }));
        }
        r
    }

    /// Moves the run of the scenario in use on, `elapsed_ms` after it
    /// started (see `Scenario::advance`).
    pub fn advance_scenario(&mut self, elapsed_ms: u64) -> (r: Vec<Action>)
        requires
            old(self).wf(),
            old(self)@.scenario is Some,
        ensures
            final(self).wf(),
            final(self)@ == advance_result(old(self)@, elapsed_ms).0,
            actions_view(r@) == advance_result(old(self)@, elapsed_ms).1,
            ({
                let k = old(self)@.scenario.unwrap() as int;
                let s0 = old(self)@.scenarios[k];
                let s1 = final(self)@.scenarios[k];
                &&& final(self)@ == with_scenario(old(self)@, k, s1, final(self)@.tests)
                &&& final(self)@.tests.len() == old(self)@.tests.len()
                &&& s1.id == s0.id && s1.tests == s0.tests
                &&& !(s1.state is Idle)
                &&& s1.state is TestFinished || rank(s1.state, s0.tests.len()) > rank(
                    s0.state,
                    s0.tests.len(),
                )
                &&& !(s0.state is TestFinished) && s1.state is TestFinished ==> actions_view(r@).last() == scenario_says(
                    s1,
                    "standard"@,
                    BroadcastContentsView::Finish(
                        s1.id,
                        finish_code(s1.failures),
                        finish_reason(s1.failures),
                    ),
                )
            }),
    {
        let k = match self.scenario {
            Some(k) => k,
            None => 0,
        };
        let ghost old_ts = *self;
        let mut s = self.scenarios.remove(k);
        let r = s.advance(k, &mut self.tests, elapsed_ms);
        self.scenarios.insert(k, s);
        proof {
            assert(self.scenarios@ =~= old_ts.scenarios@.update(k as int, self.scenarios@[k as int]));
            Self::lemma_scenario_changed(&old_ts, self, k as int);
            assert(self@ =~= with_scenario(old(self)@, k as int, self@.scenarios[k as int], self@.tests));
        }
        r
    }

    /// Stops the run of the scenario in use, if any (see `Scenario::abort`):
    /// it ends finished.
    pub fn abort_scenario(&mut self) -> (r: Vec<Action>)
        requires
            old(self).wf(),
        ensures
            final(self).wf(),
            final(self)@ == abort_result(old(self)@).0,
            actions_view(r@) == abort_result(old(self)@).1,
            old(self)@.scenario is None ==> final(self)@ == old(self)@ && r@.len() == 0,
            old(self)@.scenario matches Some(k) ==> ({
                let s0 = old(self)@.scenarios[k as int];
                &&& final(self)@ == with_scenario(
                    old(self)@,
                    k as int,
                    ScenarioView { state: ScenarioState::TestFinished, ..s0 },
                    final(self)@.tests,
                )
                &&& final(self)@.tests.len() == old(self)@.tests.len()
                &&& (s0.state is Idle || s0.state is TestFinished) ==> final(self)@.tests
                    == old(self)@.tests && r@.len() == 0
                &&& !(s0.state is Idle || s0.state is TestFinished) ==> actions_view(r@).last()
                    == scenario_says(
                    s0,
                    "standard"@,
                    BroadcastContentsView::Finish(s0.id, finish_code(s0.failures), finish_reason(s0.failures)),
                )
            }),
    {
        match self.scenario {
            None => Vec::new(),
            Some(k) => {
                let ghost old_ts = *self;
                let mut s = self.scenarios.remove(k);
                let r = s.abort(k, &mut self.tests);
                self.scenarios.insert(k, s);
                proof {
                    assert(self.scenarios@ =~= old_ts.scenarios@.update(k as int, self.scenarios@[k as int]));
                    Self::lemma_scenario_changed(&old_ts, self, k as int);
                    assert(self@ =~= with_scenario(old(self)@, k as int, self@.scenarios[k as int], self@.tests));
                }
                r
            },
        }
    }

    /// A support command of scenario `index` ended (see
    /// `Scenario::support_finished`).
    pub fn support_finished(&mut self, index: usize, label: &str, result: Result<(), String>) -> (r: Vec<Action>)
        requires
            old(self).wf(),
            index < old(self)@.scenarios.len(),
        ensures
            final(self).wf(),
            ({
                let s0 = old(self)@.scenarios[index as int];
                &&& final(self)@ == with_scenario(
                    old(self)@,
                    index as int,
                    ScenarioView { has_support_cmd: false, ..s0 },
                    old(self)@.tests,
                )
                &&& actions_view(r@) == seq![
                    scenario_says(
                        s0,
                        "support"@,
                        match result {
                            Ok(_) => BroadcastContentsView::Pass(label@, seq![]),
                            Err(e) => BroadcastContentsView::Fail(label@, e@),
                        },
                    ),
                    ActionView::Control(
                        "support"@,
                        s0.id,
                        "scenario"@,
                        crate::controller::ControlContentsView::AdvanceScenario,
                    ),
                ]
            }),
    {
        let ghost old_ts = *self;
        let mut s = self.scenarios.remove(index);
        let r = s.support_finished(label, result);
        self.scenarios.insert(index, s);
        proof {
            assert(self.scenarios@ =~= old_ts.scenarios@.update(index as int, self.scenarios@[index as int]));
            Self::lemma_scenario_changed(&old_ts, self, index as int);
            assert(self@ =~= with_scenario(old(self)@, index as int, self@.scenarios[index as int], self@.tests));
        }
        r
    }

    /// Test `index` reports the event `e` (see `test_step`).
    pub fn test_event(&mut self, index: usize, e: TestEvent) -> (r: Vec<Action>)
        requires
            old(self).wf(),
            index < old(self)@.tests.len(),
        ensures
            final(self).wf(),
            final(self)@ == (TestSetView {
                tests: old(self)@.tests.update(
                    index as int,
                    test_step(old(self)@.tests[index as int], index, e@).0,
                ),
                ..old(self)@
            }),
            actions_view(r@) == test_step(old(self)@.tests[index as int], index, e@).1,
    {
        let ghost ev = e@;
        let mut t = self.tests.remove(index);
        let r = t.handle_event(index, e);
        self.tests.insert(index, t);
        proof {
            assert(views(self.tests@) =~= views(old(self).tests@).update(
                index as int,
                test_step(old(self)@.tests[index as int], index, ev).0,
            ));
            assert forall|i: int| 0 <= i < self.tests.len() implies (#[trigger] self.tests@[i]).wf() by {
                if i != index {
                    assert(self.tests@[i] == old(self).tests@[i]);
                }
            }
            assert forall|i: int| 0 <= i < self.tests.len() implies (#[trigger] self.tests@[i])@.id
                == old(self).tests@[i]@.id by {
                if i != index {
                    assert(self.tests@[i] == old(self).tests@[i]);
                }
            }
            lemma_aliases_same_ids(old(self).tests@, self.tests@, self@.aliases);
            assert forall|i: int| 0 <= i < self.scenarios.len() implies (#[trigger] self.scenarios@[i]).wf(
                self.tests.len() as nat,
            ) by {
                assert(old(self).scenarios@[i].wf(old(self).tests.len() as nat));
            }
        }
        r
    }

    /// Counts a broadcast: a failure adds one to the failures of every
    /// scenario (each counts up to `u32::MAX - 501`).
    pub fn note_broadcast(&mut self, msg: &BroadcastMessageContents)
        requires
            old(self).wf(),
        ensures
            final(self).wf(),
            final(self)@ == (TestSetView { scenarios: final(self)@.scenarios, ..old(self)@ }),
            final(self)@.scenarios.len() == old(self)@.scenarios.len(),
            forall|j: int|
                0 <= j < old(self)@.scenarios.len() ==> #[trigger] final(self)@.scenarios[j] == (ScenarioView {
                    failures: if msg is Fail && old(self)@.scenarios[j].failures + 1 < u32::MAX - 500 {
                        (old(self)@.scenarios[j].failures + 1) as u32
                    } else {
                        old(self)@.scenarios[j].failures
                    },
                    ..old(self)@.scenarios[j]
                }),
    {
        let mut k: usize = 0;
        while k < self.scenarios.len()
            invariant
                self.wf(),
                k <= self.scenarios.len(),
                self@ == (TestSetView { scenarios: self@.scenarios, ..old(self)@ }),
                self@.scenarios.len() == old(self)@.scenarios.len(),
                forall|j: int|
                    0 <= j < old(self)@.scenarios.len() ==> #[trigger] self@.scenarios[j] == if j < k {
                        ScenarioView {
                            failures: if msg is Fail && old(self)@.scenarios[j].failures + 1 < u32::MAX - 500 {
                                (old(self)@.scenarios[j].failures + 1) as u32
                            } else {
                                old(self)@.scenarios[j].failures
                            },
                            ..old(self)@.scenarios[j]
                        }
                    } else {
                        old(self)@.scenarios[j]
                    },
            decreases self.scenarios.len() - k,
        {
            let ghost before = *self;
            assert(before@.scenarios[k as int] == old(self)@.scenarios[k as int]);
            if self.scenarios[k].failures() < 0xffff_ffff - 501 {
                let mut s = self.scenarios.remove(k);
                s.note_broadcast(msg);
                self.scenarios.insert(k, s);
                proof {
                    assert(self.scenarios@ =~= before.scenarios@.update(k as int, self.scenarios@[k as int]));
                    Self::lemma_scenario_changed(&before, self, k as int);
                }
            }
            proof {
                assert(self@.scenarios =~= before@.scenarios.update(k as int, self@.scenarios[k as int]));
                assert forall|j: int| 0 <= j < old(self)@.scenarios.len() implies #[trigger] self@.scenarios[j]
                    == if j < k + 1 {
                    ScenarioView {
                        failures: if msg is Fail && old(self)@.scenarios[j].failures + 1 < u32::MAX - 500 {
                            (old(self)@.scenarios[j].failures + 1) as u32
                        } else {
                            old(self)@.scenarios[j].failures
                        },
                        ..old(self)@.scenarios[j]
                    }
                } else {
                    old(self)@.scenarios[j]
                } by {
                    if j != k {
                        assert(self@.scenarios[j] == before@.scenarios[j]);
                    }
                }
            }
            k = k + 1;
        }
    }
}


impl TestSet {
    /// Whether the test set can carry out `cmd` (see `command_ok`).
    pub fn accepts(&self, cmd: &TestSetCommand) -> (r: bool)
        requires
            self.wf(),
        ensures
            r == command_ok(self@, cmd@),
    {
        match cmd {
            TestSetCommand::StartScenario(Some(n)) => self.has_scenario(n.as_str()),
            TestSetCommand::SendTests(Some(n)) => self.has_scenario(n.as_str()),
            TestSetCommand::AdvanceScenario => self.scenario.is_some(),
            _ => true,
        }
    }

    /// After the scenarios are loaded: lists them, describes each, and
    /// describes the one in use.
    pub fn announce_scenarios(&self) -> (r: Vec<Action>)
        requires
            self.wf(),
        ensures
            actions_view(r@) == scenarios_announcement(self@) + descriptions(
                self@.scenarios,
                loaded_test_ids(self@.tests),
            ) + tests_announcement(self@, None),
    {
        proof {
            self.lemma_test_ids();
        }
        let ghost ids = loaded_test_ids(self@.tests);
        let mut r = self.send_scenarios();
        let ghost first = actions_view(r@);
        let mut k: usize = 0;
        while k < self.scenarios.len()
            invariant
                self.wf(),
                k <= self.scenarios.len(),
                ids == loaded_test_ids(self@.tests),
                test_ids(self.tests@) == ids,
                actions_view(r@) == first + descriptions(self@.scenarios.take(k as int), ids),
            decreases self.scenarios.len() - k,
        {
            let d = self.scenarios[k].describe(&self.tests);
            let ghost before = actions_view(r@);
            append_actions(&mut r, d);
            proof {
                let t = self@.scenarios.take(k + 1);
                assert(t.drop_last() =~= self@.scenarios.take(k as int));
                assert(t.last() == self@.scenarios[k as int]);
                assert(actions_view(r@) =~= first + descriptions(t, ids));
            }
            k = k + 1;
        }
        assert(self@.scenarios.take(self.scenarios.len() as int) =~= self@.scenarios);
        let t = self.send_tests(None);
        append_actions(&mut r, t);
        r
    }

    /// Carries out the command `cmd`, `elapsed_ms` after the current run
    /// started: the decisions of the test set's run loop.  `Shutdown` ends
    /// the loop; every other command goes on (`Started` where a run started
    /// now).
    pub fn handle(&mut self, cmd: TestSetCommand, elapsed_ms: u64) -> (r: (TestSetStep, Vec<Action>))
        requires
            old(self).wf(),
            command_ok(old(self)@, cmd@),
        ensures
            final(self).wf(),
            (r.0 is Shutdown) == (cmd@ is Shutdown),
            (r.0 is Started) == (cmd@ matches TestSetCommandView::StartScenario(n) && (chosen_scenario(
                old(self)@,
                n,
            ) matches Some(k) && (old(self)@.scenarios[k].state is Idle
                || old(self)@.scenarios[k].state is TestFinished))),
            match cmd@ {
                TestSetCommandView::Shutdown => final(self)@ == old(self)@ && r.1@.len() == 0,
                TestSetCommandView::DescribeJig => final(self)@ == old(self)@ && actions_view(r.1@)
                    == jig_announcement(old(self)@),
                TestSetCommandView::SendScenarios => final(self)@ == old(self)@ && actions_view(r.1@)
                    == scenarios_announcement(old(self)@),
                TestSetCommandView::SendTests(n) => final(self)@ == old(self)@ && actions_view(r.1@)
                    == tests_announcement(old(self)@, n),
                TestSetCommandView::SetScenario(n) => if scenario_ids(old(self)@.scenarios).contains(n) {
                    &&& final(self)@ == (TestSetView {
                        scenario: Some(scenario_ids(old(self)@.scenarios).index_of(n) as usize),
                        ..old(self)@
                    })
                    &&& actions_view(r.1@) == seq![
                        testset_says("standard"@, BroadcastContentsView::Scenario(n)),
                    ] + scenario_description(
                        old(self)@.scenarios[scenario_ids(old(self)@.scenarios).index_of(n)],
                        loaded_test_ids(old(self)@.tests),
                    )
                } else {
                    &&& final(self)@ == old(self)@
                    &&& actions_view(r.1@) == seq![
                        testset_says(
                            "debug-internal"@,
                            BroadcastContentsView::Log("Unable to find scenario: "@ + n),
                        ),
                    ]
                },
                TestSetCommandView::SetInterfaceHello(i, h) => r.1@.len() == 0 && final(self)@ == if interface_ids(
                    old(self)@.interfaces,
                ).contains(i) {
                    TestSetView {
                        interfaces: old(self)@.interfaces.update(
                            interface_ids(old(self)@.interfaces).index_of(i),
                            InterfaceView {
                                hello: h,
                                ..old(self)@.interfaces[interface_ids(old(self)@.interfaces).index_of(i)]
                            },
                        ),
                        ..old(self)@
                    }
                } else {
                    old(self)@
                },
                TestSetCommandView::StartScenario(n) => final(self)@ == start_result(old(self)@, n).1
                    && actions_view(r.1@) == start_result(old(self)@, n).2,
                TestSetCommandView::AdvanceScenario => final(self)@ == advance_result(
                    old(self)@,
                    elapsed_ms,
                ).0 && actions_view(r.1@) == advance_result(old(self)@, elapsed_ms).1,
                _ => final(self)@ == abort_result(old(self)@).0 && actions_view(r.1@) == abort_result(
                    old(self)@,
                ).1,
            },
    {
        match cmd {
            TestSetCommand::DescribeJig => (TestSetStep::Continue, self.describe_jig()),
            TestSetCommand::AbortScenario => (TestSetStep::Continue, self.abort_scenario()),
            TestSetCommand::SetScenario(n) => (TestSetStep::Continue, self.set_scenario(&n)),
            TestSetCommand::SetInterfaceHello(i, h) => {
                self.set_interface_hello(i, h);
                (TestSetStep::Continue, Vec::new())
            },
            TestSetCommand::StartScenario(n) => {
                let (started, a) = self.start_scenario(n);
                if started {
                    (TestSetStep::Started, a)
                } else {
                    (TestSetStep::Continue, a)
                }
            },
            TestSetCommand::AdvanceScenario => (TestSetStep::Continue, self.advance_scenario(elapsed_ms)),
            TestSetCommand::AbortTests => (TestSetStep::Continue, self.abort_scenario()),
            TestSetCommand::SendScenarios => (TestSetStep::Continue, self.send_scenarios()),
            TestSetCommand::SendTests(n) => (TestSetStep::Continue, self.send_tests(n)),
            TestSetCommand::Shutdown => (TestSetStep::Shutdown, Vec::new()),
        }
    }
}

} // verus!
