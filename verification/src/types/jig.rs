use vstd::prelude::*;

use crate::actions::{actions_view, broadcast, Action, ActionView};
use crate::config::opt_view;
use crate::controller::{BroadcastContentsView, BroadcastMessageContents};
use crate::types::fields::{first_of, get_first, get_or, or_default, own, Directives};
use crate::unitfile::{get_spec, has_section_spec, UnitFile};

verus! {

#[derive(Debug)]
pub enum JigError {
    MissingJigSection,
}

#[verifier::ext_equal]
pub struct JigView {
    pub id: Seq<char>,
    pub name: Seq<char>,
    pub description: Seq<char>,
    pub default_scenario: Option<Seq<char>>,
    pub working_directory: Option<Seq<char>>,
    pub default_working_directory: Option<Seq<char>>,
}

/// A jig: the device that hosts the tests.
pub struct Jig {
    id: String,
    name: String,
    description: String,
    default_scenario: Option<String>,
    working_directory: Option<String>,
    default_working_directory: Option<String>,
}

impl View for Jig {
    type V = JigView;

    closed spec fn view(&self) -> JigView {
        JigView {
            id: self.id@,
            name: self.name@,
            description: self.description@,
            default_scenario: opt_view(self.default_scenario),
            working_directory: opt_view(self.working_directory),
            default_working_directory: opt_view(self.default_working_directory),
        }
    }
}

/// What must be checked on this machine before a jig is accepted: the file
/// that must exist, the program that must succeed, and the directory that
/// program runs from.
pub struct JigProbe {
    pub test_file: Option<String>,
    pub test_program: Option<String>,
    pub working_directory: Option<String>,
}

/// Whether the probe of a jig passed: its `TestFile` (where given) exists
/// and its `TestProgram` (where given) succeeded.
pub open spec fn jig_probe_passed(m: Directives, test_file_exists: bool, test_program_passed: bool) -> bool {
    &&& get_spec(m, "Jig"@, "TestFile"@) is Some ==> test_file_exists
    &&& get_spec(m, "Jig"@, "TestProgram"@) is Some ==> test_program_passed
}

pub open spec fn loaded_jig(id: Seq<char>, m: Directives) -> JigView {
    JigView {
        id: id,
        name: or_default(get_spec(m, "Jig"@, "Name"@), id),
        description: or_default(get_spec(m, "Jig"@, "Description"@), seq![]),
        default_scenario: get_spec(m, "Jig"@, "DefaultScenario"@),
        working_directory: get_spec(m, "Jig"@, "WorkingDirectory"@),
        default_working_directory: first_of(
            get_spec(m, "Jig"@, "DefaultWorkingDirectory"@),
            get_spec(m, "Jig"@, "WorkingDirectory"@),
        ),
    }
}

/// The description of a jig: its name and its description.
pub open spec fn jig_description(j: JigView) -> Seq<ActionView> {
    seq![
        ActionView::Broadcast(
            "standard"@,
            j.id,
            "jig"@,
            BroadcastContentsView::Describe("jig"@, "name"@, j.id, j.name),
        ),
        ActionView::Broadcast(
            "standard"@,
            j.id,
            "jig"@,
            BroadcastContentsView::Describe("jig"@, "description"@, j.id, j.description),
        ),
    ]
}

impl Jig {
    /// The checks that decide whether this machine is the jig a unit file
    /// describes.
    pub fn probe(unitfile: &UnitFile) -> (r: JigProbe)
        ensures
            opt_view(r.test_file) == get_spec(unitfile@, "Jig"@, "TestFile"@),
            opt_view(r.test_program) == get_spec(unitfile@, "Jig"@, "TestProgram"@),
            opt_view(r.working_directory) == get_spec(unitfile@, "Jig"@, "WorkingDirectory"@),
    {
        JigProbe {
            test_file: unitfile.get("Jig", "TestFile"),
            test_program: unitfile.get("Jig", "TestProgram"),
            working_directory: unitfile.get("Jig", "WorkingDirectory"),
        }
    }

    /// Loads the jig `id`.  `test_file_exists` and `test_program_passed` are
    /// the outcomes of the checks that `probe` names; the jig is `None` (not
    /// the jig we are running on) where one of them failed.
    pub fn new(id: &str, unitfile: &UnitFile, test_file_exists: bool, test_program_passed: bool) -> (r:
        Option<Result<Jig, JigError>>)
        ensures
            !has_section_spec(unitfile@, "Jig"@) ==> r matches Some(Err(JigError::MissingJigSection)),
            has_section_spec(unitfile@, "Jig"@) && !jig_probe_passed(
                unitfile@,
                test_file_exists,
                test_program_passed,
            ) ==> r is None,
            has_section_spec(unitfile@, "Jig"@) && jig_probe_passed(
                unitfile@,
                test_file_exists,
                test_program_passed,
            ) ==> (r matches Some(Ok(j)) && j@ == loaded_jig(id@, unitfile@)),
    {
        if !unitfile.has_section("Jig") {
            return Some(Err(JigError::MissingJigSection));
        }
        if unitfile.get("Jig", "TestFile").is_some() && !test_file_exists {
            return None;
        }
        if unitfile.get("Jig", "TestProgram").is_some() && !test_program_passed {
            return None;
        }
        proof {
            reveal_strlit("");
        }
        let jig = Jig {
            id: own(id),
            name: get_or(unitfile, "Jig", "Name", id),
            description: get_or(unitfile, "Jig", "Description", ""),
            default_scenario: unitfile.get("Jig", "DefaultScenario"),
            working_directory: unitfile.get("Jig", "WorkingDirectory"),
            default_working_directory: get_first(
                unitfile,
                "Jig",
                "DefaultWorkingDirectory",
                "WorkingDirectory",
            ),
        };
        assert(jig@ =~= loaded_jig(id@, unitfile@));
        Some(Ok(jig))
    }

    /// The scenario to select at startup, if any.
    pub fn default_scenario(&self) -> (r: &Option<String>)
        ensures
            opt_view(*r) == self@.default_scenario,
    {
        &self.default_scenario
    }

    /// The directory that programs run from when their unit names none.
    pub fn default_working_directory(&self) -> (r: &Option<String>)
        ensures
            opt_view(*r) == self@.default_working_directory,
    {
        &self.default_working_directory
    }

    pub fn id(&self) -> (r: &str)
        ensures
            r@ == self@.id,
    {
        self.id.as_str()
    }

    pub fn name(&self) -> (r: &str)
        ensures
            r@ == self@.name,
    {
        self.name.as_str()
    }

    pub fn description(&self) -> (r: &str)
        ensures
            r@ == self@.description,
    {
        self.description.as_str()
    }

    pub fn kind(&self) -> (r: &'static str)
        ensures
            r@ == "jig"@,
    {
        "jig"
    }

    /// Broadcasts a description of the jig: its name and its description.
    pub fn describe(&self) -> (r: Vec<Action>)
        ensures
            actions_view(r@) == jig_description(self@),
    {
        let mut r: Vec<Action> = Vec::new();
        r.push(
            broadcast(
                "standard",
                self.id.as_str(),
                "jig",
                BroadcastMessageContents::Describe(own("jig"), own("name"), self.id.clone(), self.name.clone()),
            ),
        );
        r.push(
            broadcast(
                "standard",
                self.id.as_str(),
                "jig",
                BroadcastMessageContents::Describe(
                    own("jig"),
                    own("description"),
                    self.id.clone(),
                    self.description.clone(),
                ),
            ),
        );
        assert(actions_view(r@) =~= seq![r@[0]@, r@[1]@]);
        r
    }
}

} // verus!
