use vstd::prelude::*;

use crate::inifile::{ini_parse, ini_value, IniFile, IniSections};
use crate::text::{strings_view, tokenize, tokens, Separators};
use crate::types::fields::{or_default, own};

verus! {

#[verifier::ext_equal]
pub struct TestDevView {
    pub name: Seq<char>,
    pub description: Seq<char>,
    pub tests: Seq<Seq<char>>,
    pub success: Seq<char>,
    pub failure: Seq<char>,
}

/// The device under test, and its test plan, described by the `[Plan]`
/// section of an ini file.
#[derive(Debug)]
pub struct TestDev {
    /// The name of the product or device being tested.
    pub name: String,
    /// Description: A longer description of the device, up to one paragraph.
    description: String,
    /// Tests: The tests to run, separated by commas or whitespace.
    tests: Vec<String>,
    /// Success: A command to run if the plan completes successfully.
    success: String,
    /// Failure: A command to run if the plan fails.
    failure: String,
}

impl View for TestDev {
    type V = TestDevView;

    closed spec fn view(&self) -> TestDevView {
        TestDevView {
            name: self.name@,
            description: self.description@,
            tests: strings_view(self.tests@),
            success: self.success@,
            failure: self.failure@,
        }
    }
}

/// The value of `key` in the `[Plan]` section.
pub open spec fn plan_value(m: IniSections, key: Seq<char>) -> Option<Seq<char>> {
    ini_value(m, "Plan"@, key)
}

/// The plan that a file with a `[Plan]` section describes; its name is
/// `path` where it gives none.
pub open spec fn loaded_plan(path: Seq<char>, m: IniSections) -> TestDevView {
    TestDevView {
        name: or_default(plan_value(m, "Name"@), path),
        description: or_default(plan_value(m, "Description"@), seq![]),
        tests: match plan_value(m, "Tests"@) {
            None => seq![],
            Some(s) => tokens(s, Separators::CommaOrWhitespace),
        },
        success: or_default(plan_value(m, "Success"@), seq![]),
        failure: or_default(plan_value(m, "Failure"@), seq![]),
    }
}

/// What loading the plan file `path`, of text `text`, gives.
pub open spec fn plan_outcome(path: Seq<char>, text: Seq<char>) -> Result<TestDevView, Seq<char>> {
    match ini_parse(text) {
        None => Err("Unable to load test file"@),
        Some(m) => if m.dom().contains("Plan"@) {
            Ok(loaded_plan(path, m))
        } else {
            Err("Test is missing '[Plan]' section"@)
        },
    }
}

impl TestDev {
    /// The tests of the plan, in order.
    pub fn tests(&self) -> (r: &Vec<String>)
        ensures
            strings_view(r@) == self@.tests,
    {
        &self.tests
    }

    fn get_or(ini: &IniFile, key: &str, default: &String) -> (r: String)
        ensures
            r@ == or_default(plan_value(ini@, key@), default@),
    {
        match ini.get("Plan", key) {
            Some(s) => s,
            None => default.clone(),
        }
    }

    /// Loads the plan file `path`, whose text is `contents` (see
    /// `plan_outcome`).
    pub fn new(path: String, contents: &str) -> (r: Result<TestDev, &'static str>)
        ensures
            match r {
                Ok(t) => plan_outcome(path@, contents@) == Ok::<TestDevView, Seq<char>>(t@),
                Err(e) => plan_outcome(path@, contents@) == Err::<TestDevView, Seq<char>>(e@),
            },
    {
        match IniFile::parse(contents) {
            None => Err("Unable to load test file"),
            Some(ini) => Self::from_ini(path, &ini),
        }
    }

    /// Builds the plan `path` from the sections of its parsed file: an
    /// error where it has no `[Plan]` section, else the plan of
    /// `loaded_plan`.
    pub fn from_ini(path: String, ini: &IniFile) -> (r: Result<TestDev, &'static str>)
        ensures
            match r {
                Ok(t) => ini@.dom().contains("Plan"@) && t@ == loaded_plan(path@, ini@),
                Err(e) => !ini@.dom().contains("Plan"@) && e@ == "Test is missing '[Plan]' section"@,
            },
    {
        if !ini.has_section("Plan") {
            return Err("Test is missing '[Plan]' section");
        }
        proof {
            reveal_strlit("");
        }
        let empty = own("");
        let description = Self::get_or(ini, "Description", &empty);
        let name = Self::get_or(ini, "Name", &path);
        let success = Self::get_or(ini, "Success", &empty);
        let failure = Self::get_or(ini, "Failure", &empty);
        let tests = match ini.get("Plan", "Tests") {
            None => {
                let v: Vec<String> = Vec::new();
                assert(strings_view(v@) =~= seq![]);
                v
            },
            Some(s) => tokenize(s.as_str(), Separators::CommaOrWhitespace),
        };
        let t = TestDev {
            name: name,
            description: description,
            tests: tests,
            success: success,
            failure: failure,
        };
        assert(t@ =~= loaded_plan(path@, ini@));
        Ok(t)
    }
}

} // verus!
