use vstd::prelude::*;

use crate::inifile::{ini_parse, ini_value, IniFile, IniSections};
use crate::text::{
    lowercase, parse_u32, parse_u32_spec, str_eq, strings_view, tokenize, tokens, Separators,
    to_lowercase,
};
use crate::types::fields::{or_default, own};

verus! {

#[derive(Debug, Clone, Copy, PartialEq, Eq, Structural)]
enum TestType {
    Simple,
    Daemon,
}

#[verifier::ext_equal]
pub struct TestEntryView {
    pub name: Seq<char>,
    pub description: Seq<char>,
    pub requires: Seq<Seq<char>>,
    pub suggests: Seq<Seq<char>>,
    pub timeout: u32,
    pub daemon: bool,
    pub exec_start: Seq<char>,
    pub exec_stop_fail: Seq<char>,
    pub exec_stop_success: Seq<char>,
}

/// A test described by the `[Test]` section of an ini file.
#[derive(Debug)]
pub struct TestEntry {
    /// Name: Defines the short name for this test.
    name: String,
    /// Description: Defines a detailed description of this test.
    description: String,
    /// Requires: The names of tests that must successfully complete first.
    requires: Vec<String>,
    /// Suggests: The names of tests that should be run first.
    suggests: Vec<String>,
    /// Timeout: The maximum number of seconds that this test may run for.
    timeout: u32,
    /// Type: "simple" or "daemon".
    test_type: TestType,
    /// ExecStart: The command to run as part of this test.
    exec_start: String,
    /// ExecStopFail: The command to run after the test failed.
    exec_stop_fail: String,
    /// ExecStopSuccess: The command to run after the test succeeded.
    exec_stop_success: String,
}

impl View for TestEntry {
    type V = TestEntryView;

    closed spec fn view(&self) -> TestEntryView {
        TestEntryView {
            name: self.name@,
            description: self.description@,
            requires: strings_view(self.requires@),
            suggests: strings_view(self.suggests@),
            timeout: self.timeout,
            daemon: self.test_type == TestType::Daemon,
            exec_start: self.exec_start@,
            exec_stop_fail: self.exec_stop_fail@,
            exec_stop_success: self.exec_stop_success@,
        }
    }
}

/// The value of `key` in the `[Test]` section.
pub open spec fn entry_value(m: IniSections, key: Seq<char>) -> Option<Seq<char>> {
    ini_value(m, "Test"@, key)
}

/// The first error of a test file, in the order the checks are made.
pub open spec fn entry_error(m: IniSections) -> Option<Seq<char>> {
    if !m.dom().contains("Test"@) {
        Some("Test is missing '[Test]' section"@)
    } else if entry_value(m, "Type"@) matches Some(t) && lowercase(t) != "simple"@ && lowercase(t)
        != "daemon"@ {
        Some("Test has invalid 'Type'"@)
    } else if entry_value(m, "ExecStart"@) is None {
        Some("Test is missing 'ExecStart'"@)
    } else {
        None
    }
}

/// A stop command: the specific one, else `ExecStop`, else empty.
pub open spec fn entry_stop(m: IniSections, key: Seq<char>) -> Seq<char> {
    match entry_value(m, key) {
        Some(s) => s,
        None => or_default(entry_value(m, "ExecStop"@), seq![]),
    }
}

/// A list field: the names separated by commas or whitespace; absent, the
/// empty list.
pub open spec fn entry_list(m: IniSections, key: Seq<char>) -> Seq<Seq<char>> {
    match entry_value(m, key) {
        None => seq![],
        Some(s) => tokens(s, Separators::CommaOrWhitespace),
    }
}

/// The test that a file without errors describes; its name is `path`
/// where it gives none, its timeout 2000 seconds.
pub open spec fn loaded_entry(path: Seq<char>, m: IniSections) -> TestEntryView {
    TestEntryView {
        name: or_default(entry_value(m, "Name"@), path),
        description: or_default(entry_value(m, "Description"@), seq![]),
        requires: entry_list(m, "Requires"@),
        suggests: entry_list(m, "Suggests"@),
        timeout: match entry_value(m, "Timeout"@) {
            None => 2000,
            Some(t) => parse_u32_spec(t).unwrap(),
        },
        daemon: entry_value(m, "Type"@) matches Some(t) && lowercase(t) == "daemon"@,
        exec_start: entry_value(m, "ExecStart"@).unwrap(),
        exec_stop_fail: entry_stop(m, "ExecStopFail"@),
        exec_stop_success: entry_stop(m, "ExecStopSuccess"@),
    }
}

/// What loading the test file `path`, of text `text`, gives.
pub open spec fn entry_outcome(path: Seq<char>, text: Seq<char>) -> Result<TestEntryView, Seq<char>> {
    match ini_parse(text) {
        None => Err("Unable to load test file"@),
        Some(m) => match entry_error(m) {
            Some(e) => Err(e),
            None => Ok(loaded_entry(path, m)),
        },
    }
}

/// A test file can be loaded: where it has no other error, its `Timeout`
/// (if any) is a number of seconds that fits in 32 bits.
pub open spec fn entry_loadable(text: Seq<char>) -> bool {
    ini_parse(text) matches Some(m) ==> entry_sections_loadable(m)
}

/// Parsed test file sections can be loaded: where they have no other
/// error, their `Timeout` (if any) is a number of seconds that fits in 32
/// bits.
pub open spec fn entry_sections_loadable(m: IniSections) -> bool {
    entry_error(m) is None ==> (entry_value(m, "Timeout"@) matches Some(t) ==> parse_u32_spec(t) is Some)
}

impl TestEntry {
    fn get_or(ini: &IniFile, key: &str, default: &String) -> (r: String)
        ensures
            r@ == or_default(entry_value(ini@, key@), default@),
    {
        match ini.get("Test", key) {
            Some(s) => s,
            None => default.clone(),
        }
    }

    fn get_list(ini: &IniFile, key: &str) -> (r: Vec<String>)
        ensures
            strings_view(r@) == entry_list(ini@, key@),
    {
        match ini.get("Test", key) {
            Some(s) => tokenize(s.as_str(), Separators::CommaOrWhitespace),
            None => {
                let r: Vec<String> = Vec::new();
                assert(strings_view(r@) =~= seq![]);
                r
            },
        }
    }

    fn get_stop(ini: &IniFile, key: &str) -> (r: String)
        ensures
            r@ == entry_stop(ini@, key@),
    {
        proof {
            reveal_strlit("");
        }
        match ini.get("Test", key) {
            Some(s) => s,
            None => Self::get_or(ini, "ExecStop", &own("")),
        }
    }

    /// Loads the test file `path`, whose text is `contents` (see
    /// `entry_outcome`).
    pub fn new(path: String, contents: &str) -> (r: Result<TestEntry, &'static str>)
        requires
            entry_loadable(contents@),
        ensures
            match r {
                Ok(t) => entry_outcome(path@, contents@) == Ok::<TestEntryView, Seq<char>>(t@),
                Err(e) => entry_outcome(path@, contents@) == Err::<TestEntryView, Seq<char>>(e@),
            },
    {
        match IniFile::parse(contents) {
            None => Err("Unable to load test file"),
            Some(ini) => Self::from_ini(path, &ini),
        }
    }

    /// Builds the test `path` from the sections of its parsed file: the
    /// first error that `entry_error` finds, else the test of
    /// `loaded_entry`.
    pub fn from_ini(path: String, ini: &IniFile) -> (r: Result<TestEntry, &'static str>)
        requires
            entry_sections_loadable(ini@),
        ensures
            match r {
                Ok(t) => entry_error(ini@) is None && t@ == loaded_entry(path@, ini@),
                Err(e) => entry_error(ini@) == Some(e@),
            },
    {
        if !ini.has_section("Test") {
            return Err("Test is missing '[Test]' section");
        }
        proof {
            reveal_strlit("simple");
            reveal_strlit("daemon");
            assert("simple"@[0] != "daemon"@[0]);
        }
        let test_type = match ini.get("Test", "Type") {
            None => TestType::Simple,
            Some(s) => {
                let lower = to_lowercase(s.as_str());
                if str_eq(lower.as_str(), "simple") {
                    TestType::Simple
                } else if str_eq(lower.as_str(), "daemon") {
                    TestType::Daemon
                } else {
                    return Err("Test has invalid 'Type'");
                }
            },
        };
        let exec_start = match ini.get("Test", "ExecStart") {
            None => return Err("Test is missing 'ExecStart'"),
            Some(s) => s,
        };
        let exec_stop_success = Self::get_stop(ini, "ExecStopSuccess");
        let exec_stop_fail = Self::get_stop(ini, "ExecStopFail");
        proof {
            reveal_strlit("");
        }
        let description = Self::get_or(ini, "Description", &own(""));
        let name = Self::get_or(ini, "Name", &path);
        let timeout: u32 = match ini.get("Test", "Timeout") {
            None => 2000,
            Some(s) => match parse_u32(s.as_str()) {
                Some(n) => n,
                None => 0,
            },
        };
        let required = Self::get_list(ini, "Requires");
        let suggests = Self::get_list(ini, "Suggests");
        let t = TestEntry {
            name: name,
            description: description,
            requires: required,
            suggests: suggests,
            timeout: timeout,
            test_type: test_type,
            exec_start: exec_start,
            exec_stop_fail: exec_stop_fail,
            exec_stop_success: exec_stop_success,
        };
        assert(t@ =~= loaded_entry(path@, ini@));
        Ok(t)
    }

    /// Loads the test file `path`, whose text is `contents`, where that can
    /// be done (see `entry_loadable`); `None` where it cannot.
    pub fn try_new(path: String, contents: &str) -> (r: Option<Result<TestEntry, &'static str>>)
        ensures
            r is None <==> !entry_loadable(contents@),
            match r {
                None => true,
                Some(Ok(t)) => entry_outcome(path@, contents@) == Ok::<TestEntryView, Seq<char>>(t@),
                Some(Err(e)) => entry_outcome(path@, contents@) == Err::<TestEntryView, Seq<char>>(e@),
            },
    {
        match IniFile::parse(contents) {
            None => {},
            Some(ini) => {
                if ini.has_section("Test") {
                    let type_ok = match ini.get("Test", "Type") {
                        None => true,
                        Some(s) => {
                            let lower = to_lowercase(s.as_str());
                            str_eq(lower.as_str(), "simple") || str_eq(lower.as_str(), "daemon")
                        },
                    };
                    if type_ok && ini.get("Test", "ExecStart").is_some() {
                        match ini.get("Test", "Timeout") {
                            None => {},
                            Some(t) => {
                                if parse_u32(t.as_str()).is_none() {
                                    return None;
                                }
                            },
                        }
                    }
                }
            },
        }
        Some(Self::new(path, contents))
    }

    /// The name of the test.
    pub fn name(&self) -> (r: &String)
        ensures
            r@ == self@.name,
    {
        &self.name
    }

    /// The tests that must pass before this one.
    pub fn required_tests(&self) -> (r: &Vec<String>)
        ensures
            strings_view(r@) == self@.requires,
    {
        &self.requires
    }
}

} // verus!
