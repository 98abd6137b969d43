use vstd::prelude::*;

use crate::config::opt_view;

use ini::Ini;

verus! {

#[verifier::external_type_specification]
#[verifier::external_body]
pub struct ExIni(ini::Ini);

/// The sections of an ini file: for each named section, the keys of its
/// first occurrence, each with its first value.
pub type IniSections = Map<Seq<char>, Map<Seq<char>, Seq<char>>>;

/// What a parsed ini file holds (see `IniSections`).
pub uninterp spec fn ini_sections(i: Ini) -> IniSections;

/// What `ini::Ini::load_from_str` makes of a text: `None` where it reports
/// an error, else the sections of the file it returns.
pub uninterp spec fn ini_parse(text: Seq<char>) -> Option<IniSections>;

/// The value of `key` in the section `section`.
pub open spec fn ini_value(m: IniSections, section: Seq<char>, key: Seq<char>) -> Option<Seq<char>> {
    if m.dom().contains(section) && m[section].dom().contains(key) {
        Some(m[section][key])
    } else {
        None
    }
}

/// Calls `Ini::load_from_str`: the file it returns holds what the name
/// `ini_parse` gives for the text; its error is not kept.
#[verifier::external_body]
fn load_ini(text: &str) -> (r: Option<Ini>)
    ensures
        match r {
            Some(i) => ini_parse(text@) == Some(ini_sections(i)),
            None => ini_parse(text@) is None,
        },
{
    Ini::load_from_str(text).ok()
}

/// Calls `Ini::section` with a section name: whether the file has that
/// section.
#[verifier::external_body]
fn ini_has_section(i: &Ini, name: &str) -> (r: bool)
    ensures
        r == ini_sections(*i).dom().contains(name@),
{
    i.section(Some(name)).is_some()
}

/// Calls `Ini::get_from` with a section name: the value of `key` in that
/// section.
#[verifier::external_body]
fn ini_get_from(i: &Ini, section: &str, key: &str) -> (r: Option<String>)
    ensures
        opt_view(r) == ini_value(ini_sections(*i), section@, key@),
{
    i.get_from(Some(section), key).map(|s| s.to_string())
}

/// A parsed ini file.
pub struct IniFile {
    ini: Ini,
}

impl View for IniFile {
    type V = IniSections;

    closed spec fn view(&self) -> IniSections {
        ini_sections(self.ini)
    }
}

impl IniFile {
    /// Parses the text of an ini file; `None` where it is not one.
    pub fn parse(text: &str) -> (r: Option<IniFile>)
        ensures
            match r {
                Some(f) => ini_parse(text@) == Some(f@),
                None => ini_parse(text@) is None,
            },
    {
        match load_ini(text) {
            Some(i) => Some(IniFile { ini: i }),
            None => None,
        }
    }

    /// Whether the file has the section `name`.
    pub fn has_section(&self, name: &str) -> (r: bool)
        ensures
            r == self@.dom().contains(name@),
    {
        ini_has_section(&self.ini, name)
    }

    /// The value of `key` in the section `section`.
    pub fn get(&self, section: &str, key: &str) -> (r: Option<String>)
        ensures
            opt_view(r) == ini_value(self@, section@, key@),
    {
        ini_get_from(&self.ini, section, key)
    }
}

} // verus!
