use vstd::prelude::*;

use crate::config::opt_view;
use crate::text::str_eq;

use systemd_parser::items::SystemdUnit;

verus! {

#[verifier::external_type_specification]
#[verifier::external_body]
pub struct ExSystemdUnit(systemd_parser::items::SystemdUnit);

/// The lines of one key: the category (section) and value of each line that
/// sets the key, in the order of the file.
pub type DirectiveLines = Seq<(Seq<char>, Option<Seq<char>>)>;

/// What a parsed unit file holds: each directive key, with its lines.
pub uninterp spec fn unit_directives(u: SystemdUnit) -> Map<Seq<char>, DirectiveLines>;

/// What `systemd_parser::parse_string` makes of a text: `None` where it
/// reports an error, else the directives of the unit it returns.
pub uninterp spec fn systemd_parse(text: Seq<char>) -> Option<Map<Seq<char>, DirectiveLines>>;

/// Every key of a parsed unit has at least one line, and all of its lines
/// stand in one category (the parser refuses a key repeated across
/// categories).
pub open spec fn directives_wf(m: Map<Seq<char>, DirectiveLines>) -> bool {
    forall|k: Seq<char>|
        #![trigger m[k]]
        m.dom().contains(k) ==> {
            &&& m[k].len() > 0
            &&& forall|i: int| 0 <= i < m[k].len() ==> #[trigger] m[k][i].0 == m[k][0].0
        }
}

/// Calls `systemd_parser::parse_string`.  The unit it returns holds what the
/// name `systemd_parse` gives for the text; its error is handed back as its
/// `Debug` text, of which nothing is stated.
#[verifier::external_body]
fn parse_unit(text: &str) -> (r: Result<SystemdUnit, String>)
    ensures
        match r {
            Ok(u) => systemd_parse(text@) == Some(unit_directives(u)) && directives_wf(
                unit_directives(u),
            ),
            Err(_) => systemd_parse(text@) is None,
        },
{
    match systemd_parser::parse_string(text) {
        Ok(u) => Ok(u),
        Err(e) => Err(format!("{:?}", e)),
    }
}

/// Calls `SystemdUnit::has_category`: whether the category of some key (the
/// category of its first line) is `name`.
#[verifier::external_body]
fn unit_has_category(u: &SystemdUnit, name: &str) -> (r: bool)
    ensures
        r == (exists|k: Seq<char>|
            #![trigger unit_directives(*u)[k]]
            unit_directives(*u).dom().contains(k) && unit_directives(*u)[k][0].0 == name@),
{
    u.has_category(name)
}

/// The lines of a key handed back by `unit_lookup`, by view.
pub open spec fn lines_view(v: Seq<(String, Option<String>)>) -> DirectiveLines {
    v.map_values(|p: (String, Option<String>)| (p.0@, opt_view(p.1)))
}

/// Calls `SystemdUnit::lookup_by_key` and hands back every line that sets
/// `key` (category and value), in the order of the file.  A key the unit
/// holds has at least one line: a single line, or the two or more lines the
/// parser gathered.
#[verifier::external_body]
fn unit_lookup(u: &SystemdUnit, key: &str) -> (r: Option<Vec<(String, Option<String>)>>)
    ensures
        match r {
            None => !unit_directives(*u).dom().contains(key@),
            Some(v) => unit_directives(*u).dom().contains(key@) && lines_view(v@)
                == unit_directives(*u)[key@] && v@.len() >= 1,
        },
{
    match u.lookup_by_key(key) {
        None => None,
        Some(systemd_parser::items::DirectiveEntry::Solo(d)) => Some(
            vec![(d.category().to_string(), d.value().map(|s| s.to_string()))],
        ),
        Some(systemd_parser::items::DirectiveEntry::Many(m)) => Some(
            m.iter().map(|d| (d.category().to_string(), d.value().map(|s| s.to_string()))).collect(),
        ),
    }
}

/// Whether some key of `m` stands in the section `name`.
pub open spec fn has_section_spec(m: Map<Seq<char>, DirectiveLines>, name: Seq<char>) -> bool {
    exists|k: Seq<char>| #![trigger m[k]] m.dom().contains(k) && m[k][0].0 == name
}

/// The value of `key` in `section`: the value of the first line that sets
/// `key`, where that line stands in `section`.
pub open spec fn get_spec(m: Map<Seq<char>, DirectiveLines>, section: Seq<char>, key: Seq<char>) -> Option<
    Seq<char>,
> {
    if m.dom().contains(key) && m[key][0].0 == section {
        m[key][0].1
    } else {
        None
    }
}

#[derive(Debug)]
pub enum UnitFileError {
    FileUnreadable(String),
    FileReadError(String),
    FileParseError(String),
}

/// A parsed unit file (an ini-style file with `[Section]` headers).
pub struct UnitFile {
    unitfile: SystemdUnit,
}

impl View for UnitFile {
    type V = Map<Seq<char>, DirectiveLines>;

    closed spec fn view(&self) -> Map<Seq<char>, DirectiveLines> {
        unit_directives(self.unitfile)
    }
}

impl UnitFile {
    pub closed spec fn wf(&self) -> bool {
        directives_wf(self@)
    }

    /// Parses the text of a unit file.
    pub fn new(contents: &str) -> (r: Result<UnitFile, UnitFileError>)
        ensures
            r is Ok <==> systemd_parse(contents@) is Some,
            r matches Ok(u) ==> Some(u@) == systemd_parse(contents@) && u.wf(),
            r matches Err(e) ==> e is FileParseError,
    {
        match parse_unit(contents) {
            Ok(u) => Ok(UnitFile { unitfile: u }),
            Err(e) => Err(UnitFileError::FileParseError(e)),
        }
    }

    /// Whether some directive of the file stands in section `name`.
    pub fn has_section(&self, name: &str) -> (r: bool)
        ensures
            r == has_section_spec(self@, name@),
    {
        unit_has_category(&self.unitfile, name)
    }

    /// The value of `key` in `section` (see `get_spec`).
    pub fn get(&self, section: &str, key: &str) -> (r: Option<String>)
        ensures
            opt_view(r) == get_spec(self@, section@, key@),
    {
        match unit_lookup(&self.unitfile, key) {
            None => None,
            Some(lines) => {
                // The first line that sets the key decides.
                assert(lines_view(lines@)[0] == (lines@[0].0@, opt_view(lines@[0].1)));
                let (category, value) = &lines[0];
                if str_eq(category.as_str(), section) {
                    value.clone()
                } else {
                    None
                }
            },
        }
    }
}

} // verus!
