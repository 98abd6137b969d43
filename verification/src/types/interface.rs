use vstd::prelude::*;

use crate::config::{opt_view, Config};
use crate::text::{lowercase, str_eq, strings_view, to_lowercase};
use crate::types::fields::{compatible_spec, get_or, is_compatible, or_default, own, Directives};
use crate::unitfile::{get_spec, has_section_spec, UnitFile};

verus! {

/// The protocol an interface program speaks on its standard input.
#[derive(Debug, Clone, Copy, PartialEq, Eq, Structural)]
pub enum InterfaceFormat {
    Text,
    JSON,
}

#[derive(Debug)]
pub enum InterfaceError {
    FileLoadError,
    MissingInterfaceSection,
    MissingExecSection,
    ExecCommandFailed,
    InvalidType(String),
}

pub enum InterfaceErrorView {
    FileLoadError,
    MissingInterfaceSection,
    MissingExecSection,
    ExecCommandFailed,
    InvalidType(Seq<char>),
}

impl View for InterfaceError {
    type V = InterfaceErrorView;

    open spec fn view(&self) -> InterfaceErrorView {
        match self {
            InterfaceError::FileLoadError => InterfaceErrorView::FileLoadError,
            InterfaceError::MissingInterfaceSection => InterfaceErrorView::MissingInterfaceSection,
            InterfaceError::MissingExecSection => InterfaceErrorView::MissingExecSection,
            InterfaceError::ExecCommandFailed => InterfaceErrorView::ExecCommandFailed,
            InterfaceError::InvalidType(s) => InterfaceErrorView::InvalidType(s@),
        }
    }
}

#[verifier::ext_equal]
pub struct InterfaceView {
    pub id: Seq<char>,
    pub name: Seq<char>,
    pub description: Option<Seq<char>>,
    pub format: InterfaceFormat,
    pub exec_start: Seq<char>,
    pub working_directory: Option<Seq<char>>,
    pub hello: Seq<char>,
}

/// An interface: a program that shows the progress of the tests and may
/// control them.
pub struct Interface {
    id: String,
    name: String,
    description: Option<String>,
    format: InterfaceFormat,
    exec_start: String,
    working_directory: Option<String>,
    hello: String,
}

impl View for Interface {
    type V = InterfaceView;

    closed spec fn view(&self) -> InterfaceView {
        InterfaceView {
            id: self.id@,
            name: self.name@,
            description: opt_view(self.description),
            format: self.format,
            exec_start: self.exec_start@,
            working_directory: opt_view(self.working_directory),
            hello: self.hello@,
        }
    }
}

pub open spec fn interface_outcome(
    id: Seq<char>,
    m: Directives,
    jigs: Seq<Seq<char>>,
    config: crate::config::ConfigView,
) -> Option<Result<InterfaceView, InterfaceErrorView>> {
    if !has_section_spec(m, "Interface"@) {
        Some(Err(InterfaceErrorView::MissingInterfaceSection))
    } else if !compatible_spec(m, "Interface"@, "Jigs"@, jigs) {
        None
    } else if get_spec(m, "Interface"@, "ExecStart"@) is None {
        Some(Err(InterfaceErrorView::MissingExecSection))
    } else if get_spec(m, "Interface"@, "Format"@) matches Some(f) && lowercase(f) != "text"@
        && lowercase(f) != "json"@ {
        Some(Err(InterfaceErrorView::InvalidType(get_spec(m, "Interface"@, "Format"@).unwrap())))
    } else {
        Some(
            Ok(
                InterfaceView {
                    id: id,
                    name: or_default(get_spec(m, "Interface"@, "Name"@), id),
                    description: get_spec(m, "Interface"@, "Description"@),
                    format: if get_spec(m, "Interface"@, "Format"@) matches Some(f) && lowercase(f)
                        == "json"@ {
                        InterfaceFormat::JSON
                    } else {
                        InterfaceFormat::Text
                    },
                    exec_start: get_spec(m, "Interface"@, "ExecStart"@).unwrap(),
                    working_directory: match get_spec(m, "Interface"@, "WorkingDirectory"@) {
                        Some(d) => Some(d),
                        None => config.default_working_directory,
                    },
                    hello: seq![],
                },
            ),
        )
    }
}

pub open spec fn interface_result_view(r: Option<Result<Interface, InterfaceError>>) -> Option<
    Result<InterfaceView, InterfaceErrorView>,
> {
    match r {
        None => None,
        Some(Ok(t)) => Some(Ok(t@)),
        Some(Err(e)) => Some(Err(e@)),
    }
}

impl Interface {
    /// Loads the interface `id`; `None` where it is not compatible with the
    /// loaded jigs.  Without a `WorkingDirectory` it runs from the default
    /// working directory of `config`.
    pub fn new(id: &str, unitfile: &UnitFile, jigs: &Vec<String>, config: &Config) -> (r: Option<
        Result<Interface, InterfaceError>,
    >)
        ensures
            interface_result_view(r) == interface_outcome(
                id@,
                unitfile@,
                strings_view(jigs@),
                config@,
            ),
    {
        if !unitfile.has_section("Interface") {
            return Some(Err(InterfaceError::MissingInterfaceSection));
        }
        if !is_compatible(unitfile, "Interface", "Jigs", jigs) {
            return None;
        }
        let description = unitfile.get("Interface", "Description");
        let name = get_or(unitfile, "Interface", "Name", id);
        let exec_start = match unitfile.get("Interface", "ExecStart") {
            None => return Some(Err(InterfaceError::MissingExecSection)),
            Some(s) => s,
        };
        let working_directory = match unitfile.get("Interface", "WorkingDirectory") {
            None => config.default_working_directory().clone(),
            Some(s) => Some(s),
        };
        let format = match unitfile.get("Interface", "Format") {
            None => InterfaceFormat::Text,
            Some(s) => {
                let lower = to_lowercase(s.as_str());
                if str_eq(lower.as_str(), "text") {
                    InterfaceFormat::Text
                } else if str_eq(lower.as_str(), "json") {
                    InterfaceFormat::JSON
                } else {
                    return Some(Err(InterfaceError::InvalidType(s)));
                }
            },
        };
        proof {
            reveal_strlit("text");
            reveal_strlit("json");
            reveal_strlit("");
            assert("text"@[0] != "json"@[0]);
        }
        let i = Interface {
            id: own(id),
            name: name,
            description: description,
            format: format,
            exec_start: exec_start,
            working_directory: working_directory,
            hello: own(""),
        };
        assert(interface_outcome(id@, unitfile@, strings_view(jigs@), config@) matches Some(Ok(v))
            && i@ =~= v);
        Some(Ok(i))
    }

    /// Records the identifier that the interface program announced.
    pub fn set_hello(&mut self, hello: String)
        ensures
            final(self)@ == (InterfaceView { hello: hello@, ..old(self)@ }),
    {
        self.hello = hello;
    }

    /// The directory the interface program runs from: its own where given,
    /// else the scenario's.
    pub fn start_directory(&self, working_directory: &Option<String>) -> (r: Option<String>)
        ensures
            opt_view(r) == (match self@.working_directory {
                Some(s) => Some(s),
                None => opt_view(*working_directory),
            }),
    {
        match &self.working_directory {
            Some(s) => Some(s.clone()),
            None => working_directory.clone(),
        }
    }

    pub fn exec_start(&self) -> (r: &str)
        ensures
            r@ == self@.exec_start,
    {
        self.exec_start.as_str()
    }

    pub fn format(&self) -> (r: InterfaceFormat)
        ensures
            r == self@.format,
    {
        self.format
    }

    pub fn hello(&self) -> (r: &str)
        ensures
            r@ == self@.hello,
    {
        self.hello.as_str()
    }

    pub fn id(&self) -> (r: &str)
        ensures
            r@ == self@.id,
    {
        self.id.as_str()
    }

    pub fn kind(&self) -> (r: &'static str)
        ensures
            r@ == "interface"@,
    {
        "interface"
    }

    pub fn name(&self) -> (r: &str)
        ensures
            r@ == self@.name,
    {
        self.name.as_str()
    }

    /// The description, or the empty string where there is none.
    pub fn description(&self) -> (r: &str)
        ensures
            r@ == or_default(self@.description, seq![]),
    {
        proof {
            reveal_strlit("");
        }
        match &self.description {
            Some(s) => s.as_str(),
            None => "",
        }
    }
}

} // verus!
