use vstd::prelude::*;

use crate::config::opt_view;
use crate::text::{lowercase, str_eq, strings_view, to_lowercase};
use crate::types::fields::{compatible_spec, get_or, is_compatible, or_default, own, Directives};
use crate::unitfile::{get_spec, has_section_spec, UnitFile};

verus! {

#[derive(Debug, Clone, Copy, PartialEq, Eq, Structural)]
pub enum LoggerFormat {
    TabSeparatedValue,
    JSON,
}

#[derive(Debug)]
pub enum LoggerError {
    FileLoadError(String),
    MissingLoggerSection,
    MissingExecSection,
    ExecCommandFailed,
    InvalidType(String),
}

pub enum LoggerErrorView {
    FileLoadError(Seq<char>),
    MissingLoggerSection,
    MissingExecSection,
    ExecCommandFailed,
    InvalidType(Seq<char>),
}

impl View for LoggerError {
    type V = LoggerErrorView;

    open spec fn view(&self) -> LoggerErrorView {
        match self {
            LoggerError::FileLoadError(s) => LoggerErrorView::FileLoadError(s@),
            LoggerError::MissingLoggerSection => LoggerErrorView::MissingLoggerSection,
            LoggerError::MissingExecSection => LoggerErrorView::MissingExecSection,
            LoggerError::ExecCommandFailed => LoggerErrorView::ExecCommandFailed,
            LoggerError::InvalidType(s) => LoggerErrorView::InvalidType(s@),
        }
    }
}

#[verifier::ext_equal]
pub struct LoggerView {
    pub id: Seq<char>,
    pub name: Seq<char>,
    pub description: Option<Seq<char>>,
    pub format: LoggerFormat,
    pub exec_start: Seq<char>,
    pub working_directory: Option<Seq<char>>,
}

/// A logger: a program that is handed every log message.
pub struct Logger {
    id: String,
    name: String,
    description: Option<String>,
    format: LoggerFormat,
    exec_start: String,
    working_directory: Option<String>,
}

impl View for Logger {
    type V = LoggerView;

    closed spec fn view(&self) -> LoggerView {
        LoggerView {
            id: self.id@,
            name: self.name@,
            description: opt_view(self.description),
            format: self.format,
            exec_start: self.exec_start@,
            working_directory: opt_view(self.working_directory),
        }
    }
}

pub open spec fn logger_outcome(id: Seq<char>, m: Directives, jigs: Seq<Seq<char>>) -> Option<
    Result<LoggerView, LoggerErrorView>,
> {
    if !has_section_spec(m, "Logger"@) {
        Some(Err(LoggerErrorView::MissingLoggerSection))
    } else if !compatible_spec(m, "Logger"@, "Jigs"@, jigs) {
        None
    } else if get_spec(m, "Logger"@, "ExecStart"@) is None {
        Some(Err(LoggerErrorView::MissingExecSection))
    } else if get_spec(m, "Logger"@, "Format"@) matches Some(f) && lowercase(f) != "tsv"@
        && lowercase(f) != "json"@ {
        Some(Err(LoggerErrorView::InvalidType(get_spec(m, "Logger"@, "Format"@).unwrap())))
    } else {
        Some(
            Ok(
                LoggerView {
                    id: id,
                    name: or_default(get_spec(m, "Logger"@, "Name"@), id),
                    description: get_spec(m, "Logger"@, "Description"@),
                    format: if get_spec(m, "Logger"@, "Format"@) matches Some(f) && lowercase(f)
                        == "json"@ {
                        LoggerFormat::JSON
                    } else {
                        LoggerFormat::TabSeparatedValue
                    },
                    exec_start: get_spec(m, "Logger"@, "ExecStart"@).unwrap(),
                    working_directory: get_spec(m, "Logger"@, "WorkingDirectory"@),
                },
            ),
        )
    }
}

pub open spec fn logger_result_view(r: Option<Result<Logger, LoggerError>>) -> Option<
    Result<LoggerView, LoggerErrorView>,
> {
    match r {
        None => None,
        Some(Ok(t)) => Some(Ok(t@)),
        Some(Err(e)) => Some(Err(e@)),
    }
}

impl Logger {
    /// Loads the logger `id`; `None` where it is not compatible with the
    /// loaded jigs.
    pub fn new(id: &str, unitfile: &UnitFile, jigs: &Vec<String>) -> (r: Option<
        Result<Logger, LoggerError>,
    >)
        ensures
            logger_result_view(r) == logger_outcome(id@, unitfile@, strings_view(jigs@)),
    {
        if !unitfile.has_section("Logger") {
            return Some(Err(LoggerError::MissingLoggerSection));
        }
        if !is_compatible(unitfile, "Logger", "Jigs", jigs) {
            return None;
        }
        let description = unitfile.get("Logger", "Description");
        let name = get_or(unitfile, "Logger", "Name", id);
        let working_directory = unitfile.get("Logger", "WorkingDirectory");
        let exec_start = match unitfile.get("Logger", "ExecStart") {
            None => return Some(Err(LoggerError::MissingExecSection)),
            Some(s) => s,
        };
        let format = match unitfile.get("Logger", "Format") {
            None => LoggerFormat::TabSeparatedValue,
            Some(s) => {
                let lower = to_lowercase(s.as_str());
                if str_eq(lower.as_str(), "tsv") {
                    LoggerFormat::TabSeparatedValue
                } else if str_eq(lower.as_str(), "json") {
                    LoggerFormat::JSON
                } else {
                    return Some(Err(LoggerError::InvalidType(s)));
                }
            },
        };
        proof {
            reveal_strlit("tsv");
            reveal_strlit("json");
            assert("tsv"@[0] != "json"@[0]);
        }
        Some(
            Ok(
                Logger {
                    id: own(id),
                    name: name,
                    description: description,
                    format: format,
                    exec_start: exec_start,
                    working_directory: working_directory,
                },
            ),
        )
    }

    /// The directory the logger program runs from: the scenario's directory
    /// where given, else the logger's own.
    pub fn start_directory(&self, working_directory: &Option<String>) -> (r: Option<String>)
        ensures
            opt_view(r) == (match opt_view(*working_directory) {
                Some(s) => Some(s),
                None => self@.working_directory,
            }),
    {
        match working_directory {
            Some(s) => Some(s.clone()),
            None => self.working_directory.clone(),
        }
    }

    pub fn exec_start(&self) -> (r: &str)
        ensures
            r@ == self@.exec_start,
    {
        self.exec_start.as_str()
    }

    pub fn format(&self) -> (r: LoggerFormat)
        ensures
            r == self@.format,
    {
        self.format
    }

    pub fn id(&self) -> (r: &str)
        ensures
            r@ == self@.id,
    {
        self.id.as_str()
    }

    pub fn name(&self) -> (r: &str)
        ensures
            r@ == self@.name,
    {
        self.name.as_str()
    }

    /// The description, or the empty string where there is none.
    pub fn description(&self) -> (r: &str)
        ensures
            r@ == or_default(self@.description, seq![]),
    {
        proof {
            reveal_strlit("");
        }
        match &self.description {
            Some(s) => s.as_str(),
            None => "",
        }
    }

    pub fn kind(&self) -> (r: &'static str)
        ensures
            r@ == "logger"@,
    {
        "logger"
    }
}

} // verus!
