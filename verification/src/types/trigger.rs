use vstd::prelude::*;

use crate::config::opt_view;
use crate::process::CommandError;
use crate::text::strings_view;
use crate::types::fields::{compatible_spec, get_or, is_compatible, or_default, own, Directives};
use crate::unitfile::{get_spec, has_section_spec, UnitFile};

verus! {

#[derive(Debug)]
pub enum TriggerError {
    FileLoadError(String),
    MissingTriggerSection,
    MissingExecStart,
    TriggerSpawnError(CommandError),
}

#[verifier::ext_equal]
pub struct TriggerView {
    pub id: Seq<char>,
    pub name: Seq<char>,
    pub description: Option<Seq<char>>,
    pub exec_start: Seq<char>,
    pub working_directory: Option<Seq<char>>,
}

/// A trigger: a program whose output starts and stops scenarios.
pub struct Trigger {
    id: String,
    name: String,
    description: Option<String>,
    exec_start: String,
    working_directory: Option<String>,
}

impl View for Trigger {
    type V = TriggerView;

    closed spec fn view(&self) -> TriggerView {
        TriggerView {
            id: self.id@,
            name: self.name@,
            description: opt_view(self.description),
            exec_start: self.exec_start@,
            working_directory: opt_view(self.working_directory),
        }
    }
}

/// The outcome of loading a trigger: missing section and missing
/// `ExecStart` are errors (checked in that order, before compatibility);
/// `None` where the trigger is not compatible with the loaded jigs.
pub open spec fn trigger_outcome(id: Seq<char>, m: Directives, jigs: Seq<Seq<char>>) -> Option<
    Result<TriggerView, ()>,
> {
    if !has_section_spec(m, "Trigger"@) {
        Some(Err(()))
    } else if get_spec(m, "Trigger"@, "ExecStart"@) is None {
        Some(Err(()))
    } else if !compatible_spec(m, "Trigger"@, "Jigs"@, jigs) {
        None
    } else {
        Some(
            Ok(
                TriggerView {
                    id: id,
                    name: or_default(get_spec(m, "Trigger"@, "Name"@), id),
                    description: get_spec(m, "Trigger"@, "Description"@),
                    exec_start: get_spec(m, "Trigger"@, "ExecStart"@).unwrap(),
                    working_directory: get_spec(m, "Trigger"@, "WorkingDirectory"@),
                },
            ),
        )
    }
}

impl Trigger {
    /// Loads the trigger `id`; `None` where it is not compatible with the
    /// loaded jigs.
    pub fn new(id: &str, unitfile: &UnitFile, jigs: &Vec<String>) -> (r: Option<
        Result<Trigger, TriggerError>,
    >)
        ensures
            !has_section_spec(unitfile@, "Trigger"@) ==> r matches Some(
                Err(TriggerError::MissingTriggerSection),
            ),
            has_section_spec(unitfile@, "Trigger"@) && get_spec(unitfile@, "Trigger"@, "ExecStart"@)
                is None ==> r matches Some(Err(TriggerError::MissingExecStart)),
            trigger_outcome(id@, unitfile@, strings_view(jigs@)) is None ==> r is None,
            trigger_outcome(id@, unitfile@, strings_view(jigs@)) matches Some(Ok(v)) ==> (r matches Some(
                Ok(t),
            ) && t@ == v),
    {
        if !unitfile.has_section("Trigger") {
            return Some(Err(TriggerError::MissingTriggerSection));
        }
        let description = unitfile.get("Trigger", "Description");
        let name = get_or(unitfile, "Trigger", "Name", id);
        let exec_start = match unitfile.get("Trigger", "ExecStart") {
            None => return Some(Err(TriggerError::MissingExecStart)),
            Some(s) => s,
        };
        let working_directory = unitfile.get("Trigger", "WorkingDirectory");
        if !is_compatible(unitfile, "Trigger", "Jigs", jigs) {
            return None;
        }
        let t = Trigger {
            id: own(id),
            name: name,
            description: description,
            exec_start: exec_start,
            working_directory: working_directory,
        };
        assert(t@ =~= trigger_outcome(id@, unitfile@, strings_view(jigs@)).unwrap().unwrap());
        Some(Ok(t))
    }

    /// The directory the trigger program runs from: the scenario's directory
    /// where given, else the trigger's own.
    pub fn start_directory(&self, working_directory: &Option<String>) -> (r: Option<String>)
        ensures
            opt_view(r) == (match opt_view(*working_directory) {
                Some(s) => Some(s),
                None => self@.working_directory,
            }),
    {
        match working_directory {
            Some(s) => Some(s.clone()),
            None => self.working_directory.clone(),
        }
    }

    pub fn exec_start(&self) -> (r: &str)
        ensures
            r@ == self@.exec_start,
    {
        self.exec_start.as_str()
    }

    pub fn id(&self) -> (r: &str)
        ensures
            r@ == self@.id,
    {
        self.id.as_str()
    }

    pub fn kind(&self) -> (r: &'static str)
        ensures
            r@ == "trigger"@,
    {
        "trigger"
    }
}

} // verus!
