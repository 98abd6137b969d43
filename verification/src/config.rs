use vstd::prelude::*;

verus! {

/// The mathematical model of a `Config`: all durations are whole seconds.
pub struct ConfigView {
    pub locale: Option<Seq<char>>,
    pub default_working_directory: Option<Seq<char>>,
    pub timeout: u64,
    pub scenario_timeout: u64,
    pub scenario_start_timeout: u64,
    pub scenario_success_timeout: u64,
    pub scenario_failure_timeout: u64,
    pub test_success_timeout: u64,
    pub test_failure_timeout: u64,
}

/// Global settings of the controller.  Every duration is held in seconds.
pub struct Config {
    locale: Option<String>,
    default_working_directory: Option<String>,
    timeout: u64,
    scenario_timeout: u64,
    scenario_start_timeout: u64,
    scenario_success_timeout: u64,
    scenario_failure_timeout: u64,
    test_success_timeout: u64,
    test_failure_timeout: u64,
}

/// The view of an optional string.
pub open spec fn opt_view(o: Option<String>) -> Option<Seq<char>> {
    match o {
        Some(s) => Some(s@),
        None => None,
    }
}

/// The view of an optional string slice.
pub open spec fn opt_str_view(o: Option<&str>) -> Option<Seq<char>> {
    match o {
        Some(s) => Some(s@),
        None => None,
    }
}

impl View for Config {
    type V = ConfigView;

    closed spec fn view(&self) -> ConfigView {
        ConfigView {
            locale: opt_view(self.locale),
            default_working_directory: opt_view(self.default_working_directory),
            timeout: self.timeout,
            scenario_timeout: self.scenario_timeout,
            scenario_start_timeout: self.scenario_start_timeout,
            scenario_success_timeout: self.scenario_success_timeout,
            scenario_failure_timeout: self.scenario_failure_timeout,
            test_success_timeout: self.test_success_timeout,
            test_failure_timeout: self.test_failure_timeout,
        }
    }
}

/// Copies an optional string slice into an owned optional string.
pub fn opt_to_owned(o: Option<&str>) -> (r: Option<String>)
    ensures
        opt_view(r) == opt_str_view(o),
{
    match o {
        None => None,
        Some(s) => Some(s.to_string()),
    }
}

impl Config {
    /// The default configuration: no locale and no default working
    /// directory, a command timeout of an hour, a scenario timeout of two
    /// hours, and ten seconds for every start and stop command.
    pub fn new() -> (c: Config)
        ensures
            c@ == (ConfigView {
                locale: None,
                default_working_directory: None,
                timeout: 3600,
                scenario_timeout: 7200,
                scenario_start_timeout: 10,
                scenario_success_timeout: 10,
                scenario_failure_timeout: 10,
                test_success_timeout: 10,
                test_failure_timeout: 10,
            }),
    {
        Config {
            locale: None,
            default_working_directory: None,
            timeout: 3600,
            scenario_timeout: 7200,
            scenario_start_timeout: 10,
            scenario_success_timeout: 10,
            scenario_failure_timeout: 10,
            test_success_timeout: 10,
            test_failure_timeout: 10,
        }
    }

    /// Sets (or clears) the locale.
    pub fn set_locale(&mut self, locale: Option<&str>)
        ensures
            final(self)@ == (ConfigView { locale: opt_str_view(locale), ..old(self)@ }),
    {
        self.locale = opt_to_owned(locale);
    }

    /// Sets the maximum number of seconds an individual command may run.
    pub fn set_timeout(&mut self, timeout: u64)
        ensures
            final(self)@ == (ConfigView { timeout: timeout, ..old(self)@ }),
    {
        self.timeout = timeout;
    }

    /// Sets (or clears) the working directory used when a unit names none.
    pub fn set_default_working_directory(&mut self, wd: Option<&str>)
        ensures
            final(self)@ == (ConfigView { default_working_directory: opt_str_view(wd), ..old(self)@ }),
    {
        self.default_working_directory = opt_to_owned(wd);
    }

    pub fn locale(&self) -> (r: &Option<String>)
        ensures
            opt_view(*r) == self@.locale,
    {
        &self.locale
    }

    pub fn default_working_directory(&self) -> (r: &Option<String>)
        ensures
            opt_view(*r) == self@.default_working_directory,
    {
        &self.default_working_directory
    }

    /// Seconds an individual command may run.
    pub fn timeout(&self) -> (r: u64)
        ensures
            r == self@.timeout,
    {
        self.timeout
    }

    pub fn test_success_timeout(&self) -> (r: u64)
        ensures
            r == self@.test_success_timeout,
    {
        self.test_success_timeout
    }

    pub fn test_failure_timeout(&self) -> (r: u64)
        ensures
            r == self@.test_failure_timeout,
    {
        self.test_failure_timeout
    }

    pub fn scenario_timeout(&self) -> (r: u64)
        ensures
            r == self@.scenario_timeout,
    {
        self.scenario_timeout
    }

    pub fn scenario_start_timeout(&self) -> (r: u64)
        ensures
            r == self@.scenario_start_timeout,
    {
        self.scenario_start_timeout
    }

    pub fn scenario_success_timeout(&self) -> (r: u64)
        ensures
            r == self@.scenario_success_timeout,
    {
        self.scenario_success_timeout
    }

    pub fn scenario_failure_timeout(&self) -> (r: u64)
        ensures
            r == self@.scenario_failure_timeout,
    {
        self.scenario_failure_timeout
    }
}

} // verus!
