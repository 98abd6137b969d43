use vstd::prelude::*;

use crate::config::opt_view;
use crate::testset::{TestSetCommand, TestSetCommandView};
use crate::text::strings_view;
use crate::types::fields::own;

use std::sync::mpsc::Sender;

verus! {

#[verifier::external_type_specification]
#[verifier::external_body]
#[verifier::reject_recursive_types(T)]
pub struct ExSender<T>(std::sync::mpsc::Sender<T>);

/// What is announced on the broadcast bus.
#[derive(Clone, Debug)]
pub enum BroadcastMessageContents {
    Log(String),
    /// DESCRIBE [type] [field] [item] [value]
    Describe(String, String, String, String),
    /// SCENARIO [string] -- Sets the scenario to the specified id
    Scenario(String),
    /// SCENARIOS [first] [...] -- Lists the scenarios that are available
    Scenarios(Vec<String>),
    /// JIG [jig-id] -- Identifies the Jig with the provided ID
    Jig(String),
    /// SHUTDOWN [reason] -- Shuts down the test infrastructure
    Shutdown(String),
    /// TESTS [list of tests] -- Report the tests associated with a scenario
    Tests(String, Vec<String>),
    /// START [scenario] -- Report when a scenario is started
    Start(String),
    /// Report when a scenario is finished: the scenario, the result code and
    /// the reason (sent as FINISH [code] [scenario] [reason])
    Finish(String, u32, String),
    /// SKIP [scenario] [reason] -- Don't run a test, for some reason
    Skip(String, String),
    /// RUNNING [test] -- Report when a test has started running
    Running(String),
    /// PASS [test] [message] -- Report when a test has passed
    Pass(String, String),
    /// FAIL [test] [reason] -- Report when a test has failed
    Fail(String, String),
}

pub enum BroadcastContentsView {
    Log(Seq<char>),
    Describe(Seq<char>, Seq<char>, Seq<char>, Seq<char>),
    Scenario(Seq<char>),
    Scenarios(Seq<Seq<char>>),
    Jig(Seq<char>),
    Shutdown(Seq<char>),
    Tests(Seq<char>, Seq<Seq<char>>),
    Start(Seq<char>),
    Finish(Seq<char>, u32, Seq<char>),
    Skip(Seq<char>, Seq<char>),
    Running(Seq<char>),
    Pass(Seq<char>, Seq<char>),
    Fail(Seq<char>, Seq<char>),
}

impl View for BroadcastMessageContents {
    type V = BroadcastContentsView;

    open spec fn view(&self) -> BroadcastContentsView {
        match self {
            BroadcastMessageContents::Log(a) => BroadcastContentsView::Log(a@),
            BroadcastMessageContents::Describe(a, b, c, d) => BroadcastContentsView::Describe(
                a@,
                b@,
                c@,
                d@,
            ),
            BroadcastMessageContents::Scenario(a) => BroadcastContentsView::Scenario(a@),
            BroadcastMessageContents::Scenarios(l) => BroadcastContentsView::Scenarios(
                strings_view(l@),
            ),
            BroadcastMessageContents::Jig(a) => BroadcastContentsView::Jig(a@),
            BroadcastMessageContents::Shutdown(a) => BroadcastContentsView::Shutdown(a@),
            BroadcastMessageContents::Tests(a, l) => BroadcastContentsView::Tests(
                a@,
                strings_view(l@),
            ),
            BroadcastMessageContents::Start(a) => BroadcastContentsView::Start(a@),
            BroadcastMessageContents::Finish(a, n, b) => BroadcastContentsView::Finish(a@, *n, b@),
            BroadcastMessageContents::Skip(a, b) => BroadcastContentsView::Skip(a@, b@),
            BroadcastMessageContents::Running(a) => BroadcastContentsView::Running(a@),
            BroadcastMessageContents::Pass(a, b) => BroadcastContentsView::Pass(a@, b@),
            BroadcastMessageContents::Fail(a, b) => BroadcastContentsView::Fail(a@, b@),
        }
    }
}

/// What units send to the controller.
#[derive(Debug)]
pub enum ControlMessageContents {
    Log(String),
    Hello(String),
    Scenario(String),
    Pong(String),
    GetScenarios,
    GetJig,
    GetTests(Option<String>),
    StartScenario(Option<String>),
    AbortTests,
    Shutdown(Option<String>),
    /// Causes the currently-executing Scenario to move to the next step.
    AdvanceScenario,
    /// Sets the communications channel to control the TestSet
    SetTestsetChannel(Sender<TestSetCommand>),
}

pub enum ControlContentsView {
    Log(Seq<char>),
    Hello(Seq<char>),
    Scenario(Seq<char>),
    Pong(Seq<char>),
    GetScenarios,
    GetJig,
    GetTests(Option<Seq<char>>),
    StartScenario(Option<Seq<char>>),
    AbortTests,
    Shutdown(Option<Seq<char>>),
    AdvanceScenario,
    SetTestsetChannel,
}

impl View for ControlMessageContents {
    type V = ControlContentsView;

    open spec fn view(&self) -> ControlContentsView {
        match self {
            ControlMessageContents::Log(a) => ControlContentsView::Log(a@),
            ControlMessageContents::Hello(a) => ControlContentsView::Hello(a@),
            ControlMessageContents::Scenario(a) => ControlContentsView::Scenario(a@),
            ControlMessageContents::Pong(a) => ControlContentsView::Pong(a@),
            ControlMessageContents::GetScenarios => ControlContentsView::GetScenarios,
            ControlMessageContents::GetJig => ControlContentsView::GetJig,
            ControlMessageContents::GetTests(a) => ControlContentsView::GetTests(opt_view(*a)),
            ControlMessageContents::StartScenario(a) => ControlContentsView::StartScenario(
                opt_view(*a),
            ),
            ControlMessageContents::AbortTests => ControlContentsView::AbortTests,
            ControlMessageContents::Shutdown(a) => ControlContentsView::Shutdown(opt_view(*a)),
            ControlMessageContents::AdvanceScenario => ControlContentsView::AdvanceScenario,
            ControlMessageContents::SetTestsetChannel(_) => ControlContentsView::SetTestsetChannel,
        }
    }
}

/// A message on the broadcast bus.
#[derive(Clone, Debug)]
pub struct BroadcastMessage {
    /// A string identifying what type of message it is.
    pub message_class: String,
    /// The name of the unit that generated the message.
    pub unit_id: String,
    /// The type of unit, such as "test", "logger", "trigger", etc.
    pub unit_type: String,
    /// Number of seconds since the epoch
    pub unix_time: u64,
    /// Number of nanoseconds since the epoch
    pub unix_time_nsecs: u32,
    /// The actual contents of the message being sent.
    pub message: BroadcastMessageContents,
}

pub struct BroadcastMessageView {
    pub message_class: Seq<char>,
    pub unit_id: Seq<char>,
    pub unit_type: Seq<char>,
    pub unix_time: u64,
    pub unix_time_nsecs: u32,
    pub message: BroadcastContentsView,
}

impl View for BroadcastMessage {
    type V = BroadcastMessageView;

    open spec fn view(&self) -> BroadcastMessageView {
        BroadcastMessageView {
            message_class: self.message_class@,
            unit_id: self.unit_id@,
            unit_type: self.unit_type@,
            unix_time: self.unix_time,
            unix_time_nsecs: self.unix_time_nsecs,
            message: self.message@,
        }
    }
}

/// A message to the controller.
#[derive(Debug)]
pub struct ControlMessage {
    /// A string indicating what sort of message it is.
    pub message_class: String,
    /// The name of the unit that generated the message.
    pub unit_id: String,
    /// The type of unit, such as "test", "logger", "trigger", etc.
    pub unit_type: String,
    /// Number of seconds since the epoch
    pub unix_time: u64,
    /// Number of nanoseconds since the epoch
    pub unix_time_nsecs: u32,
    /// The actual contents of the message being sent.
    pub message: ControlMessageContents,
}

impl BroadcastMessage {
    /// A broadcast from unit `unit_id` of type `unit_type`, stamped with the
    /// given time since the epoch.
    pub fn new(
        message_class: &str,
        unit_id: &str,
        unit_type: &str,
        unix_time: u64,
        unix_time_nsecs: u32,
        message: BroadcastMessageContents,
    ) -> (r: BroadcastMessage)
        ensures
            r@ == (BroadcastMessageView {
                message_class: message_class@,
                unit_id: unit_id@,
                unit_type: unit_type@,
                unix_time: unix_time,
                unix_time_nsecs: unix_time_nsecs,
                message: message@,
            }),
    {
        BroadcastMessage {
            message_class: own(message_class),
            unit_id: own(unit_id),
            unit_type: own(unit_type),
            unix_time: unix_time,
            unix_time_nsecs: unix_time_nsecs,
            message: message,
        }
    }

    /// Whether this is a log message (what loggers are handed).
    pub fn is_log(&self) -> (r: bool)
        ensures
            r == (self.message is Log),
    {
        match self.message {
            BroadcastMessageContents::Log(_) => true,
            _ => false,
        }
    }
}

impl ControlMessage {
    /// A control message from unit `unit_id` of type `unit_type`, stamped
    /// with the given time since the epoch.
    pub fn new(
        message_class: &str,
        unit_id: &str,
        unit_type: &str,
        unix_time: u64,
        unix_time_nsecs: u32,
        message: ControlMessageContents,
    ) -> (r: ControlMessage)
        ensures
            r.message_class@ == message_class@,
            r.unit_id@ == unit_id@,
            r.unit_type@ == unit_type@,
            r.unix_time == unix_time,
            r.unix_time_nsecs == unix_time_nsecs,
            r.message == message,
    {
        ControlMessage {
            message_class: own(message_class),
            unit_id: own(unit_id),
            unit_type: own(unit_type),
            unix_time: unix_time,
            unix_time_nsecs: unix_time_nsecs,
            message: message,
        }
    }
}

/// What the controller does with one control message.
pub enum ControlAction {
    /// From now on, commands go to this test set.
    SetTestSet(Sender<TestSetCommand>),
    /// No test set is known yet: the message is dropped with a warning.
    NoTestSet,
    /// Broadcast the message (where there is one), then send the commands to
    /// the test set, in order.
    Dispatch(Option<BroadcastMessage>, Vec<TestSetCommand>),
}

pub open spec fn commands_view(v: Seq<TestSetCommand>) -> Seq<TestSetCommandView> {
    v.map_values(|c: TestSetCommand| c@)
}

/// The header of `msg`, carried over onto a broadcast with `contents`.
pub open spec fn rebroadcast(msg: ControlMessage, contents: BroadcastContentsView) -> BroadcastMessageView {
    BroadcastMessageView {
        message_class: msg.message_class@,
        unit_id: msg.unit_id@,
        unit_type: msg.unit_type@,
        unix_time: msg.unix_time,
        unix_time_nsecs: msg.unix_time_nsecs,
        message: contents,
    }
}

/// What the controller broadcasts and which commands it sends to the test
/// set, for a control message that arrives once a test set is known.
pub open spec fn dispatch_spec(msg: ControlMessage) -> (Option<BroadcastMessageView>, Seq<
    TestSetCommandView,
>) {
    match msg.message@ {
        ControlContentsView::Log(l) => (
            Some(rebroadcast(msg, BroadcastContentsView::Log(l))),
            seq![],
        ),
        ControlContentsView::GetJig => (None, seq![TestSetCommandView::DescribeJig]),
        ControlContentsView::Scenario(s) => (
            None,
            seq![TestSetCommandView::AbortScenario, TestSetCommandView::SetScenario(s)],
        ),
        ControlContentsView::Hello(s) => (
            None,
            seq![TestSetCommandView::SetInterfaceHello(msg.unit_id@, s)],
        ),
        ControlContentsView::Shutdown(s) => (
            Some(
                rebroadcast(
                    msg,
                    BroadcastContentsView::Shutdown(
                        match s {
                            Some(r) => r,
                            None => "(no reason)"@,
                        },
                    ),
                ),
            ),
            seq![TestSetCommandView::Shutdown],
        ),
        ControlContentsView::Pong(_) => (None, seq![]),
        ControlContentsView::StartScenario(s) => (
            None,
            seq![TestSetCommandView::StartScenario(s)],
        ),
        ControlContentsView::AbortTests => (None, seq![TestSetCommandView::AbortTests]),
        ControlContentsView::AdvanceScenario => (None, seq![TestSetCommandView::AdvanceScenario]),
        ControlContentsView::GetScenarios => (None, seq![TestSetCommandView::SendScenarios]),
        ControlContentsView::GetTests(s) => (None, seq![TestSetCommandView::SendTests(s)]),
        ControlContentsView::SetTestsetChannel => (None, seq![]),
    }
}

pub open spec fn opt_broadcast_view(b: Option<BroadcastMessage>) -> Option<BroadcastMessageView> {
    match b {
        Some(m) => Some(m@),
        None => None,
    }
}

/// Decides what the controller does with one control message: a new test
/// set channel is kept, whatever came before; anything else is dropped until
/// a test set is known, and otherwise dispatched (see `dispatch_spec`).
pub fn route_control_message(msg: ControlMessage, has_testset: bool) -> (r: ControlAction)
    ensures
        msg.message matches ControlMessageContents::SetTestsetChannel(c) ==> r == ControlAction::SetTestSet(c),
        !(msg.message is SetTestsetChannel) && !has_testset ==> r is NoTestSet,
        !(msg.message is SetTestsetChannel) && has_testset ==> (r matches ControlAction::Dispatch(
            b,
            cmds,
        ) && opt_broadcast_view(b) == dispatch_spec(msg).0 && commands_view(cmds@)
            == dispatch_spec(msg).1),
{
    let ghost m = msg;
    let ControlMessage { message_class, unit_id, unit_type, unix_time, unix_time_nsecs, message } =
        msg;
    if let ControlMessageContents::SetTestsetChannel(chan) = message {
        return ControlAction::SetTestSet(chan);
    }
    if !has_testset {
        return ControlAction::NoTestSet;
    }
    let mut cmds: Vec<TestSetCommand> = Vec::new();
    let mut bc: Option<BroadcastMessage> = None;
    match message {
        ControlMessageContents::Log(l) => {
            bc = Some(
                BroadcastMessage {
                    message_class,
                    unit_id,
                    unit_type,
                    unix_time,
                    unix_time_nsecs,
                    message: BroadcastMessageContents::Log(l),
                },
            );
        },
        ControlMessageContents::GetJig => {
            cmds.push(TestSetCommand::DescribeJig);
        },
        ControlMessageContents::Scenario(s) => {
            cmds.push(TestSetCommand::AbortScenario);
            cmds.push(TestSetCommand::SetScenario(s));
        },
        ControlMessageContents::Hello(s) => {
            cmds.push(TestSetCommand::SetInterfaceHello(unit_id, s));
        },
        ControlMessageContents::Shutdown(s) => {
            let reason = match s {
                Some(s) => s,
                None => own("(no reason)"),
            };
            bc = Some(
                BroadcastMessage {
                    message_class,
                    unit_id,
                    unit_type,
                    unix_time,
                    unix_time_nsecs,
                    message: BroadcastMessageContents::Shutdown(reason),
                },
            );
            cmds.push(TestSetCommand::Shutdown);
        },
        ControlMessageContents::Pong(_) => {},
        ControlMessageContents::StartScenario(s) => {
            cmds.push(TestSetCommand::StartScenario(s));
        },
        ControlMessageContents::AbortTests => {
            cmds.push(TestSetCommand::AbortTests);
        },
        ControlMessageContents::AdvanceScenario => {
            cmds.push(TestSetCommand::AdvanceScenario);
        },
        ControlMessageContents::GetScenarios => {
            cmds.push(TestSetCommand::SendScenarios);
        },
        ControlMessageContents::GetTests(s) => {
            cmds.push(TestSetCommand::SendTests(s));
        },
        ControlMessageContents::SetTestsetChannel(_) => {},
    }
    assert(commands_view(cmds@) =~= dispatch_spec(m).1);
    ControlAction::Dispatch(bc, cmds)
}

} // verus!
