use vstd::prelude::*;

use crate::config::opt_view;
use crate::controller::{
    BroadcastContentsView, BroadcastMessageContents, ControlContentsView, ControlMessageContents,
};
use crate::types::fields::own;

verus! {

/// Work that the library asks of the program around it: sending messages,
/// and starting, waiting for and stopping processes.  Durations of commands
/// are in seconds, limits of test runs in milliseconds.
pub enum Action {
    /// Broadcast a message: class, unit id, unit kind, contents.
    Broadcast(String, String, String, BroadcastMessageContents),
    /// Send a control message: class, unit id, unit kind, contents.
    Control(String, String, String, ControlMessageContents),
    /// Run simple test `index`: its command, directory and limit (ms).  Its
    /// end is reported back with `Test::finish_simple`.
    StartSimple(usize, String, Option<String>, u128),
    /// Start daemon test `index`: its command, directory, limit (ms) and the
    /// text that tells it is ready.
    StartDaemon(usize, String, Option<String>, u128, Option<String>),
    /// Kill the process of test `index`, if it still runs.
    KillTest(usize),
    /// Run a command to its end (or its limit in seconds), in a directory.
    RunCommand(String, Option<String>, u64),
    /// Run a support command of scenario `index`: its label, command,
    /// directory and limit (s).  Its end is reported back with
    /// `Scenario::support_finished`.
    RunSupport(usize, String, String, Option<String>, u64),
    /// Kill the running support command of scenario `index`.
    KillSupport(usize),
}

pub enum ActionView {
    Broadcast(Seq<char>, Seq<char>, Seq<char>, BroadcastContentsView),
    Control(Seq<char>, Seq<char>, Seq<char>, ControlContentsView),
    StartSimple(usize, Seq<char>, Option<Seq<char>>, u128),
    StartDaemon(usize, Seq<char>, Option<Seq<char>>, u128, Option<Seq<char>>),
    KillTest(usize),
    RunCommand(Seq<char>, Option<Seq<char>>, u64),
    RunSupport(usize, Seq<char>, Seq<char>, Option<Seq<char>>, u64),
    KillSupport(usize),
}

impl View for Action {
    type V = ActionView;

    open spec fn view(&self) -> ActionView {
        match self {
            Action::Broadcast(c, i, k, m) => ActionView::Broadcast(c@, i@, k@, m@),
            Action::Control(c, i, k, m) => ActionView::Control(c@, i@, k@, m@),
            Action::StartSimple(t, c, d, l) => ActionView::StartSimple(*t, c@, opt_view(*d), *l),
            Action::StartDaemon(t, c, d, l, r) => ActionView::StartDaemon(
                *t,
                c@,
                opt_view(*d),
                *l,
                opt_view(*r),
            ),
            Action::KillTest(t) => ActionView::KillTest(*t),
            Action::RunCommand(c, d, l) => ActionView::RunCommand(c@, opt_view(*d), *l),
            Action::RunSupport(s, n, c, d, l) => ActionView::RunSupport(*s, n@, c@, opt_view(*d), *l),
            Action::KillSupport(s) => ActionView::KillSupport(*s),
        }
    }
}

pub open spec fn actions_view(v: Seq<Action>) -> Seq<ActionView> {
    v.map_values(|a: Action| a@)
}

/// A broadcast of `m` by the unit `id` of kind `kind`, in class `class`.
pub fn broadcast(class: &str, id: &str, kind: &str, m: BroadcastMessageContents) -> (r: Action)
    ensures
        r@ == ActionView::Broadcast(class@, id@, kind@, m@),
{
    Action::Broadcast(own(class), own(id), own(kind), m)
}

/// A control message `m` from the unit `id` of kind `kind`, in class
/// `class`.
pub fn control(class: &str, id: &str, kind: &str, m: ControlMessageContents) -> (r: Action)
    ensures
        r@ == ActionView::Control(class@, id@, kind@, m@),
{
    Action::Control(own(class), own(id), own(kind), m)
}

/// A log line by the unit `id` of kind `kind` (class "standard").
pub fn log(id: &str, kind: &str, text: String) -> (r: Action)
    ensures
        r@ == ActionView::Broadcast("standard"@, id@, kind@, BroadcastContentsView::Log(text@)),
{
    broadcast("standard", id, kind, BroadcastMessageContents::Log(text))
}

/// Appends `b` to `a`.
pub fn append_actions(a: &mut Vec<Action>, b: Vec<Action>)
    ensures
        actions_view(final(a)@) == actions_view(old(a)@) + actions_view(b@),
{
    let mut b = b;
    let ghost av = actions_view(a@);
    let ghost bv = actions_view(b@);
    a.append(&mut b);
    assert(actions_view(a@) =~= av + bv);
}

} // verus!
