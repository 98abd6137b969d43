//! Unit file names: the id and the type that a file's name gives, and the
//! kind of unit each type loads as.
use vstd::prelude::*;

use crate::text::{str_chars, str_eq, string_from_chars};

verus! {

/// The kinds of unit file the test set loads.
#[derive(Clone, Copy, Debug, PartialEq, Eq, Structural)]
pub enum UnitKind {
    Jig,
    Test,
    Scenario,
    Logger,
    Trigger,
    Interface,
}

/// The index of the last `.` in `s`, or -1 where it holds none.
pub open spec fn last_dot(s: Seq<char>) -> int
    decreases s.len(),
{
    if s.len() == 0 {
        -1
    } else if s.last() == '.' {
        s.len() - 1
    } else {
        last_dot(s.drop_last())
    }
}

/// The type of a unit file: what follows the last `.` of its name, where
/// that `.` is not the name's first character; else empty.
pub open spec fn unit_type_of(name: Seq<char>) -> Seq<char> {
    if last_dot(name) > 0 {
        name.subrange(last_dot(name) + 1, name.len() as int)
    } else {
        seq![]
    }
}

/// The id of a unit file: its name up to the `.` that starts its type;
/// the whole name where it has no type.
pub open spec fn unit_id_of(name: Seq<char>) -> Seq<char> {
    if last_dot(name) > 0 {
        name.subrange(0, last_dot(name))
    } else {
        name
    }
}

/// The kind of unit that a unit type names, if any.
pub open spec fn kind_of_type(t: Seq<char>) -> Option<UnitKind> {
    if t == "jig"@ {
        Some(UnitKind::Jig)
    } else if t == "test"@ {
        Some(UnitKind::Test)
    } else if t == "scenario"@ {
        Some(UnitKind::Scenario)
    } else if t == "logger"@ {
        Some(UnitKind::Logger)
    } else if t == "trigger"@ {
        Some(UnitKind::Trigger)
    } else if t == "interface"@ {
        Some(UnitKind::Interface)
    } else {
        None
    }
}

/// The order in which the kinds of unit are loaded: the jig first, as the
/// others check themselves against it; the tests before the scenarios that
/// name them.
pub open spec fn load_order_spec() -> Seq<UnitKind> {
    seq![
        UnitKind::Jig,
        UnitKind::Test,
        UnitKind::Scenario,
        UnitKind::Logger,
        UnitKind::Trigger,
        UnitKind::Interface,
    ]
}

/// The characters of `chars` from `start` up to `end`.
fn chars_between(chars: &Vec<char>, start: usize, end: usize) -> (r: String)
    requires
        start <= end <= chars.len(),
    ensures
        r@ == chars@.subrange(start as int, end as int),
{
    let mut v: Vec<char> = Vec::new();
    let mut j: usize = start;
    while j < end
        invariant
            start <= j <= end <= chars.len(),
            v@ == chars@.subrange(start as int, j as int),
        decreases end - j,
    {
        v.push(chars[j]);
        assert(v@ =~= chars@.subrange(start as int, j + 1));
        j = j + 1;
    }
    string_from_chars(&v)
}

/// Where the last `.` of `chars` stands, if it holds one.
fn find_last_dot(chars: &Vec<char>) -> (r: Option<usize>)
    ensures
        match r {
            Some(k) => k == last_dot(chars@) && k < chars.len(),
            None => last_dot(chars@) == -1,
        },
{
    let mut found: Option<usize> = None;
    let mut i: usize = 0;
    assert(chars@.take(0) =~= seq![]);
    while i < chars.len()
        invariant
            i <= chars.len(),
            match found {
                Some(k) => k == last_dot(chars@.take(i as int)) && k < i,
                None => last_dot(chars@.take(i as int)) == -1,
            },
        decreases chars.len() - i,
    {
        assert(chars@.take(i + 1).drop_last() =~= chars@.take(i as int));
        if chars[i] == '.' {
            found = Some(i);
        }
        i = i + 1;
    }
    assert(chars@.take(chars.len() as int) =~= chars@);
    found
}

/// The id and the type of the unit file named `file_name` (see `unit_id_of`
/// and `unit_type_of`).
pub fn unit_name_parts(file_name: &str) -> (r: (String, String))
    ensures
        r.0@ == unit_id_of(file_name@),
        r.1@ == unit_type_of(file_name@),
{
    let chars = str_chars(file_name);
    match find_last_dot(&chars) {
        Some(k) if k > 0 => (chars_between(&chars, 0, k), chars_between(&chars, k + 1, chars.len())),
        _ => {
            proof {
                assert(chars@.subrange(0, chars.len() as int) =~= chars@);
                assert(chars@.subrange(0, 0) =~= seq![]);
            }
            (chars_between(&chars, 0, chars.len()), chars_between(&chars, 0, 0))
        },
    }
}

/// The kind of unit that the unit type `unit_type` names (see
/// `kind_of_type`).
pub fn kind_of(unit_type: &str) -> (r: Option<UnitKind>)
    ensures
        r == kind_of_type(unit_type@),
{
    if str_eq(unit_type, "jig") {
        Some(UnitKind::Jig)
    } else if str_eq(unit_type, "test") {
        Some(UnitKind::Test)
    } else if str_eq(unit_type, "scenario") {
        Some(UnitKind::Scenario)
    } else if str_eq(unit_type, "logger") {
        Some(UnitKind::Logger)
    } else if str_eq(unit_type, "trigger") {
        Some(UnitKind::Trigger)
    } else if str_eq(unit_type, "interface") {
        Some(UnitKind::Interface)
    } else {
        None
    }
}

/// The kind of unit that the file named `file_name` holds, by its type.
pub fn unit_kind(file_name: &str) -> (r: Option<UnitKind>)
    ensures
        r == kind_of_type(unit_type_of(file_name@)),
{
    let (_, t) = unit_name_parts(file_name);
    kind_of(t.as_str())
}

/// The kinds of unit, in the order they are loaded (see
/// `load_order_spec`).
pub fn load_order() -> (r: Vec<UnitKind>)
    ensures
        r@ == load_order_spec(),
{
    let r = vec![
        UnitKind::Jig,
        UnitKind::Test,
        UnitKind::Scenario,
        UnitKind::Logger,
        UnitKind::Trigger,
        UnitKind::Interface,
    ];
    assert(r@ =~= load_order_spec());
    r
}

} // verus!
