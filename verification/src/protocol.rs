use vstd::prelude::*;

use crate::config::opt_view;
use crate::controller::{
    BroadcastContentsView, BroadcastMessage, BroadcastMessageContents, BroadcastMessageView,
    ControlContentsView, ControlMessageContents,
};
use crate::text::{
    concat, decimal, escape, escaped, lowercase, str_eq, strings_view, to_lowercase, tokenize,
    tokens, u64_to_decimal, unescape, unescaped, Separators,
};
use crate::types::fields::own;

verus! {

// ---------------------------------------------------------------------------
// Joining words
/// The words of `list`, with `sep` between each two.
pub open spec fn join(list: Seq<Seq<char>>, sep: Seq<char>) -> Seq<char>
    decreases list.len(),
{
    if list.len() == 0 {
        seq![]
    } else if list.len() == 1 {
        list[0]
    } else {
        join(list.drop_last(), sep) + sep + list.last()
    }
}

/// Joins the words of `list` with `sep` between each two.
pub fn join_words(list: &Vec<String>, sep: &str) -> (r: String)
    ensures
        r@ == join(strings_view(list@), sep@),
{
    let mut out = own("");
    proof {
        reveal_strlit("");
    }
    assert(out@ =~= seq![]);
    let sep_s = own(sep);
    let mut i: usize = 0;
    while i < list.len()
        invariant
            i <= list.len(),
            sep_s@ == sep@,
            out@ == join(strings_view(list@).subrange(0, i as int), sep@),
        decreases list.len() - i,
    {
        let ghost sub = strings_view(list@).subrange(0, i + 1);
        assert(sub.drop_last() =~= strings_view(list@).subrange(0, i as int));
        assert(sub.last() == list@[i as int]@);
        if i == 0 {
            out = list[i].clone();
            assert(sub =~= seq![list@[0]@]);
        } else {
            out = concat(&concat(&out, &sep_s), &list[i]);
        }
        i = i + 1;
    }
    assert(strings_view(list@).subrange(0, list.len() as int) =~= strings_view(list@));
    out
}

/// `a + " " + b`.
pub open spec fn spaced(a: Seq<char>, b: Seq<char>) -> Seq<char> {
    a + " "@ + b
}

fn sp(a: &String, b: &String) -> (r: String)
    ensures
        r@ == spaced(a@, b@),
{
    concat(&concat(a, &own(" ")), b)
}

fn tab(a: &String, b: &String) -> (r: String)
    ensures
        r@ == a@ + "\t"@ + b@,
{
    concat(&concat(a, &own("\t")), b)
}

// ---------------------------------------------------------------------------
// The text protocol of interfaces
/// The line written to an interface that speaks the text protocol, for a
/// broadcast (see the IPC documentation): a verb, then its arguments.
pub open spec fn text_line(m: BroadcastMessageView) -> Seq<char> {
    match m.message {
        BroadcastContentsView::Log(l) => "LOG "@ + m.message_class + "\t"@ + m.unit_id + "\t"@
            + m.unit_type + "\t"@ + decimal(m.unix_time as nat) + "\t"@ + decimal(
            m.unix_time_nsecs as nat,
        ) + "\t"@ + escaped(l, true) + "\n"@,
        BroadcastContentsView::Jig(j) => "JIG "@ + j + "\n"@,
        BroadcastContentsView::Describe(c, f, n, v) => "DESCRIBE "@ + c + " "@ + f + " "@ + n + " "@
            + v + "\n"@,
        BroadcastContentsView::Scenario(n) => "SCENARIO "@ + n + "\n"@,
        BroadcastContentsView::Scenarios(l) => "SCENARIOS "@ + join(l, " "@) + "\n"@,
        BroadcastContentsView::Shutdown(r) => "EXIT "@ + r + "\n"@,
        BroadcastContentsView::Tests(s, l) => "TESTS "@ + s + " "@ + join(l, " "@) + "\n"@,
        BroadcastContentsView::Running(t) => "RUNNING "@ + t + "\n"@,
        BroadcastContentsView::Skip(t, r) => "SKIP "@ + t + " "@ + r + "\n"@,
        BroadcastContentsView::Fail(t, r) => "FAIL "@ + t + " "@ + r + "\n"@,
        BroadcastContentsView::Pass(t, r) => "PASS "@ + t + " "@ + r + "\n"@,
        BroadcastContentsView::Start(s) => "START "@ + s + "\n"@,
        BroadcastContentsView::Finish(s, code, r) => "FINISH "@ + decimal(code as nat) + " "@ + s
            + " "@ + r + "\n"@,
    }
}

/// Formats a broadcast for an interface that speaks the text protocol (see
/// `text_line`).
pub fn text_write(msg: &BroadcastMessage) -> (r: String)
    ensures
        r@ == text_line(msg@),
{
    let nl = own("\n");
    let line = match &msg.message {
        BroadcastMessageContents::Log(l) => {
            let fields = tab(
                &tab(
                    &tab(
                        &tab(&tab(&msg.message_class, &msg.unit_id), &msg.unit_type),
                        &u64_to_decimal(msg.unix_time),
                    ),
                    &u64_to_decimal(msg.unix_time_nsecs as u64),
                ),
                &escape(l.as_str(), true),
            );
            concat(&concat(&own("LOG "), &fields), &nl)
        },
        BroadcastMessageContents::Jig(j) => concat(&concat(&own("JIG "), j), &nl),
        BroadcastMessageContents::Describe(c, f, n, v) => concat(
            &concat(&own("DESCRIBE "), &sp(&sp(&sp(c, f), n), v)),
            &nl,
        ),
        BroadcastMessageContents::Scenario(n) => concat(&concat(&own("SCENARIO "), n), &nl),
        BroadcastMessageContents::Scenarios(l) => concat(
            &concat(&own("SCENARIOS "), &join_words(l, " ")),
            &nl,
        ),
        BroadcastMessageContents::Shutdown(r) => concat(&concat(&own("EXIT "), r), &nl),
        BroadcastMessageContents::Tests(s, l) => concat(
            &concat(&own("TESTS "), &sp(s, &join_words(l, " "))),
            &nl,
        ),
        BroadcastMessageContents::Running(t) => concat(&concat(&own("RUNNING "), t), &nl),
        BroadcastMessageContents::Skip(t, r) => concat(&concat(&own("SKIP "), &sp(t, r)), &nl),
        BroadcastMessageContents::Fail(t, r) => concat(&concat(&own("FAIL "), &sp(t, r)), &nl),
        BroadcastMessageContents::Pass(t, r) => concat(&concat(&own("PASS "), &sp(t, r)), &nl),
        BroadcastMessageContents::Start(s) => concat(&concat(&own("START "), s), &nl),
        BroadcastMessageContents::Finish(s, code, r) => concat(
            &concat(&own("FINISH "), &sp(&sp(&u64_to_decimal(*code as u64), s), r)),
            &nl,
        ),
    };
    proof {
        assert(line@ =~= text_line(msg@));
    }
    line
}

/// The words of a line a unit sent, each unescaped.
pub open spec fn line_words(line: Seq<char>) -> Seq<Seq<char>> {
    tokens(line, Separators::Whitespace).map_values(|w: Seq<char>| unescaped(w))
}

/// A verb that needs an argument: SCENARIO and PONG.
pub open spec fn needs_argument(verb: Seq<char>) -> bool {
    verb == "scenario"@ || verb == "pong"@
}

/// A line from an interface can be read: it is blank, or its verb (in
/// lower case) does not need an argument, or it has one.
pub open spec fn text_line_complete(line: Seq<char>) -> bool {
    line_words(line).len() > 0 && needs_argument(lowercase(line_words(line)[0])) ==> line_words(
        line,
    ).len() >= 2
}

/// The first argument, in lower case, if there is one.
pub open spec fn first_lower(words: Seq<Seq<char>>) -> Option<Seq<char>> {
    if words.len() >= 2 {
        Some(lowercase(words[1]))
    } else {
        None
    }
}

/// What an interface asks for with a line of the text protocol (verbs are
/// case-insensitive; see the IPC documentation); `None` for a blank line.
pub open spec fn text_command(line: Seq<char>) -> Option<ControlContentsView> {
    let words = line_words(line);
    if words.len() == 0 {
        None
    } else {
        let verb = lowercase(words[0]);
        let rest = words.drop_first();
        Some(
            if verb == "scenario"@ {
                ControlContentsView::Scenario(lowercase(words[1]))
            } else if verb == "scenarios"@ {
                ControlContentsView::GetScenarios
            } else if verb == "tests"@ {
                ControlContentsView::GetTests(first_lower(words))
            } else if verb == "start"@ {
                ControlContentsView::StartScenario(first_lower(words))
            } else if verb == "abort"@ {
                ControlContentsView::AbortTests
            } else if verb == "pong"@ {
                ControlContentsView::Pong(lowercase(words[1]))
            } else if verb == "jig"@ {
                ControlContentsView::GetJig
            } else if verb == "hello"@ {
                ControlContentsView::Hello(join(rest, " "@))
            } else if verb == "shutdown"@ {
                ControlContentsView::Shutdown(
                    if rest.len() == 0 {
                        None
                    } else {
                        Some(join(rest, " "@))
                    },
                )
            } else if verb == "log"@ {
                ControlContentsView::Log(join(rest, " "@))
            } else {
                ControlContentsView::Log("Unimplemented verb: "@ + verb)
            },
        )
    }
}

pub open spec fn opt_control_view(c: Option<ControlMessageContents>) -> Option<ControlContentsView> {
    match c {
        Some(m) => Some(m@),
        None => None,
    }
}

/// The words of `line`, each unescaped.
pub fn words_of(line: &str) -> (r: Vec<String>)
    ensures
        strings_view(r@) == line_words(line@),
{
    let raw = tokenize(line, Separators::Whitespace);
    let mut words: Vec<String> = Vec::new();
    let mut i: usize = 0;
    while i < raw.len()
        invariant
            i <= raw.len(),
            strings_view(raw@) == tokens(line@, Separators::Whitespace),
            strings_view(words@) == strings_view(raw@).subrange(0, i as int).map_values(
                |w: Seq<char>| unescaped(w),
            ),
        decreases raw.len() - i,
    {
        let ghost wv = strings_view(words@);
        words.push(unescape(raw[i].as_str()));
        assert(strings_view(raw@)[i as int] == raw@[i as int]@);
        assert(strings_view(words@) =~= wv.push(unescaped(raw@[i as int]@)));
        assert(strings_view(raw@).subrange(0, i + 1) =~= strings_view(raw@).subrange(0, i as int).push(
            raw@[i as int]@,
        ));
        assert(strings_view(words@) =~= strings_view(raw@).subrange(0, i + 1).map_values(
            |w: Seq<char>| unescaped(w),
        ));
        i = i + 1;
    }
    assert(strings_view(raw@).subrange(0, raw.len() as int) =~= strings_view(raw@));
    words
}

/// The words after the first.
fn rest_of(words: &Vec<String>) -> (r: Vec<String>)
    requires
        words.len() >= 1,
    ensures
        strings_view(r@) == strings_view(words@).drop_first(),
{
    let mut r: Vec<String> = Vec::new();
    let mut i: usize = 1;
    while i < words.len()
        invariant
            1 <= i <= words.len(),
            strings_view(r@) == strings_view(words@).subrange(1, i as int),
        decreases words.len() - i,
    {
        let ghost rv = strings_view(r@);
        let w = words[i].clone();
        assert(w@ == words@[i as int]@);
        r.push(w);
        assert(strings_view(r@) =~= rv.push(words@[i as int]@));
        assert(strings_view(words@)[i as int] == words@[i as int]@);
        assert(strings_view(words@).subrange(1, i + 1) =~= strings_view(words@).subrange(1, i as int).push(
            strings_view(words@)[i as int],
        ));
        assert(strings_view(r@) =~= strings_view(words@).subrange(1, i + 1));
        i = i + 1;
    }
    assert(strings_view(words@).subrange(1, words.len() as int) =~= strings_view(words@).drop_first());
    r
}

/// Whether a line from an interface can be read (see
/// `text_line_complete`): a line with SCENARIO or PONG and no argument
/// cannot.
pub fn text_read_complete(line: &str) -> (r: bool)
    ensures
        r == text_line_complete(line@),
{
    let words = words_of(line);
    if words.len() == 0 {
        return true;
    }
    assert(strings_view(words@)[0] == words@[0]@);
    let verb = to_lowercase(words[0].as_str());
    if str_eq(verb.as_str(), "scenario") || str_eq(verb.as_str(), "pong") {
        words.len() >= 2
    } else {
        true
    }
}

/// Reads a line of the text protocol from an interface (see
/// `text_command`).
pub fn text_read(line: &str) -> (r: Option<ControlMessageContents>)
    requires
        text_line_complete(line@),
    ensures
        opt_control_view(r) == text_command(line@),
{
    let words = words_of(line);
    if words.len() == 0 {
        return None;
    }
    assert(strings_view(words@)[0] == words@[0]@);
    let verb = to_lowercase(words[0].as_str());
    let rest = rest_of(&words);
    let first = if words.len() >= 2 {
        assert(strings_view(words@)[1] == words@[1]@);
        Some(to_lowercase(words[1].as_str()))
    } else {
        None
    };
    proof {
        reveal_strlit("scenario");
        reveal_strlit("pong");
    }
    let response = if str_eq(verb.as_str(), "scenario") {
        ControlMessageContents::Scenario(to_lowercase(words[1].as_str()))
    } else if str_eq(verb.as_str(), "scenarios") {
        ControlMessageContents::GetScenarios
    } else if str_eq(verb.as_str(), "tests") {
        ControlMessageContents::GetTests(first)
    } else if str_eq(verb.as_str(), "start") {
        ControlMessageContents::StartScenario(first)
    } else if str_eq(verb.as_str(), "abort") {
        ControlMessageContents::AbortTests
    } else if str_eq(verb.as_str(), "pong") {
        ControlMessageContents::Pong(to_lowercase(words[1].as_str()))
    } else if str_eq(verb.as_str(), "jig") {
        ControlMessageContents::GetJig
    } else if str_eq(verb.as_str(), "hello") {
        ControlMessageContents::Hello(join_words(&rest, " "))
    } else if str_eq(verb.as_str(), "shutdown") {
        if rest.len() == 0 {
            ControlMessageContents::Shutdown(None)
        } else {
            ControlMessageContents::Shutdown(Some(join_words(&rest, " ")))
        }
    } else if str_eq(verb.as_str(), "log") {
        ControlMessageContents::Log(join_words(&rest, " "))
    } else {
        ControlMessageContents::Log(concat(&own("Unimplemented verb: "), &verb))
    };
    Some(response)
}

/// What a trigger asks for with a line (verbs are case-insensitive; the
/// scenario name is taken as written; GO is START); `None` for a blank line.
pub open spec fn trigger_command(line: Seq<char>) -> Option<ControlContentsView> {
    let words = line_words(line);
    if words.len() == 0 {
        None
    } else {
        let verb = lowercase(words[0]);
        let rest = words.drop_first();
        Some(
            if verb == "start"@ || verb == "go"@ {
                ControlContentsView::StartScenario(
                    if rest.len() > 0 {
                        Some(rest[0])
                    } else {
                        None
                    },
                )
            } else if verb == "stop"@ {
                ControlContentsView::AbortTests
            } else if verb == "hello"@ {
                ControlContentsView::Hello(join(rest, " "@))
            } else if verb == "log"@ {
                ControlContentsView::Log(join(rest, " "@))
            } else {
                ControlContentsView::Log("Unimplemented verb: "@ + verb)
            },
        )
    }
}

/// Reads a line from a trigger (see `trigger_command`).
pub fn trigger_read_line(line: &str) -> (r: Option<ControlMessageContents>)
    ensures
        opt_control_view(r) == trigger_command(line@),
{
    let words = words_of(line);
    if words.len() == 0 {
        return None;
    }
    assert(strings_view(words@)[0] == words@[0]@);
    let verb = to_lowercase(words[0].as_str());
    let rest = rest_of(&words);
    let response = if str_eq(verb.as_str(), "start") || str_eq(verb.as_str(), "go") {
        if rest.len() > 0 {
            assert(strings_view(rest@)[0] == rest@[0]@);
            ControlMessageContents::StartScenario(Some(rest[0].clone()))
        } else {
            ControlMessageContents::StartScenario(None)
        }
    } else if str_eq(verb.as_str(), "stop") {
        ControlMessageContents::AbortTests
    } else if str_eq(verb.as_str(), "hello") {
        ControlMessageContents::Hello(join_words(&rest, " "))
    } else if str_eq(verb.as_str(), "log") {
        ControlMessageContents::Log(join_words(&rest, " "))
    } else {
        ControlMessageContents::Log(concat(&own("Unimplemented verb: "), &verb))
    };
    Some(response)
}

// ---------------------------------------------------------------------------
// Loggers
/// The line a tab-separated logger receives for a log message: class, unit,
/// unit type, seconds, nanoseconds and the escaped message, separated by
/// tabs.
pub open spec fn tsv_line(m: BroadcastMessageView) -> Option<Seq<char>> {
    match m.message {
        BroadcastContentsView::Log(l) => Some(
            m.message_class + "\t"@ + m.unit_id + "\t"@ + m.unit_type + "\t"@ + decimal(
                m.unix_time as nat,
            ) + "\t"@ + decimal(m.unix_time_nsecs as nat) + "\t"@ + escaped(l, false) + "\n"@,
        ),
        _ => None,
    }
}

/// Formats a log message for a tab-separated logger (see `tsv_line`);
/// `None` for other messages, which loggers do not receive.
pub fn tsv_write(msg: &BroadcastMessage) -> (r: Option<String>)
    ensures
        opt_view(r) == tsv_line(msg@),
{
    match &msg.message {
        BroadcastMessageContents::Log(l) => {
            let fields = tab(
                &tab(
                    &tab(
                        &tab(&tab(&msg.message_class, &msg.unit_id), &msg.unit_type),
                        &u64_to_decimal(msg.unix_time),
                    ),
                    &u64_to_decimal(msg.unix_time_nsecs as u64),
                ),
                &escape(l.as_str(), false),
            );
            let line = concat(&fields, &own("\n"));
            assert(line@ =~= tsv_line(msg@).unwrap());
            Some(line)
        },
        _ => None,
    }
}

// ---------------------------------------------------------------------------
// JSON records
/// A value in a JSON record: a string, a number or a list of strings.
pub enum JsonField {
    Str(String),
    Num(u64),
    List(Vec<String>),
}

pub enum JsonFieldView {
    Str(Seq<char>),
    Num(u64),
    List(Seq<Seq<char>>),
}

impl View for JsonField {
    type V = JsonFieldView;

    open spec fn view(&self) -> JsonFieldView {
        match self {
            JsonField::Str(s) => JsonFieldView::Str(s@),
            JsonField::Num(n) => JsonFieldView::Num(*n),
            JsonField::List(l) => JsonFieldView::List(strings_view(l@)),
        }
    }
}

pub open spec fn fields_view(fields: Seq<(String, JsonField)>) -> Seq<(Seq<char>, JsonFieldView)> {
    fields.map_values(|f: (String, JsonField)| (f.0@, f.1@))
}

/// The text `json::stringify` makes of a JSON object with these members, in
/// this order.
pub uninterp spec fn json_object_text(fields: Seq<(Seq<char>, JsonFieldView)>) -> Seq<char>;

/// Builds a `json::JsonValue` object with the given members (each string a
/// JSON string, each number a JSON number, each list an array of strings)
/// and calls `json::stringify` on it.
#[verifier::external_body]
fn stringify_object(fields: &Vec<(String, JsonField)>) -> (r: String)
    ensures
        r@ == json_object_text(fields_view(fields@)),
{
    let mut object = json::JsonValue::new_object();
    for (k, v) in fields.iter() {
        object[k.as_str()] = match v {
            JsonField::Str(s) => s.clone().into(),
            JsonField::Num(n) => (*n).into(),
            JsonField::List(l) => l.iter().map(|s| json::JsonValue::from(s.clone())).collect::<
                Vec<json::JsonValue>,
            >().into(),
        };
    }
    json::stringify(object)
}

/// The members every JSON record starts with: the header of the message.
pub open spec fn header_fields(m: BroadcastMessageView) -> Seq<(Seq<char>, JsonFieldView)> {
    seq![
        ("message_class"@, JsonFieldView::Str(m.message_class)),
        ("unit_id"@, JsonFieldView::Str(m.unit_id)),
        ("unit_type"@, JsonFieldView::Str(m.unit_type)),
        ("unix_time"@, JsonFieldView::Num(m.unix_time)),
        ("unix_time_nsecs"@, JsonFieldView::Num(m.unix_time_nsecs as u64)),
    ]
}

pub open spec fn typed(t: Seq<char>) -> (Seq<char>, JsonFieldView) {
    ("type"@, JsonFieldView::Str(t))
}

pub open spec fn str_field(k: Seq<char>, v: Seq<char>) -> (Seq<char>, JsonFieldView) {
    (k, JsonFieldView::Str(v))
}

/// The members of the JSON record an interface receives for a broadcast.
pub open spec fn json_fields(m: BroadcastMessageView) -> Seq<(Seq<char>, JsonFieldView)> {
    header_fields(m) + match m.message {
        BroadcastContentsView::Log(l) => seq![typed("log"@), str_field("message"@, l)],
        BroadcastContentsView::Jig(j) => seq![typed("jig"@), str_field("id"@, j)],
        BroadcastContentsView::Describe(c, f, n, v) => seq![
            typed("describe"@),
            str_field("class"@, c),
            str_field("field"@, f),
            str_field("name"@, n),
            str_field("value"@, v),
        ],
        BroadcastContentsView::Scenario(n) => seq![typed("scenario"@), str_field("id"@, n)],
        BroadcastContentsView::Scenarios(l) => seq![
            typed("scenarios"@),
            ("scenarios"@, JsonFieldView::List(l)),
        ],
        BroadcastContentsView::Shutdown(r) => seq![typed("shutdown"@), str_field("reason"@, r)],
        BroadcastContentsView::Tests(s, l) => seq![
            typed("tests"@),
            str_field("scenario"@, s),
            ("tests"@, JsonFieldView::List(l)),
        ],
        BroadcastContentsView::Running(t) => seq![typed("running"@), str_field("test"@, t)],
        BroadcastContentsView::Skip(t, r) => seq![
            typed("skip"@),
            str_field("test"@, t),
            str_field("reason"@, r),
        ],
        BroadcastContentsView::Fail(t, r) => seq![
            typed("fail"@),
            str_field("test"@, t),
            str_field("reason"@, r),
        ],
        BroadcastContentsView::Pass(t, r) => seq![
            typed("pass"@),
            str_field("test"@, t),
            str_field("reason"@, r),
        ],
        BroadcastContentsView::Start(s) => seq![typed("start"@), str_field("scenario"@, s)],
        BroadcastContentsView::Finish(s, code, r) => seq![
            typed("finish"@),
            str_field("scenario"@, s),
            ("result"@, JsonFieldView::Num(code as u64)),
            str_field("reason"@, r),
        ],
    }
}

fn sf(k: &str, v: &String) -> (r: (String, JsonField))
    ensures
        (r.0@, r.1@) == str_field(k@, v@),
{
    (own(k), JsonField::Str(v.clone()))
}

fn header(msg: &BroadcastMessage) -> (r: Vec<(String, JsonField)>)
    ensures
        fields_view(r@) == header_fields(msg@),
{
    let mut f: Vec<(String, JsonField)> = Vec::new();
    f.push(sf("message_class", &msg.message_class));
    f.push(sf("unit_id", &msg.unit_id));
    f.push(sf("unit_type", &msg.unit_type));
    f.push((own("unix_time"), JsonField::Num(msg.unix_time)));
    f.push((own("unix_time_nsecs"), JsonField::Num(msg.unix_time_nsecs as u64)));
    assert(fields_view(f@) =~= header_fields(msg@));
    f
}

/// Formats a broadcast as the JSON record (one line) that an interface
/// speaking JSON receives (see `json_fields`).
pub fn json_write(msg: &BroadcastMessage) -> (r: String)
    ensures
        r@ == json_object_text(json_fields(msg@)) + "\n"@,
{
    let mut f = header(msg);
    let ghost hv = fields_view(f@);
    let mut extra: Vec<(String, JsonField)> = Vec::new();
    match &msg.message {
        BroadcastMessageContents::Log(l) => {
            extra.push(sf("type", &own("log")));
            extra.push(sf("message", l));
        },
        BroadcastMessageContents::Jig(j) => {
            extra.push(sf("type", &own("jig")));
            extra.push(sf("id", j));
        },
        BroadcastMessageContents::Describe(c, fl, n, v) => {
            extra.push(sf("type", &own("describe")));
            extra.push(sf("class", c));
            extra.push(sf("field", fl));
            extra.push(sf("name", n));
            extra.push(sf("value", v));
        },
        BroadcastMessageContents::Scenario(n) => {
            extra.push(sf("type", &own("scenario")));
            extra.push(sf("id", n));
        },
        BroadcastMessageContents::Scenarios(l) => {
            extra.push(sf("type", &own("scenarios")));
            extra.push((own("scenarios"), JsonField::List(l.clone())));
        },
        BroadcastMessageContents::Shutdown(r) => {
            extra.push(sf("type", &own("shutdown")));
            extra.push(sf("reason", r));
        },
        BroadcastMessageContents::Tests(s, l) => {
            extra.push(sf("type", &own("tests")));
            extra.push(sf("scenario", s));
            extra.push((own("tests"), JsonField::List(l.clone())));
        },
        BroadcastMessageContents::Running(t) => {
            extra.push(sf("type", &own("running")));
            extra.push(sf("test", t));
        },
        BroadcastMessageContents::Skip(t, r) => {
            extra.push(sf("type", &own("skip")));
            extra.push(sf("test", t));
            extra.push(sf("reason", r));
        },
        BroadcastMessageContents::Fail(t, r) => {
            extra.push(sf("type", &own("fail")));
            extra.push(sf("test", t));
            extra.push(sf("reason", r));
        },
        BroadcastMessageContents::Pass(t, r) => {
            extra.push(sf("type", &own("pass")));
            extra.push(sf("test", t));
            extra.push(sf("reason", r));
        },
        BroadcastMessageContents::Start(s) => {
            extra.push(sf("type", &own("start")));
            extra.push(sf("scenario", s));
        },
        BroadcastMessageContents::Finish(s, code, r) => {
            extra.push(sf("type", &own("finish")));
            extra.push(sf("scenario", s));
            extra.push((own("result"), JsonField::Num(*code as u64)));
            extra.push(sf("reason", r));
        },
    }
    let ghost ev = fields_view(extra@);
    f.append(&mut extra);
    assert(fields_view(f@) =~= hv + ev);
    assert(fields_view(f@) =~= json_fields(msg@));
    concat(&stringify_object(&f), &own("\n"))
}

/// The members of the JSON record a logger receives for a log message: the
/// header and the message.
pub open spec fn json_log_fields(m: BroadcastMessageView) -> Option<Seq<(Seq<char>, JsonFieldView)>> {
    match m.message {
        BroadcastContentsView::Log(l) => Some(header_fields(m) + seq![str_field("message"@, l)]),
        _ => None,
    }
}

/// Formats a log message as the JSON record (one line) that a JSON logger
/// receives; `None` for other messages, which loggers do not receive.
pub fn json_log_write(msg: &BroadcastMessage) -> (r: Option<String>)
    ensures
        match json_log_fields(msg@) {
            None => r is None,
            Some(f) => r matches Some(s) && s@ == json_object_text(f) + "\n"@,
        },
{
    match &msg.message {
        BroadcastMessageContents::Log(l) => {
            let mut f = header(msg);
            let ghost hv = fields_view(f@);
            f.push(sf("message", l));
            assert(fields_view(f@) =~= hv + seq![str_field("message"@, l@)]);
            Some(concat(&stringify_object(&f), &own("\n")))
        },
        _ => None,
    }
}

} // verus!
