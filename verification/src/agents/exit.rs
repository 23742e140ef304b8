//! How the process of an agent ended, and what is told of the run.

use crate::domain::health::Exit;
use crate::json;
use crate::json::Json;
use crate::text;
use vstd::prelude::*;
use vstd::string::*;

verus! {

/// How the process of an agent ended, as far as it was seen.
#[derive(Debug, Clone, Copy, PartialEq, Eq, Structural)]
pub struct AgentExit {
    pub exit_code: Option<i32>,
    pub timed_out: bool,
    /// Whether an end was seen at all: an agent without a process has none.
    pub recorded: bool,
}

/// No end was seen.
pub open spec fn unseen() -> AgentExit {
    AgentExit { exit_code: None, timed_out: false, recorded: false }
}

/// The end of a process, by the status of its pipeline. `timeout` exits with 124 where it killed the
/// process.
pub open spec fn ended(code: Option<i32>) -> AgentExit {
    AgentExit { exit_code: code, timed_out: code == Some(124i32), recorded: true }
}

/// What an end says of the run.
pub open spec fn seen_as(e: AgentExit) -> Exit {
    if !e.recorded {
        Exit::Unobserved
    } else if e.timed_out {
        Exit::Timeout
    } else if e.exit_code == Some(0i32) {
        Exit::Success
    } else {
        Exit::Failure { code: e.exit_code }
    }
}

impl Default for AgentExit {
    fn default() -> (r: AgentExit)
        ensures
            r == unseen(),
    {
        AgentExit { exit_code: None, timed_out: false, recorded: false }
    }
}

/// The end of a process. There is no code where a signal ended it.
pub fn record_agent_exit(code: Option<i32>) -> (r: AgentExit)
    ensures
        r == ended(code),
{
    let timed_out = match code {
        Some(c) => c == 124,
        None => false,
    };
    AgentExit { exit_code: code, timed_out, recorded: true }
}

/// What is known at the start of a case: no end was seen.
pub fn clear_agent_exit() -> (r: AgentExit)
    ensures
        r == unseen(),
{
    AgentExit { exit_code: None, timed_out: false, recorded: false }
}

/// Takes the end that was seen, so that the next case starts afresh.
pub fn take_agent_exit(seen: &mut AgentExit) -> (r: AgentExit)
    ensures
        r == *old(seen),
        *final(seen) == unseen(),
{
    let r = *seen;
    *seen = clear_agent_exit();
    r
}

/// What the end says of the run. It is not taken.
pub fn observed_exit(seen: &AgentExit) -> (r: Exit)
    ensures
        r == seen_as(*seen),
{
    if !seen.recorded {
        return Exit::Unobserved;
    }
    if seen.timed_out {
        return Exit::Timeout;
    }
    match seen.exit_code {
        Some(code) => if code == 0 {
            Exit::Success
        } else {
            Exit::Failure { code: Some(code) }
        },
        None => Exit::Failure { code: None },
    }
}

/// The code of an end as a value.
pub open spec fn code_value(code: Option<i32>) -> json::JsonView {
    match code {
        Some(c) => json::integer_view(c),
        None => json::JsonView::Null,
    }
}

/// What is told of a run, with its end where one was seen.
pub open spec fn with_exit(m: Map<Seq<char>, json::JsonView>, e: AgentExit) -> Map<
    Seq<char>,
    json::JsonView,
> {
    if e.recorded {
        m.insert("exit_code"@, code_value(e.exit_code)).insert(
            "timed_out"@,
            json::JsonView::Bool(e.timed_out),
        )
    } else {
        m
    }
}

/// Adds the end that was seen to what is told of a run, and takes it. Nothing is added where none
/// was seen.
pub fn merge_agent_exit(metrics: &mut Vec<(String, Json)>, seen: &mut AgentExit)
    ensures
        json::members(final(metrics)@) == with_exit(json::members(old(metrics)@), *old(seen)),
        *final(seen) == unseen(),
{
    let e = take_agent_exit(seen);
    if e.recorded {
        let code = match e.exit_code {
            Some(c) => json::integer(c),
            None => Json::Null,
        };
        json::set(metrics, "exit_code", code);
        json::set(metrics, "timed_out", Json::Bool(e.timed_out));
    }
}

/// What is told of a run that finished.
pub open spec fn provenance_view(
    tool: Seq<char>,
    duration_secs: u64,
    timestamp: Seq<char>,
    harness: Seq<char>,
    sandboxed: bool,
    e: AgentExit,
) -> Map<Seq<char>, json::JsonView> {
    with_exit(
        Map::<Seq<char>, json::JsonView>::empty().insert("agent"@, json::JsonView::Text(tool)).insert(
            "duration_secs"@,
            json::natural_view(duration_secs),
        ).insert("success"@, json::JsonView::Bool(true)).insert(
            "timestamp"@,
            json::JsonView::Text(timestamp),
        ).insert("harness"@, json::JsonView::Text(harness)).insert(
            "sandboxed"@,
            json::JsonView::Bool(sandboxed),
        ),
        e,
    )
}

/// What is told of a run that finished: who ran, how long and when, under which harness, whether it
/// could be confined, and how it ended. The end is taken.
pub fn agent_provenance(
    tool: &str,
    duration_secs: u64,
    timestamp: &str,
    harness: &str,
    sandboxed: bool,
    seen: &mut AgentExit,
) -> (r: Json)
    ensures
        r@ == json::JsonView::Object(
            provenance_view(
                tool@,
                duration_secs,
                timestamp@,
                harness@,
                sandboxed,
                *old(seen),
            ),
        ),
        *final(seen) == unseen(),
{
    let mut m: Vec<(String, Json)> = Vec::new();
    json::set(&mut m, "agent", json::words(tool));
    json::set(&mut m, "duration_secs", json::natural(duration_secs));
    json::set(&mut m, "success", Json::Bool(true));
    json::set(&mut m, "timestamp", json::words(timestamp));
    json::set(&mut m, "harness", json::words(harness));
    json::set(&mut m, "sandboxed", Json::Bool(sandboxed));
    merge_agent_exit(&mut m, seen);
    Json::Object(m)
}

/// A process that `timeout` killed is never taken for one that succeeded or failed by itself.
pub proof fn law_a_killed_process_is_a_timeout(code: Option<i32>)
    ensures
        seen_as(ended(code)) == Exit::Timeout <==> code == Some(124i32),
        seen_as(ended(code)) == Exit::Success <==> code == Some(0i32),
        seen_as(ended(code)) != Exit::Unobserved,
        seen_as(unseen()) == Exit::Unobserved,
{
}

/// What was seen of the end of a process is added to what is told of its run: the code, or that there
/// was none, and whether the time ran out. Nothing else changes, and nothing is added where nothing was
/// seen.
pub proof fn law_the_end_of_a_process_is_told(
    m: Map<Seq<char>, json::JsonView>,
    code: Option<i32>,
    key: Seq<char>,
)
    ensures
        ({
            let w = with_exit(m, ended(code));
            &&& w["timed_out"@] == json::JsonView::Bool(code == Some(124i32))
            &&& code is None ==> w["exit_code"@] == json::JsonView::Null
            &&& code matches Some(c) ==> w["exit_code"@] == json::integer_view(c)
            &&& w.dom().contains("exit_code"@) && w.dom().contains("timed_out"@)
            &&& key != "exit_code"@ && key != "timed_out"@ ==> (w.dom().contains(key)
                <==> m.dom().contains(key)) && w[key] == m[key]
        }),
        with_exit(m, unseen()) == m,
        seen_as(ended(code)) matches Exit::Failure { code: c } ==> c == code,
{
    reveal_strlit("exit_code");
    reveal_strlit("timed_out");
    assert("exit_code"@[0] == 'e' && "timed_out"@[0] == 't');
}

/// What is told of a run that left an artifact: the tool, how long it took and when it was, the harness,
/// whether it was confined, and that it succeeded.
pub proof fn law_a_run_is_told_in_full(
    tool: Seq<char>,
    secs: u64,
    timestamp: Seq<char>,
    harness: Seq<char>,
    sandboxed: bool,
    e: AgentExit,
)
    ensures
        ({
            let j = json::JsonView::Object(
                provenance_view(tool, secs, timestamp, harness, sandboxed, e),
            );
            &&& json::text_in(json::member(j, "agent"@)) == Some(tool)
            &&& json::number_in(json::member(j, "duration_secs"@)) == Some(secs)
            &&& json::member(j, "success"@) == Some(json::JsonView::Bool(true))
            &&& json::text_in(json::member(j, "timestamp"@)) == Some(timestamp)
            &&& json::text_in(json::member(j, "harness"@)) == Some(harness)
            &&& json::member(j, "sandboxed"@) == Some(json::JsonView::Bool(sandboxed))
            &&& json::member(j, "exit_code"@) is Some <==> e.recorded
        }),
{
    reveal_strlit("agent");
    reveal_strlit("duration_secs");
    reveal_strlit("success");
    reveal_strlit("timestamp");
    reveal_strlit("harness");
    reveal_strlit("sandboxed");
    reveal_strlit("exit_code");
    reveal_strlit("timed_out");
    assert("agent"@.len() == 5 && "duration_secs"@.len() == 13);
    assert("success"@.len() == 7 && "harness"@.len() == 7);
    assert("success"@[0] == 's' && "harness"@[0] == 'h');
    assert("timestamp"@.len() == 9 && "sandboxed"@.len() == 9 && "exit_code"@.len() == 9
        && "timed_out"@.len() == 9);
    assert("timestamp"@[0] == 't' && "sandboxed"@[0] == 's' && "exit_code"@[0] == 'e'
        && "timed_out"@[0] == 't');
    assert("timestamp"@[4] == 's' && "timed_out"@[4] == 'd');
}

} // verus!
