//! What a run will be, resolved before it starts: whether the agent has a phase at all, the model
//! that it is asked for, and the policy that it applies.

use crate::cache;
use crate::cache::ModelId;
use crate::domain::health::PinReport;
use crate::io::sandbox;
use crate::io::sandbox::Policy;
use crate::json;
use crate::json::Json;
use crate::opencode;
use crate::program;
use crate::text;
use vstd::prelude::*;
use vstd::string::*;

verus! {

/// An agent and the way it is set up.
#[derive(Debug, Copy, Clone, PartialEq, Eq, Structural)]
pub enum Agent {
    Kiro,
    Claude,
    ClaudeCombined,
    ClaudeMinimal,
    ClaudeNoIter,
    ClaudeNoFeatures,
    ClaudeNoSubtask,
    ClaudeCrossPrompt,
    CodexGpt55,
    CodexGpt54,
    CodexGpt56Sol,
    OpenCode,
    Oneshot,
    Kimi,
    C2rust,
    Laertes,
    C2SaferRust,
    SmartC2Rust,
}

/// The model that the default agent is asked for, where the environment names no other.
pub open spec fn claude_default() -> Seq<char> {
    "global.anthropic."@ + program::program() + "-opus-5[1m]"@
}

/// The model that Kiro is asked for.
pub open spec fn kiro_default() -> Seq<char> {
    ""@ + program::program() + "-opus-5"@
}

/// The model that Kimi is.
pub const KIMI_MODEL: &'static str = "moonshotai.kimi-k2.5";

// ---------------------------------------------------------------------------
// The model
// ---------------------------------------------------------------------------

/// The model that a text names, or why it names none.
pub open spec fn named_model(s: Seq<char>) -> Result<Seq<char>, Seq<char>> {
    if cache::names_model(s) {
        Ok(s)
    } else if text::trimmed(s).len() == 0 {
        Err("model id must not be empty"@)
    } else {
        Err("model id contains shell metacharacters: "@ + s)
    }
}

fn name_model(s: &str) -> (r: Result<ModelId, String>)
    ensures
        match named_model(s@) {
            Ok(m) => r matches Ok(x) && x@ == m,
            Err(e) => r matches Err(x) && x@ == e,
        },
{
    ModelId::new(s)
}

/// The model that the default agent is asked for: that of the environment, or the default.
pub open spec fn claude_named(environment: Option<&str>) -> Result<Seq<char>, Seq<char>> {
    named_model(
        match environment {
            Some(m) => m@,
            None => claude_default(),
        },
    )
}

/// The model that the default agent is asked for.
pub fn claude_model(environment: Option<&str>) -> (r: Result<ModelId, String>)
    ensures
        match claude_named(environment) {
            Ok(m) => r matches Ok(x) && x@ == m,
            Err(e) => r matches Err(x) && x@ == e,
        },
        environment is None ==> (r matches Ok(x) && x@ == claude_default()),
{
    proof {
        lemma_default_models();
    }
    match environment {
        Some(m) => name_model(m),
        None => name_model(program::named("global.anthropic.", "-opus-5[1m]").as_str()),
    }
}

proof fn lemma_nothing_to_trim(s: Seq<char>)
    requires
        s.len() > 0,
        !text::is_space(s[0]),
        !text::is_space(s.last()),
    ensures
        text::trimmed(s) == s,
{
    assert(text::trimmed_start(s) == s);
    assert(text::trimmed_end(s) == s);
}

proof fn lemma_default_models()
    ensures
        cache::names_model(claude_default()),
        cache::names_model(kiro_default()),
        cache::names_model(KIMI_MODEL@),
        cache::names_model("openai.gpt-5.5"@),
        cache::names_model("openai.gpt-5.4"@),
        cache::names_model("openai.gpt-5.6-sol"@),
{
    program::lemma_program();
    reveal_strlit("");
    reveal_strlit("global.anthropic.");
    reveal_strlit("-opus-5[1m]");
    reveal_strlit("-opus-5");
    reveal_strlit("moonshotai.kimi-k2.5");
    reveal_strlit("openai.gpt-5.5");
    reveal_strlit("openai.gpt-5.4");
    reveal_strlit("openai.gpt-5.6-sol");
    lemma_nothing_to_trim(claude_default());
    lemma_nothing_to_trim(kiro_default());
    lemma_nothing_to_trim("moonshotai.kimi-k2.5"@);
    lemma_nothing_to_trim("openai.gpt-5.5"@);
    lemma_nothing_to_trim("openai.gpt-5.4"@);
    lemma_nothing_to_trim("openai.gpt-5.6-sol"@);
}

/// The model and the region of a Codex agent.
pub open spec fn codex_table(agent: Agent) -> Option<(Seq<char>, Seq<char>)> {
    match agent {
        Agent::CodexGpt55 => Some(("openai.gpt-5.5"@, "us-east-2"@)),
        Agent::CodexGpt54 => Some(("openai.gpt-5.4"@, "us-west-2"@)),
        Agent::CodexGpt56Sol => Some(("openai.gpt-5.6-sol"@, "us-east-2"@)),
        _ => None,
    }
}

/// The model and the region of a Codex agent, one table for every phase.
pub fn codex_model(agent: Agent) -> (r: Option<(&'static str, &'static str)>)
    ensures
        r is Some <==> codex_table(agent) is Some,
        r matches Some(m) ==> codex_table(agent) == Some((m.0@, m.1@)),
{
    match agent {
        Agent::CodexGpt55 => Some(("openai.gpt-5.5", "us-east-2")),
        Agent::CodexGpt54 => Some(("openai.gpt-5.4", "us-west-2")),
        Agent::CodexGpt56Sol => Some(("openai.gpt-5.6-sol", "us-east-2")),
        _ => None,
    }
}

/// A set-up of the default agent.
pub open spec fn runs_claude(agent: Agent) -> bool {
    match agent {
        Agent::Claude
        | Agent::ClaudeCombined
        | Agent::ClaudeMinimal
        | Agent::ClaudeNoIter
        | Agent::ClaudeNoFeatures
        | Agent::ClaudeNoSubtask
        | Agent::ClaudeCrossPrompt => true,
        _ => false,
    }
}

/// An agent that asks for no model.
pub open spec fn runs_no_model(agent: Agent) -> bool {
    match agent {
        Agent::C2rust | Agent::Laertes | Agent::C2SaferRust | Agent::SmartC2Rust => true,
        _ => false,
    }
}

/// The text of a flag, empty where it was not given.
pub open spec fn flag_text(flag: Option<&str>) -> Seq<char> {
    match flag {
        Some(f) => f@,
        None => ""@,
    }
}

/// The model that an agent is asked for, nothing where it runs none, or why it cannot be said.
pub open spec fn asked_for(agent: Agent, flag: Option<&str>, environment: Option<&str>) -> Result<
    Option<Seq<char>>,
    Seq<char>,
> {
    if runs_no_model(agent) {
        Ok(None)
    } else {
        let named = if agent == Agent::Kiro {
            Ok(kiro_default())
        } else if runs_claude(agent) {
            claude_named(environment)
        } else if agent == Agent::Kimi {
            Ok(KIMI_MODEL@)
        } else if agent == Agent::OpenCode {
            match opencode::model_in(flag_text(flag)) {
                Some(m) => named_model(opencode::model_arg(m.0, m.1)),
                None => Err(opencode::model_refusal(flag_text(flag))),
            }
        } else if agent == Agent::Oneshot {
            match flag {
                Some(f) => named_model(f@),
                None => Err("--agent oneshot is driven by --model <provider>/<model-id>"@),
            }
        } else {
            match codex_table(agent) {
                Some(m) => Ok(m.0),
                None => Err(""@),
            }
        };
        match named {
            Ok(m) => Ok(Some(m)),
            Err(e) => Err(e),
        }
    }
}

fn some_model(m: Result<ModelId, String>) -> (r: Result<Option<ModelId>, String>)
    ensures
        match m {
            Ok(x) => r matches Ok(Some(y)) && y@ == x@,
            Err(e) => r matches Err(f) && f@ == e@,
        },
{
    match m {
        Ok(x) => Ok(Some(x)),
        Err(e) => Err(e),
    }
}

/// The model that an agent is asked for: one table for every phase, so that the phases of an agent
/// cannot ask for different ones. `flag` is that of `--model`, and `environment` overrides the
/// default agent's.
pub fn resolved_model(agent: Agent, flag: Option<&str>, environment: Option<&str>) -> (r: Result<
    Option<ModelId>,
    String,
>)
    ensures
        match asked_for(agent, flag, environment) {
            Ok(None) => r matches Ok(None),
            Ok(Some(m)) => r matches Ok(Some(x)) && x@ == m,
            Err(e) => r matches Err(x) && x@ == e,
        },
{
    proof {
        lemma_default_models();
    }
    match agent {
        Agent::Kiro => some_model(name_model(program::named("", "-opus-5").as_str())),
        Agent::Claude
        | Agent::ClaudeCombined
        | Agent::ClaudeMinimal
        | Agent::ClaudeNoIter
        | Agent::ClaudeNoFeatures
        | Agent::ClaudeNoSubtask
        | Agent::ClaudeCrossPrompt => some_model(claude_model(environment)),
        Agent::CodexGpt55 => some_model(name_model("openai.gpt-5.5")),
        Agent::CodexGpt54 => some_model(name_model("openai.gpt-5.4")),
        Agent::CodexGpt56Sol => some_model(name_model("openai.gpt-5.6-sol")),
        Agent::OpenCode => {
            let given = match flag {
                Some(f) => f,
                None => "",
            };
            match opencode::parse_model(given) {
                Ok(m) => some_model(name_model(m.as_arg().as_str())),
                Err(e) => Err(e),
            }
        },
        Agent::Oneshot => match flag {
            Some(f) => some_model(name_model(f)),
            None => Err(
                text::copy("--agent oneshot is driven by --model <provider>/<model-id>"),
            ),
        },
        Agent::Kimi => some_model(name_model(KIMI_MODEL)),
        Agent::C2rust | Agent::Laertes | Agent::C2SaferRust | Agent::SmartC2Rust => Ok(None),
    }
}

/// Whether an agent verifies what it translated.
pub fn has_verify_phase(agent: Agent) -> (r: bool)
    ensures
        r == (agent == Agent::Kiro || agent == Agent::Claude || agent == Agent::OpenCode || agent
            == Agent::CodexGpt56Sol),
{
    match agent {
        Agent::Kiro | Agent::Claude | Agent::OpenCode | Agent::CodexGpt56Sol => true,
        _ => false,
    }
}

// ---------------------------------------------------------------------------
// The policy
// ---------------------------------------------------------------------------

/// The program that runs a phase.
#[derive(Debug)]
pub enum Backend {
    Kiro,
    Claude,
    Codex,
    OpenCode(opencode::Model),
}

impl Backend {
    /// The filesystem policy that the program applies, its paths put as tokens: nothing for a program
    /// that applies none. `base` is where all work trees are made, and `resolved` where the denied
    /// directories lead.
    pub fn policy_shape(
        &self,
        policy: &Policy,
        base: &str,
        resolved: &[Option<String>],
        home: Option<&str>,
    ) -> (r: Option<String>)
        ensures
            match *self {
                Backend::Kiro => r is None,
                Backend::Codex => r is None,
                Backend::Claude => r matches Some(s) && s@ == cache::normalised(
                    json::compact_form(
                        sandbox::settings_view(
                            sandbox::deny_list(policy.repo_root@, base@, resolved@),
                            policy.work_root@,
                        ),
                    ),
                    policy.work_root@,
                    policy.repo_root@,
                    Some(base),
                    home,
                ),
                Backend::OpenCode(_) => r matches Some(s) && s@ == cache::normalised(
                    opencode::permission_block(policy.work_root@),
                    policy.work_root@,
                    policy.repo_root@,
                    Some(base),
                    home,
                ),
            },
    {
        let work_root = policy.work_root;
        let repo_root = policy.repo_root;
        match self {
            Backend::Kiro => None,
            Backend::Codex => None,
            Backend::Claude => {
                let settings = json::compact(&sandbox::settings_json(policy, base, resolved));
                Some(cache::normalise(settings.as_str(), work_root, repo_root, Some(base), home))
            },
            Backend::OpenCode(_) => {
                let permissions = opencode::permission_shape(work_root);
                Some(cache::normalise(permissions.as_str(), work_root, repo_root, Some(base), home))
            },
        }
    }
}

// ---------------------------------------------------------------------------
// What the session reports
// ---------------------------------------------------------------------------

/// A line of a transcript that is the record with which a session begins.
pub open spec fn is_init(v: json::JsonView) -> bool {
    json::text_in(json::member(v, "type"@)) == Some("system"@) && json::text_in(
        json::member(v, "subtype"@),
    ) == Some("init"@)
}

/// The record with which a session begins, the first in its transcript.
pub open spec fn init_in(lines: Seq<Seq<char>>) -> Option<json::JsonView>
    decreases lines.len(),
{
    if lines.len() == 0 {
        None
    } else {
        match init_in(lines.drop_last()) {
            Some(v) => Some(v),
            None => match json::read(lines.last()) {
                Some(v) => if is_init(v) {
                    Some(v)
                } else {
                    None
                },
                None => None,
            },
        }
    }
}

/// Why what a session reports is not what the key of its run names.
#[derive(Debug)]
pub enum PinBroken {
    /// The model that the session reports is not the one that it was asked for.
    ModelSubstituted { asked: String, got: String },
    /// The program is another build than the one that was probed: what is said of it.
    Upgraded(String),
}

/// The value of a transcript's opening record under a name, where it has one.
pub open spec fn init_text(log: Option<&str>, name: Seq<char>) -> Option<Seq<char>> {
    match log {
        Some(t) => match init_in(text::lines(t@)) {
            Some(v) => json::text_in(json::member(v, name)),
            None => None,
        },
        None => None,
    }
}

fn member_text(v: &Json, name: &str) -> (r: Option<String>)
    ensures
        r is Some <==> json::text_in(json::member(v@, name@)) is Some,
        r matches Some(s) ==> json::text_in(json::member(v@, name@)) == Some(s@),
{
    match v.get(name) {
        Some(x) => match x.as_str() {
            Some(s) => Some(text::copy(s)),
            None => None,
        },
        None => None,
    }
}

fn has_member(v: &Json, name: &str, want: &str) -> (r: bool)
    ensures
        r == (json::text_in(json::member(v@, name@)) == Some(want@)),
{
    match member_text(v, name) {
        Some(s) => text::same_text(s.as_str(), want),
        None => false,
    }
}

fn find_init(log: &str) -> (r: Option<Json>)
    ensures
        r is Some <==> init_in(text::lines(log@)) is Some,
        r matches Some(v) ==> init_in(text::lines(log@)) == Some(v@),
{
    let lines = text::lines_of(&text::chars_of(log));
    let ghost all = text::char_views(lines@);
    let mut found: Option<Json> = None;
    let mut i: usize = 0;
    while i < lines.len()
        invariant
            i <= lines.len(),
            all == text::char_views(lines@),
            found is Some <==> init_in(all.subrange(0, i as int)) is Some,
            found matches Some(v) ==> init_in(all.subrange(0, i as int)) == Some(v@),
        decreases lines.len() - i,
    {
        assert(all.subrange(0, i + 1).drop_last() =~= all.subrange(0, i as int));
        assert(all.subrange(0, i + 1).last() == lines@[i as int]@);
        if found.is_none() {
            let line = text::string_of(&lines[i]);
            if let Some(v) = json::parse(line.as_str()) {
                if has_member(&v, "type", "system") && has_member(&v, "subtype", "init") {
                    found = Some(v);
                }
            }
        }
        i = i + 1;
    }
    assert(all.subrange(0, lines.len() as int) =~= all);
    found
}

/// The build that a session reports, where it does.
pub fn reported_build(log: Option<&str>) -> (r: Option<String>)
    ensures
        r is Some <==> init_text(log, "claude_code_version"@) is Some,
        r matches Some(v) ==> init_text(log, "claude_code_version"@) == Some(v@),
{
    match log {
        Some(t) => match find_init(t) {
            Some(v) => member_text(&v, "claude_code_version"),
            None => None,
        },
        None => None,
    }
}

/// The session reports another model than the one that was asked for.
pub open spec fn substituted(log: Option<&str>, want: Seq<char>) -> bool {
    init_text(log, "model"@) matches Some(got) && got != want
}

/// Holds what the session reports against what the key of its run names: the model must be the one
/// that was pinned, and the build one that the probed version covers, where the transcript names them.
/// `covered` says whether `cli`, the version that was probed, covers the build that
/// [`reported_build`] gives. A transcript that cannot be read, or has no opening record, breaks no
/// pin and confirms none.
pub fn assert_pins_honoured(log: Option<&str>, want: &ModelId, cli: &str, covered: bool) -> (r:
    Result<PinReport, PinBroken>)
    ensures
        substituted(log, want@) ==> (r matches Err(PinBroken::ModelSubstituted { asked, got })
            && asked@ == want@ && init_text(log, "model"@) == Some(got@)),
        !substituted(log, want@) ==> match init_text(log, "claude_code_version"@) {
            Some(got) => if covered {
                r is Ok
            } else {
                r matches Err(PinBroken::Upgraded(e)) && e@ == upgrade_refusal(cli@, got)
            },
            None => r is Ok,
        },
        r matches Ok(p) ==> p == (if init_text(log, "model"@) is Some {
            PinReport::Confirmed
        } else {
            PinReport::NotReported
        }),
{
    let init = match log {
        Some(t) => match find_init(t) {
            Some(v) => v,
            None => {
                return Ok(PinReport::NotReported);
            },
        },
        None => {
            return Ok(PinReport::NotReported);
        },
    };
    let model = member_text(&init, "model");
    if let Some(got) = &model {
        if !text::same_text(got.as_str(), want.as_str()) {
            return Err(
                PinBroken::ModelSubstituted {
                    asked: text::copy(want.as_str()),
                    got: text::copy(got.as_str()),
                },
            );
        }
    }
    if let Some(got) = member_text(&init, "claude_code_version") {
        if !covered {
            return Err(PinBroken::Upgraded(cli_upgraded(cli, got.as_str())));
        }
    }
    match model {
        Some(_) => Ok(PinReport::Confirmed),
        None => Ok(PinReport::NotReported),
    }
}

/// The refusal of a session whose program changed under the run.
pub open spec fn upgrade_refusal(cli: Seq<char>, got: Seq<char>) -> Seq<char> {
    "the CLI upgraded under the run: the key names "@ + cli + ", the session reports "@ + got
        + ". Refusing to store this artifact under a key naming another build."@
}

/// The refusal of a session whose program changed under the run.
pub fn cli_upgraded(cli: &str, got: &str) -> (r: String)
    ensures
        r@ == upgrade_refusal(cli@, got@),
{
    let head = text::join3(
        "the CLI upgraded under the run: the key names ",
        cli,
        ", the session reports ",
    );
    text::join3(
        head.as_str(),
        got,
        ". Refusing to store this artifact under a key naming another build.",
    )
}

// ---------------------------------------------------------------------------
// Laws
// ---------------------------------------------------------------------------

/// An agent that verifies asks for a model.
pub proof fn law_a_verifying_agent_runs_a_model(agent: Agent)
    requires
        agent == Agent::Kiro || agent == Agent::Claude || agent == Agent::OpenCode || agent
            == Agent::CodexGpt56Sol,
    ensures
        !runs_no_model(agent),
{
}

/// Without a flag and without an override, every agent but the two that are driven by the flag has a
/// model or needs none.
pub proof fn law_the_table_is_complete(agent: Agent)
    requires
        agent != Agent::OpenCode,
        agent != Agent::Oneshot,
    ensures
        asked_for(agent, None, None) is Ok,
        asked_for(agent, None, None) == Ok::<Option<Seq<char>>, Seq<char>>(None) <==> runs_no_model(
            agent,
        ),
{
    lemma_default_models();
}

/// The model of each agent: the codex agents have theirs by a table, with the region that serves it, two
/// agents have one of their own, and the tools that translate by rule have none.
pub proof fn law_each_agent_has_its_own_model(flag: Option<&str>, environment: Option<&str>)
    ensures
        codex_table(Agent::CodexGpt55) == Some(("openai.gpt-5.5"@, "us-east-2"@)),
        codex_table(Agent::CodexGpt54) == Some(("openai.gpt-5.4"@, "us-west-2"@)),
        codex_table(Agent::CodexGpt56Sol) == Some(("openai.gpt-5.6-sol"@, "us-east-2"@)),
        asked_for(Agent::CodexGpt55, flag, environment) == Ok::<Option<Seq<char>>, Seq<char>>(
            Some("openai.gpt-5.5"@),
        ),
        asked_for(Agent::CodexGpt54, flag, environment) == Ok::<Option<Seq<char>>, Seq<char>>(
            Some("openai.gpt-5.4"@),
        ),
        asked_for(Agent::CodexGpt56Sol, flag, environment) == Ok::<Option<Seq<char>>, Seq<char>>(
            Some("openai.gpt-5.6-sol"@),
        ),
        asked_for(Agent::Kimi, flag, environment) == Ok::<Option<Seq<char>>, Seq<char>>(
            Some(KIMI_MODEL@),
        ),
        asked_for(Agent::Kiro, flag, environment) == Ok::<Option<Seq<char>>, Seq<char>>(
            Some(""@ + program::program() + "-opus-5"@),
        ),
        asked_for(Agent::C2rust, flag, environment) == Ok::<Option<Seq<char>>, Seq<char>>(None),
        asked_for(Agent::Laertes, flag, environment) == Ok::<Option<Seq<char>>, Seq<char>>(None),
        asked_for(Agent::C2SaferRust, flag, environment) == Ok::<Option<Seq<char>>, Seq<char>>(
            None,
        ),
        asked_for(Agent::SmartC2Rust, flag, environment) == Ok::<Option<Seq<char>>, Seq<char>>(
            None,
        ),
{
}

/// A model is taken as it is named, or it is refused: one that is blank, or that a shell would read.
/// What the environment names goes before what is asked for otherwise.
pub proof fn law_a_model_is_taken_as_named_or_refused(s: &str, agent: Agent)
    requires
        runs_claude(agent),
    ensures
        named_model(s@) matches Ok(m) ==> m == s@,
        named_model(s@) is Ok <==> cache::names_model(s@),
        !cache::names_model(s@) && text::trimmed(s@).len() == 0 ==> named_model(s@) == Err::<
            Seq<char>,
            Seq<char>,
        >("model id must not be empty"@),
        cache::names_model(s@) ==> asked_for(agent, None, Some(s)) == Ok::<
            Option<Seq<char>>,
            Seq<char>,
        >(Some(s@)),
        !cache::names_model(s@) ==> asked_for(agent, None, Some(s)) is Err,
        cache::names_model(claude_default()) ==> asked_for(agent, Some(s), None) == Ok::<
            Option<Seq<char>>,
            Seq<char>,
        >(Some(claude_default())),
        claude_default() == "global.anthropic."@ + program::program() + "-opus-5[1m]"@,
{
}

/// The two agents that are driven by a flag run the model that it names, and none without it.
pub proof fn law_a_flag_names_the_model_where_it_must(flag: &str, environment: Option<&str>)
    ensures
        asked_for(Agent::Oneshot, None, environment) is Err,
        cache::names_model(flag@) ==> asked_for(Agent::Oneshot, Some(flag), environment) == Ok::<
            Option<Seq<char>>,
            Seq<char>,
        >(Some(flag@)),
        !cache::names_model(flag@) ==> asked_for(Agent::Oneshot, Some(flag), environment) is Err,
        opencode::model_in(flag@) is None ==> asked_for(Agent::OpenCode, Some(flag), environment) is Err,
        opencode::model_in(flag@) matches Some(m) ==> (cache::names_model(
            opencode::model_arg(m.0, m.1),
        ) ==> asked_for(Agent::OpenCode, Some(flag), environment) == Ok::<
            Option<Seq<char>>,
            Seq<char>,
        >(Some(opencode::model_arg(m.0, m.1)))),
{
}

/// What a session reports is in its first record of that kind, and nothing that is said later.
pub proof fn law_a_session_reports_itself_first(
    lines: Seq<Seq<char>>,
    line: Seq<char>,
)
    ensures
        init_in(lines) is Some ==> init_in(lines.push(line)) == init_in(lines),
        init_in(lines) is None && json::read(line) is None ==> init_in(lines.push(line)) is None,
        init_in(lines) is None && json::read(line) is Some ==> init_in(lines.push(line)) == (
        if json::text_in(json::member(json::read(line)->0, "type"@)) == Some("system"@)
            && json::text_in(json::member(json::read(line)->0, "subtype"@)) == Some("init"@) {
            json::read(line)
        } else {
            None
        }),
        init_in(Seq::empty()) is None,
{
    assert(lines.push(line).drop_last() =~= lines);
}

/// A pin is broken by another model than the one asked for, and only where the session reports one.
pub proof fn law_only_another_model_breaks_a_pin(log: Option<&str>, want: Seq<char>)
    ensures
        init_text(log, "model"@) is None ==> !substituted(log, want),
        init_text(log, "model"@) == Some(want) ==> !substituted(log, want),
        init_text(log, "model"@) is Some && init_text(log, "model"@) != Some(want) ==> substituted(
            log,
            want,
        ),
        init_text(None, want) is None,
{
}

/// An upgrade under a run is told by both builds.
pub proof fn law_an_upgrade_names_both_builds(cli: Seq<char>, got: Seq<char>)
    ensures
        text::begins(
            upgrade_refusal(cli, got),
            "the CLI upgraded under the run: the key names "@ + cli + ", the session reports "@
                + got,
        ),
{
    let a = "the CLI upgraded under the run: the key names "@ + cli + ", the session reports "@
        + got;
    let u = upgrade_refusal(cli, got);
    assert(u.subrange(0, a.len() as int) =~= a);
}

} // verus!
