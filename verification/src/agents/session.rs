//! How the program of an agent is invoked: one builder for each backend, shared by every phase.

use crate::cache::ModelId;
use crate::opencode;
use crate::program;
use crate::text;
use vstd::prelude::*;
use vstd::string::*;

verus! {

// ---------------------------------------------------------------------------
// What a session is made of
// ---------------------------------------------------------------------------

/// The agent that the default program runs: the tools that are built in, and nothing else.
pub const CLAUDE_PLAIN_AGENT_JSON: &'static str =
    "{\"claude_plain\":{\"description\":\"Bare-bones agent matching kiro_plain\",\"prompt\":\"You are a coding assistant. Use the available tools to complete the user's task.\",\"tools\":[\"Bash\",\"Edit\",\"Read\",\"Write\",\"Task\"]}}";

/// The turns after which the default agent stops.
pub const CLAUDE_MAX_TURNS: u32 = 1000;

/// What the default agent asks before it uses a tool: nothing.
pub const CLAUDE_PERMISSION_MODE: &'static str = "bypassPermissions";

/// The blocks that a file may grow to.
pub const AGENT_FSIZE_BLOCKS: u64 = 4194304;

/// The kilobytes of data that a process may hold.
pub const AGENT_DATA_KB: u64 = 6291456;

/// The settings of the default agent's runtime: how long a request may take, and how often it is sent again.
pub open spec fn agent_settings() -> Seq<(Seq<char>, Seq<char>)> {
    seq![
        ("API_TIMEOUT_MS"@, "1200000"@),
        ("API_FORCE_IDLE_TIMEOUT"@, "0"@),
        ("CLAUDE_CODE_MAX_RETRIES"@, "20"@),
        ("CLAUDE_CODE_RETRY_WATCHDOG"@, "1"@),
    ]
}

/// The settings of the default agent's runtime.
pub fn agent_env() -> (r: Vec<(String, String)>)
    ensures
        text::pair_views(r@) == agent_settings(),
{
    let mut v: Vec<(String, String)> = Vec::new();
    v.push((text::copy("API_TIMEOUT_MS"), text::copy("1200000")));
    v.push((text::copy("API_FORCE_IDLE_TIMEOUT"), text::copy("0")));
    v.push((text::copy("CLAUDE_CODE_MAX_RETRIES"), text::copy("20")));
    v.push((text::copy("CLAUDE_CODE_RETRY_WATCHDOG"), text::copy("1")));
    assert(text::pair_views(v@) =~= agent_settings());
    v
}

/// What an agent's process may use.
#[derive(Debug, Copy, Clone, PartialEq, Eq, Structural)]
pub struct Caps {
    pub fsize_blocks: u64,
    pub data_kb: u64,
}

impl Caps {
    /// The same caps for every backend.
    pub open spec fn same_for_all() -> Caps {
        Caps { fsize_blocks: AGENT_FSIZE_BLOCKS, data_kb: AGENT_DATA_KB }
    }

    /// The same caps for every backend.
    pub fn uniform() -> (r: Caps)
        ensures
            r == Caps::same_for_all(),
    {
        Caps { fsize_blocks: AGENT_FSIZE_BLOCKS, data_kb: AGENT_DATA_KB }
    }
}

/// One session of an agent: the program, its wall clock, what shapes its behaviour, and the script
/// that applies all of it.
#[derive(Debug)]
pub struct Session {
    pub program: String,
    pub timeout_secs: u64,
    pub max_turns: Option<u32>,
    pub permission_mode: Option<&'static str>,
    pub caps: Caps,
    /// The definition of the agent; empty where the program takes none.
    pub agents_json: &'static str,
    pub agent_env: Vec<(String, String)>,
    pub script: String,
}

/// How the caps are written in a script.
pub open spec fn cap_words(c: Caps) -> Seq<char> {
    "ulimit -f "@ + text::numeral(c.fsize_blocks as nat) + " -d "@ + text::numeral(
        c.data_kb as nat,
    )
}

/// How the wall clock and the program are written in a script.
pub open spec fn timeout_words(secs: u64, program: Seq<char>) -> Seq<char> {
    "timeout "@ + text::numeral(secs as nat) + " "@ + program
}

/// How the limit of turns is written in a script.
pub open spec fn turn_words(n: u32) -> Seq<char> {
    "--max-turns "@ + text::numeral(n as nat)
}

/// How the permissions are written in a script.
pub open spec fn mode_words(mode: Seq<char>) -> Seq<char> {
    "--permission-mode "@ + mode
}

/// How every script begins. Without `pipefail` the status of the pipeline would be that of `tee`,
/// and a killed session would look like a clean exit.
pub open spec fn opening(c: Caps, secs: u64, program: Seq<char>) -> Seq<char> {
    cap_words(c) + "; "@ + "set -o pipefail"@ + "; "@ + timeout_words(secs, program)
}

/// The flags of a session.
pub open spec fn flags(turns: Option<u32>, mode: Option<&'static str>) -> Seq<char> {
    (match turns {
        Some(n) => " "@ + turn_words(n),
        None => Seq::empty(),
    }) + (match mode {
        Some(m) => " "@ + mode_words(m@),
        None => Seq::empty(),
    })
}

fn write_caps(c: Caps) -> (r: String)
    ensures
        r@ == cap_words(c),
{
    let mut s = text::copy("ulimit -f ");
    text::push_numeral(&mut s, c.fsize_blocks);
    s.append(" -d ");
    text::push_numeral(&mut s, c.data_kb);
    s
}

fn write_timeout(secs: u64, program: &str) -> (r: String)
    ensures
        r@ == timeout_words(secs, program@),
{
    let mut s = text::copy("timeout ");
    text::push_numeral(&mut s, secs);
    s.append(" ");
    s.append(program);
    s
}

fn write_turns(n: u32) -> (r: String)
    ensures
        r@ == turn_words(n),
{
    let mut s = text::copy("--max-turns ");
    text::push_numeral(&mut s, n as u64);
    s
}

fn write_opening(c: Caps, secs: u64, program: &str) -> (r: String)
    ensures
        r@ == opening(c, secs, program@),
{
    let mut s = write_caps(c);
    s.append("; ");
    s.append("set -o pipefail");
    s.append("; ");
    s.append(write_timeout(secs, program).as_str());
    s
}

fn write_flags(turns: Option<u32>, mode: Option<&'static str>) -> (r: String)
    ensures
        r@ == flags(turns, mode),
{
    proof {
        reveal_strlit("");
    }
    let mut s = text::copy("");
    if let Some(n) = turns {
        s.append(" ");
        s.append(write_turns(n).as_str());
    }
    if let Some(m) = mode {
        s.append(" ");
        s.append("--permission-mode ");
        s.append(m);
    }
    assert(s@ =~= flags(turns, mode));
    s
}

/// The script of the default agent. The values of one run are its arguments.
pub open spec fn claude_script(secs: u64) -> Seq<char> {
    opening(Caps::same_for_all(), secs, program::program())
        + " -p \"$1\" --strict-mcp-config --disable-slash-commands --settings \"$3\" --agents \"$4\" --agent claude_plain"@
        + flags(Some(CLAUDE_MAX_TURNS), Some(CLAUDE_PERMISSION_MODE)) + " "@ + "--model \"$"@
        + "5\" --verbose --output-format stream-json < /dev/null 2>&1 | tee \"$2\""@
}

/// The script of Codex.
pub open spec fn codex_script(secs: u64) -> Seq<char> {
    opening(Caps::same_for_all(), secs, "codex"@)
        + " exec --skip-git-repo-check --dangerously-bypass-approvals-and-sandbox -C \"$3\" "@
        + "-c model=\"$"@
        + "5\" -c model_providers.amazon-bedrock.aws.region=\"$6\" --json \"$1\" < /dev/null 2>&1 | tee \"$2\""@
}

/// The script of Kiro.
pub open spec fn kiro_script(secs: u64) -> Seq<char> {
    opening(Caps::same_for_all(), secs, "kiro-cli"@)
        + " chat --no-interactive --trust-all-tools --agent kiro_plain "@ + "--model \"$"@
        + "3\" \"$1\" < /dev/null 2>&1 | tee \"$2\""@
}

/// The script of OpenCode.
pub open spec fn opencode_script(phase: opencode::Phase, secs: u64) -> Seq<char> {
    opening(Caps::same_for_all(), secs, "opencode"@)
        + " run --format json --thinking --dangerously-skip-permissions --agent "@ + phase.agent()
        + " "@ + "--model \"$"@ + "1\" \"$2\" < /dev/null 2>&1 | tee \"$3\""@
}

// ---------------------------------------------------------------------------
// What a script must apply
// ---------------------------------------------------------------------------

/// What a session says of itself that its script must apply.
pub open spec fn wanted(s: Session) -> Seq<Seq<char>> {
    let timeout = seq![timeout_words(s.timeout_secs, s.program@)];
    let turns = match s.max_turns {
        Some(n) => timeout.push(turn_words(n)),
        None => timeout,
    };
    let mode = match s.permission_mode {
        Some(m) => turns.push(mode_words(m@)),
        None => turns,
    };
    mode.push(cap_words(s.caps))
}

/// The script applies what the session says of itself.
pub open spec fn declares(s: Session) -> bool {
    forall|i: int| 0 <= i < wanted(s).len() ==> text::found(s.script@, #[trigger] wanted(s)[i])
}

/// The first of some texts that another does not hold.
pub open spec fn first_missing(h: Seq<char>, want: Seq<Seq<char>>) -> Option<Seq<char>>
    decreases want.len(),
{
    if want.len() == 0 {
        None
    } else {
        match first_missing(h, want.drop_last()) {
            Some(w) => Some(w),
            None => if text::found(h, want.last()) {
                None
            } else {
                Some(want.last())
            },
        }
    }
}

/// The refusal of a script that does not apply what its session says.
pub open spec fn undeclared(s: Session, w: Seq<char>) -> Seq<char> {
    "the "@ + s.program@ + " invocation does not apply "@ + text::quoted_form(w)
        + ", so the recipe in the cache key would describe a run that did not happen:\n"@ + s.script@
}

/// The script asks for the model that was pinned.
pub open spec fn pins_model(script: Seq<char>) -> bool {
    text::found(script, "--model \"$"@) || text::found(script, "-c model=\"$"@)
}

/// The script shows the status of the agent and not that of `tee`.
pub open spec fn shows_status(script: Seq<char>) -> bool {
    text::found(script, "set -o pipefail"@)
}

proof fn lemma_opening_applies(c: Caps, secs: u64, program: Seq<char>, rest: Seq<char>)
    ensures
        text::found(opening(c, secs, program) + rest, cap_words(c)),
        text::found(opening(c, secs, program) + rest, timeout_words(secs, program)),
        shows_status(opening(c, secs, program) + rest),
{
    let s = opening(c, secs, program) + rest;
    let caps = cap_words(c);
    let t = timeout_words(secs, program);
    let a = "; "@ + "set -o pipefail"@ + "; "@ + t + rest;
    assert(s =~= Seq::<char>::empty() + caps + a);
    text::lemma_found_inside(Seq::empty(), caps, a);
    let b = caps + "; "@;
    let c2 = "; "@ + t + rest;
    assert(s =~= b + "set -o pipefail"@ + c2);
    text::lemma_found_inside(b, "set -o pipefail"@, c2);
    let d = caps + "; "@ + "set -o pipefail"@ + "; "@;
    assert(s =~= d + t + rest);
    text::lemma_found_inside(d, t, rest);
}

impl Session {
    /// A session of the default agent.
    pub fn claude(timeout_secs: u64) -> (r: Session)
        ensures
            r.program@ == program::program(),
            r.timeout_secs == timeout_secs,
            r.max_turns == Some(CLAUDE_MAX_TURNS),
            r.permission_mode == Some(CLAUDE_PERMISSION_MODE),
            r.caps == Caps::same_for_all(),
            r.agents_json@ == CLAUDE_PLAIN_AGENT_JSON@,
            text::pair_views(r.agent_env@) == agent_settings(),
            r.script@ == claude_script(timeout_secs),
            declares(r),
            pins_model(r.script@),
            shows_status(r.script@),
    {
        let program = program::program_name();
        let mut script = write_opening(Caps::uniform(), timeout_secs, program.as_str());
        script.append(
            " -p \"$1\" --strict-mcp-config --disable-slash-commands --settings \"$3\" --agents \"$4\" --agent claude_plain",
        );
        script.append(
            write_flags(Some(CLAUDE_MAX_TURNS), Some(CLAUDE_PERMISSION_MODE)).as_str(),
        );
        script.append(" ");
        script.append("--model \"$");
        script.append("5\" --verbose --output-format stream-json < /dev/null 2>&1 | tee \"$2\"");
        let r = Session {
            program,
            timeout_secs,
            max_turns: Some(CLAUDE_MAX_TURNS),
            permission_mode: Some(CLAUDE_PERMISSION_MODE),
            caps: Caps::uniform(),
            agents_json: CLAUDE_PLAIN_AGENT_JSON,
            agent_env: agent_env(),
            script,
        };
        proof {
            let s = r.script@;
            let head = opening(Caps::same_for_all(), timeout_secs, program::program());
            let mid =
                " -p \"$1\" --strict-mcp-config --disable-slash-commands --settings \"$3\" --agents \"$4\" --agent claude_plain"@;
            let turns = turn_words(CLAUDE_MAX_TURNS);
            let mode = mode_words(CLAUDE_PERMISSION_MODE@);
            let tail =
                "5\" --verbose --output-format stream-json < /dev/null 2>&1 | tee \"$2\""@;
            let rest = s.subrange(head.len() as int, s.len() as int);
            assert(s =~= head + rest);
            lemma_opening_applies(Caps::same_for_all(), timeout_secs, program::program(), rest);
            let before_turns = head + mid + " "@;
            let after_turns = " "@ + mode + " "@ + "--model \"$"@ + tail;
            assert(s =~= before_turns + turns + after_turns);
            text::lemma_found_inside(before_turns, turns, after_turns);
            let before_mode = before_turns + turns + " "@;
            let after_mode = " "@ + "--model \"$"@ + tail;
            assert(s =~= before_mode + mode + after_mode);
            text::lemma_found_inside(before_mode, mode, after_mode);
            let before_model = before_mode + mode + " "@;
            assert(s =~= before_model + "--model \"$"@ + tail);
            text::lemma_found_inside(before_model, "--model \"$"@, tail);
        }
        r
    }

    /// A session of Codex.
    pub fn codex(timeout_secs: u64) -> (r: Session)
        ensures
            r.program@ == "codex"@,
            r.timeout_secs == timeout_secs,
            r.max_turns is None,
            r.permission_mode is None,
            r.caps == Caps::same_for_all(),
            r.agents_json@ == ""@,
            r.agent_env@.len() == 0,
            r.script@ == codex_script(timeout_secs),
            declares(r),
            pins_model(r.script@),
            shows_status(r.script@),
    {
        let mut script = write_opening(Caps::uniform(), timeout_secs, "codex");
        script.append(
            " exec --skip-git-repo-check --dangerously-bypass-approvals-and-sandbox -C \"$3\" ",
        );
        script.append("-c model=\"$");
        script.append(
            "5\" -c model_providers.amazon-bedrock.aws.region=\"$6\" --json \"$1\" < /dev/null 2>&1 | tee \"$2\"",
        );
        let r = bare("codex", timeout_secs, script);
        proof {
            let s = r.script@;
            let head = opening(Caps::same_for_all(), timeout_secs, "codex"@);
            let before = head
                + " exec --skip-git-repo-check --dangerously-bypass-approvals-and-sandbox -C \"$3\" "@;
            let tail =
                "5\" -c model_providers.amazon-bedrock.aws.region=\"$6\" --json \"$1\" < /dev/null 2>&1 | tee \"$2\""@;
            text::lemma_found_inside(before, "-c model=\"$"@, tail);
            let rest = s.subrange(head.len() as int, s.len() as int);
            assert(s =~= head + rest);
            lemma_opening_applies(Caps::same_for_all(), timeout_secs, "codex"@, rest);
        }
        r
    }

    /// A session of Kiro. It has no limit of turns, no permissions and no agent to be told: its own
    /// configuration holds one. The model is pinned, or the one picked last would run.
    pub fn kiro(timeout_secs: u64) -> (r: Session)
        ensures
            r.program@ == "kiro-cli"@,
            r.timeout_secs == timeout_secs,
            r.max_turns is None,
            r.permission_mode is None,
            r.caps == Caps::same_for_all(),
            r.agents_json@ == ""@,
            r.agent_env@.len() == 0,
            r.script@ == kiro_script(timeout_secs),
            declares(r),
            pins_model(r.script@),
            shows_status(r.script@),
    {
        let mut script = write_opening(Caps::uniform(), timeout_secs, "kiro-cli");
        script.append(" chat --no-interactive --trust-all-tools --agent kiro_plain ");
        script.append("--model \"$");
        script.append("3\" \"$1\" < /dev/null 2>&1 | tee \"$2\"");
        let r = bare("kiro-cli", timeout_secs, script);
        proof {
            let s = r.script@;
            let head = opening(Caps::same_for_all(), timeout_secs, "kiro-cli"@);
            let before = head + " chat --no-interactive --trust-all-tools --agent kiro_plain "@;
            text::lemma_found_inside(
                before,
                "--model \"$"@,
                "3\" \"$1\" < /dev/null 2>&1 | tee \"$2\""@,
            );
            let rest = s.subrange(head.len() as int, s.len() as int);
            assert(s =~= head + rest);
            lemma_opening_applies(Caps::same_for_all(), timeout_secs, "kiro-cli"@, rest);
        }
        r
    }

    /// A session of OpenCode.
    pub fn opencode(phase: opencode::Phase, timeout_secs: u64) -> (r: Session)
        ensures
            r.program@ == "opencode"@,
            r.timeout_secs == timeout_secs,
            r.max_turns is None,
            r.permission_mode is None,
            r.caps == Caps::same_for_all(),
            r.agents_json@ == ""@,
            r.agent_env@.len() == 0,
            r.script@ == opencode_script(phase, timeout_secs),
            declares(r),
            pins_model(r.script@),
            shows_status(r.script@),
    {
        let mut script = write_opening(Caps::uniform(), timeout_secs, "opencode");
        script.append(" run --format json --thinking --dangerously-skip-permissions --agent ");
        script.append(phase.agent_name());
        script.append(" ");
        script.append("--model \"$");
        script.append("1\" \"$2\" < /dev/null 2>&1 | tee \"$3\"");
        let r = bare("opencode", timeout_secs, script);
        proof {
            let s = r.script@;
            let head = opening(Caps::same_for_all(), timeout_secs, "opencode"@);
            let before = head
                + " run --format json --thinking --dangerously-skip-permissions --agent "@
                + phase.agent() + " "@;
            text::lemma_found_inside(
                before,
                "--model \"$"@,
                "1\" \"$2\" < /dev/null 2>&1 | tee \"$3\""@,
            );
            let rest = s.subrange(head.len() as int, s.len() as int);
            assert(s =~= head + rest);
            lemma_opening_applies(Caps::same_for_all(), timeout_secs, "opencode"@, rest);
        }
        r
    }

    /// Refuses a session whose script does not apply what the session says of itself.
    pub fn assert_declares(&self) -> (r: Result<(), String>)
        ensures
            r is Ok <==> declares(*self),
            r matches Err(e) ==> first_missing(self.script@, wanted(*self)) is Some && e@
                == undeclared(*self, first_missing(self.script@, wanted(*self))->0),
    {
        let mut want: Vec<String> = Vec::new();
        want.push(write_timeout(self.timeout_secs, self.program.as_str()));
        if let Some(n) = self.max_turns {
            want.push(write_turns(n));
        }
        if let Some(m) = self.permission_mode {
            want.push(text::join2("--permission-mode ", m));
        }
        want.push(write_caps(self.caps));
        let ghost all = wanted(*self);
        assert(text::views(want@) =~= all);
        let mut i: usize = 0;
        while i < want.len()
            invariant
                i <= want.len(),
                all == wanted(*self),
                all == text::views(want@),
                first_missing(self.script@, all.subrange(0, i as int)) is None,
                forall|k: int| 0 <= k < i ==> text::found(self.script@, #[trigger] all[k]),
            decreases want.len() - i,
        {
            assert(all.subrange(0, i + 1).drop_last() =~= all.subrange(0, i as int));
            assert(all.subrange(0, i + 1).last() == want@[i as int]@);
            assert(all[i as int] == want@[i as int]@);
            if !text::has_text(self.script.as_str(), want[i].as_str()) {
                proof {
                    lemma_missing_extends(self.script@, all, i + 1);
                }
                let head = text::join3("the ", self.program.as_str(), " invocation does not apply ");
                let quoted = text::quoted(want[i].as_str());
                let mut e = text::join3(
                    head.as_str(),
                    quoted.as_str(),
                    ", so the recipe in the cache key would describe a run that did not happen:\n",
                );
                e.append(self.script.as_str());
                return Err(e);
            }
            i = i + 1;
        }
        assert(all.subrange(0, want.len() as int) =~= all);
        Ok(())
    }
}

proof fn lemma_missing_extends(h: Seq<char>, want: Seq<Seq<char>>, n: int)
    requires
        0 <= n <= want.len(),
        first_missing(h, want.subrange(0, n)) is Some,
    ensures
        first_missing(h, want) == first_missing(h, want.subrange(0, n)),
    decreases want.len() - n,
{
    if n == want.len() {
        assert(want.subrange(0, n) =~= want);
    } else {
        assert(want.subrange(0, n + 1).drop_last() =~= want.subrange(0, n));
        lemma_missing_extends(h, want, n + 1);
    }
}

/// A session with no limit of turns, no permissions, no agent to be told and no settings.
fn bare(program: &str, timeout_secs: u64, script: String) -> (r: Session)
    ensures
        r.program@ == program@,
        r.timeout_secs == timeout_secs,
        r.max_turns is None,
        r.permission_mode is None,
        r.caps == Caps::same_for_all(),
        r.agents_json@ == ""@,
        r.agent_env@.len() == 0,
        r.script@ == script@,
{
    Session {
        program: text::copy(program),
        timeout_secs,
        max_turns: None,
        permission_mode: None,
        caps: Caps::uniform(),
        agents_json: "",
        agent_env: Vec::new(),
        script,
    }
}

// ---------------------------------------------------------------------------
// The shape
// ---------------------------------------------------------------------------

/// Settings on one line.
pub open spec fn env_words(pairs: Seq<(Seq<char>, Seq<char>)>) -> Seq<char>
    decreases pairs.len(),
{
    if pairs.len() == 0 {
        Seq::empty()
    } else {
        env_words(pairs.drop_last()) + " env:"@ + pairs.last().0 + "="@ + pairs.last().1
    }
}

/// What a shape says before the settings.
pub open spec fn shape_head(s: Session) -> Seq<char> {
    "program="@ + s.program@ + " timeout="@ + text::numeral(s.timeout_secs as nat) + (
    match s.max_turns {
        Some(n) => " max_turns="@ + text::numeral(n as nat),
        None => Seq::empty(),
    }) + (match s.permission_mode {
        Some(m) => " permission_mode="@ + m@,
        None => Seq::empty(),
    }) + " fsize_blocks="@ + text::numeral(s.caps.fsize_blocks as nat) + " data_kb="@
        + text::numeral(s.caps.data_kb as nat) + " agents="@ + s.agents_json@
}

/// Everything in a session on one line: its fields, its settings in their order, and its script.
pub open spec fn shape_of(s: Session) -> Seq<char> {
    shape_head(s) + env_words(text::pairs_in_order(text::pair_views(s.agent_env@))) + " script="@
        + s.script@
}

impl Session {
    /// Everything in the session on one line, for the key of a run.
    pub fn shape(&self) -> (r: String)
        ensures
            r@ == shape_of(*self),
    {
        let mut out = text::join3("program=", self.program.as_str(), " timeout=");
        text::push_numeral(&mut out, self.timeout_secs);
        if let Some(n) = self.max_turns {
            out.append(" max_turns=");
            text::push_numeral(&mut out, n as u64);
        }
        if let Some(m) = self.permission_mode {
            out.append(" permission_mode=");
            out.append(m);
        }
        out.append(" fsize_blocks=");
        text::push_numeral(&mut out, self.caps.fsize_blocks);
        out.append(" data_kb=");
        text::push_numeral(&mut out, self.caps.data_kb);
        out.append(" agents=");
        out.append(self.agents_json);
        assert(out@ =~= shape_head(*self));
        let env = text::sort_pairs(self.agent_env.as_slice());
        let ghost pairs = text::pair_views(env@);
        let mut i: usize = 0;
        assert(out@ =~= shape_head(*self) + env_words(pairs.subrange(0, 0)));
        while i < env.len()
            invariant
                i <= env.len(),
                pairs == text::pair_views(env@),
                out@ == shape_head(*self) + env_words(pairs.subrange(0, i as int)),
            decreases env.len() - i,
        {
            assert(pairs.subrange(0, i + 1).drop_last() =~= pairs.subrange(0, i as int));
            assert(pairs.subrange(0, i + 1).last() == (env@[i as int].0@, env@[i as int].1@));
            out.append(" env:");
            out.append(env[i].0.as_str());
            out.append("=");
            out.append(env[i].1.as_str());
            assert(out@ =~= shape_head(*self) + env_words(pairs.subrange(0, i + 1)));
            i = i + 1;
        }
        assert(pairs.subrange(0, env.len() as int) =~= pairs);
        out.append(" script=");
        out.append(self.script.as_str());
        out
    }
}

// ---------------------------------------------------------------------------
// The command of a run
// ---------------------------------------------------------------------------

/// How `bash` is started for one run: its arguments, what is added to its environment, and where.
#[derive(Debug)]
pub struct Launch {
    pub args: Vec<String>,
    pub env: Vec<(String, String)>,
    /// The directory to start in, where it is not the caller's.
    pub cwd: Option<String>,
}

/// The arguments before those of one run. What follows is `$1` and on to the script.
pub open spec fn shell_args(script: Seq<char>) -> Seq<Seq<char>> {
    seq!["-c"@, script, "--"@]
}

/// The environment of every run.
pub open spec fn shell_env(s: Session, openssl_dir: Option<&str>) -> Seq<(Seq<char>, Seq<char>)> {
    seq![
        (
            "OPENSSL_DIR"@,
            match openssl_dir {
                Some(d) => d@,
                None => "/usr"@,
            },
        ),
    ] + text::pair_views(s.agent_env@)
}

/// The values of one run of the default agent.
#[derive(Debug)]
pub struct ClaudeRun<'a> {
    pub cwd: &'a str,
    pub prompt: &'a str,
    pub log: &'a str,
    pub settings: &'a str,
    /// Where the agent puts its scratch files.
    pub agent_tmp: &'a str,
    pub model: &'a ModelId,
}

/// The values of one run of OpenCode.
#[derive(Debug)]
pub struct OpencodeRun<'a> {
    pub cwd: &'a str,
    pub prompt: &'a str,
    pub log: &'a str,
    pub model_arg: &'a str,
    /// The configuration of this run alone.
    pub xdg_config_home: &'a str,
}

fn copy_pairs(v: &[(String, String)]) -> (r: Vec<(String, String)>)
    ensures
        text::pair_views(r@) == text::pair_views(v@),
{
    let mut out: Vec<(String, String)> = Vec::new();
    let mut i: usize = 0;
    while i < v.len()
        invariant
            i <= v.len(),
            out@.len() == i,
            forall|k: int|
                0 <= k < i ==> (#[trigger] out@[k]).0@ == v@[k].0@ && out@[k].1@ == v@[k].1@,
        decreases v.len() - i,
    {
        out.push((text::copy(v[i].0.as_str()), text::copy(v[i].1.as_str())));
        i = i + 1;
    }
    assert(text::pair_views(out@) =~= text::pair_views(v@));
    out
}

impl Session {
    fn shell(&self, openssl_dir: Option<&str>) -> (r: Launch)
        ensures
            text::views(r.args@) == shell_args(self.script@),
            text::pair_views(r.env@) == shell_env(*self, openssl_dir),
            r.cwd is None,
    {
        let mut args: Vec<String> = Vec::new();
        args.push(text::copy("-c"));
        args.push(text::copy(self.script.as_str()));
        args.push(text::copy("--"));
        assert(text::views(args@) =~= shell_args(self.script@));
        let dir = match openssl_dir {
            Some(d) => text::copy(d),
            None => text::copy("/usr"),
        };
        let mut env: Vec<(String, String)> = copy_pairs(self.agent_env.as_slice());
        let ghost settings = text::pair_views(env@);
        env.insert(0, (text::copy("OPENSSL_DIR"), dir));
        assert(text::pair_views(env@) =~= shell_env(*self, openssl_dir));
        Launch { args, env, cwd: None }
    }

    /// How the default agent is started. The model is an argument: in the script its brackets would be a
    /// pattern. The agents that it starts itself are pinned to it too.
    pub fn claude_command(&self, run: &ClaudeRun, openssl_dir: Option<&str>) -> (r: Launch)
        ensures
            text::views(r.args@) == shell_args(self.script@) + seq![
                run.prompt@,
                run.log@,
                run.settings@,
                self.agents_json@,
                run.model@,
            ],
            text::pair_views(r.env@) == shell_env(*self, openssl_dir) + seq![
                ("TMPDIR"@, run.agent_tmp@),
                ("CLAUDE_CODE_TMPDIR"@, run.agent_tmp@),
                ("CLAUDE_CODE_SUBAGENT_MODEL"@, run.model@),
            ],
            r.cwd matches Some(d) && d@ == run.cwd@,
    {
        let mut l = self.shell(openssl_dir);
        let ghost args = text::views(l.args@);
        let ghost env = text::pair_views(l.env@);
        l.args.push(text::copy(run.prompt));
        l.args.push(text::copy(run.log));
        l.args.push(text::copy(run.settings));
        l.args.push(text::copy(self.agents_json));
        l.args.push(text::copy(run.model.as_str()));
        l.env.push((text::copy("TMPDIR"), text::copy(run.agent_tmp)));
        l.env.push((text::copy("CLAUDE_CODE_TMPDIR"), text::copy(run.agent_tmp)));
        l.env.push((text::copy("CLAUDE_CODE_SUBAGENT_MODEL"), text::copy(run.model.as_str())));
        l.cwd = Some(text::copy(run.cwd));
        assert(text::views(l.args@) =~= args + seq![
            run.prompt@,
            run.log@,
            run.settings@,
            self.agents_json@,
            run.model@,
        ]);
        assert(text::pair_views(l.env@) =~= env + seq![
            ("TMPDIR"@, run.agent_tmp@),
            ("CLAUDE_CODE_TMPDIR"@, run.agent_tmp@),
            ("CLAUDE_CODE_SUBAGENT_MODEL"@, run.model@),
        ]);
        l
    }

    /// How Codex is started. Its fourth argument is not used: it holds the place of the
    /// default agent's definition.
    pub fn codex_command(
        &self,
        cwd: &str,
        prompt: &str,
        log: &str,
        model: &str,
        region: &str,
        openssl_dir: Option<&str>,
    ) -> (r: Launch)
        ensures
            text::views(r.args@) == shell_args(self.script@) + seq![
                prompt@,
                log@,
                cwd@,
                "__unused__"@,
                model@,
                region@,
            ],
            text::pair_views(r.env@) == shell_env(*self, openssl_dir),
            r.cwd is None,
    {
        let mut l = self.shell(openssl_dir);
        let ghost args = text::views(l.args@);
        l.args.push(text::copy(prompt));
        l.args.push(text::copy(log));
        l.args.push(text::copy(cwd));
        l.args.push(text::copy("__unused__"));
        l.args.push(text::copy(model));
        l.args.push(text::copy(region));
        assert(text::views(l.args@) =~= args + seq![
            prompt@,
            log@,
            cwd@,
            "__unused__"@,
            model@,
            region@,
        ]);
        l
    }

    /// How Kiro is started.
    pub fn kiro_command(
        &self,
        cwd: &str,
        prompt: &str,
        log: &str,
        model: &ModelId,
        openssl_dir: Option<&str>,
    ) -> (r: Launch)
        ensures
            text::views(r.args@) == shell_args(self.script@) + seq![prompt@, log@, model@],
            text::pair_views(r.env@) == shell_env(*self, openssl_dir),
            r.cwd matches Some(d) && d@ == cwd@,
    {
        let mut l = self.shell(openssl_dir);
        let ghost args = text::views(l.args@);
        l.args.push(text::copy(prompt));
        l.args.push(text::copy(log));
        l.args.push(text::copy(model.as_str()));
        l.cwd = Some(text::copy(cwd));
        assert(text::views(l.args@) =~= args + seq![prompt@, log@, model@]);
        l
    }

    /// How OpenCode is started.
    pub fn opencode_command(&self, run: &OpencodeRun, openssl_dir: Option<&str>) -> (r: Launch)
        ensures
            text::views(r.args@) == shell_args(self.script@) + seq![
                run.model_arg@,
                run.prompt@,
                run.log@,
            ],
            text::pair_views(r.env@) == shell_env(*self, openssl_dir).push(
                ("XDG_CONFIG_HOME"@, run.xdg_config_home@),
            ),
            r.cwd matches Some(d) && d@ == run.cwd@,
    {
        let mut l = self.shell(openssl_dir);
        let ghost args = text::views(l.args@);
        let ghost env = text::pair_views(l.env@);
        l.args.push(text::copy(run.model_arg));
        l.args.push(text::copy(run.prompt));
        l.args.push(text::copy(run.log));
        l.env.push((text::copy("XDG_CONFIG_HOME"), text::copy(run.xdg_config_home)));
        l.cwd = Some(text::copy(run.cwd));
        assert(text::views(l.args@) =~= args + seq![run.model_arg@, run.prompt@, run.log@]);
        assert(text::pair_views(l.env@) =~= env.push(
            ("XDG_CONFIG_HOME"@, run.xdg_config_home@),
        ));
        l
    }
}

// ---------------------------------------------------------------------------
// Laws
// ---------------------------------------------------------------------------

/// The order in which the settings of a session are given does not change its shape.
pub proof fn law_the_shape_forgets_the_order_of_the_settings(a: Session, b: Session)
    requires
        shape_head(a) == shape_head(b),
        a.script@ == b.script@,
        text::pair_views(a.agent_env@).to_multiset() == text::pair_views(b.agent_env@).to_multiset(),
    ensures
        shape_of(a) == shape_of(b),
{
    text::lemma_pairs_in_order_forget_order(
        text::pair_views(a.agent_env@),
        text::pair_views(b.agent_env@),
    );
}

/// Another script is another shape, where the rest is one: no flag can change behind the key's back.
pub proof fn law_the_shape_covers_the_script(a: Session, b: Session)
    requires
        shape_head(a) == shape_head(b),
        text::pair_views(a.agent_env@) == text::pair_views(b.agent_env@),
        shape_of(a) == shape_of(b),
    ensures
        a.script@ == b.script@,
{
    let head = shape_head(a) + env_words(text::pairs_in_order(text::pair_views(a.agent_env@)))
        + " script="@;
    assert(a.script@ =~= shape_of(a).subrange(head.len() as int, shape_of(a).len() as int));
    assert(b.script@ =~= shape_of(b).subrange(head.len() as int, shape_of(b).len() as int));
}

/// The text has no `_` at its front, nor behind an `x` or an `n`.
spec fn unmarked(s: Seq<char>) -> bool {
    forall|i: int|
        0 <= i < s.len() && #[trigger] s[i] == '_' ==> i > 0 && s[i - 1] != 'x' && s[i - 1] != 'n'
}

/// The first characters of a text have no `_` at the front, nor behind an `x` or an `n`.
spec fn unmarked_to(s: Seq<char>, n: nat) -> bool
    decreases n,
{
    if n == 0 {
        true
    } else {
        let i = n - 1;
        (s[i] == '_' ==> i > 0 && s[i - 1] != 'x' && s[i - 1] != 'n') && unmarked_to(s, i as nat)
    }
}

proof fn lemma_unmarked_to(s: Seq<char>, n: nat)
    requires
        unmarked_to(s, n),
        n <= s.len(),
    ensures
        forall|i: int|
            0 <= i < n && #[trigger] s[i] == '_' ==> i > 0 && s[i - 1] != 'x' && s[i - 1] != 'n',
    decreases n,
{
    if n > 0 {
        lemma_unmarked_to(s, (n - 1) as nat);
    }
}

broadcast proof fn lemma_unmarked_join(s: Seq<char>, t: Seq<char>)
    requires
        unmarked(s),
        unmarked(t),
    ensures
        #[trigger] unmarked(s + t),
{
    let w = s + t;
    assert forall|i: int| 0 <= i < w.len() && #[trigger] w[i] == '_' implies i > 0 && w[i - 1] != 'x'
        && w[i - 1] != 'n' by {
        if i < s.len() {
            assert(s[i] == '_');
        } else {
            assert(t[i - s.len()] == '_');
        }
    }
}

broadcast proof fn lemma_unmarked_numeral(n: nat)
    ensures
        #[trigger] unmarked(text::numeral(n)),
{
    text::lemma_numeral_value(n);
    let s = text::numeral(n);
    assert forall|i: int| 0 <= i < s.len() && #[trigger] s[i] == '_' implies i > 0 && s[i - 1] != 'x'
        && s[i - 1] != 'n' by {
        assert(text::is_digit(s[i]));
    }
}

/// Neither word stands in a text without marks.
proof fn lemma_unmarked_is_silent(s: Seq<char>)
    requires
        unmarked(s),
    ensures
        !text::found(s, "max_turns="@),
        !text::found(s, "permission_mode="@),
{
    reveal_strlit("max_turns=");
    reveal_strlit("permission_mode=");
    if text::found(s, "max_turns="@) {
        let i = choose|i: int| text::occurs_at(s, "max_turns="@, i);
        assert(s.subrange(i, i + 10)[3] == "max_turns="@[3]);
        assert(s.subrange(i, i + 10)[2] == "max_turns="@[2]);
    }
    if text::found(s, "permission_mode="@) {
        let i = choose|i: int| text::occurs_at(s, "permission_mode="@, i);
        assert(s.subrange(i, i + 16)[10] == "permission_mode="@[10]);
        assert(s.subrange(i, i + 16)[9] == "permission_mode="@[9]);
    }
}

proof fn lemma_shape_unmarked_parts()
    ensures
        unmarked("program="@),
        unmarked(" timeout="@),
        unmarked(" fsize_blocks="@),
        unmarked(" data_kb="@),
        unmarked(" agents="@),
        unmarked(" script="@),
        unmarked("ulimit -f "@),
        unmarked(" -d "@),
        unmarked("; "@),
        unmarked("set -o pipefail"@),
        unmarked("timeout "@),
        unmarked(" "@),
        unmarked(""@),
{
    reveal_with_fuel(unmarked_to, 110);
    reveal_strlit("program=");
    lemma_unmarked_to("program="@, 8);
    reveal_strlit(" timeout=");
    lemma_unmarked_to(" timeout="@, 9);
    reveal_strlit(" fsize_blocks=");
    lemma_unmarked_to(" fsize_blocks="@, 14);
    reveal_strlit(" data_kb=");
    lemma_unmarked_to(" data_kb="@, 9);
    reveal_strlit(" agents=");
    lemma_unmarked_to(" agents="@, 8);
    reveal_strlit(" script=");
    lemma_unmarked_to(" script="@, 8);
    reveal_strlit("ulimit -f ");
    lemma_unmarked_to("ulimit -f "@, 10);
    reveal_strlit(" -d ");
    lemma_unmarked_to(" -d "@, 4);
    reveal_strlit("; ");
    lemma_unmarked_to("; "@, 2);
    reveal_strlit("set -o pipefail");
    lemma_unmarked_to("set -o pipefail"@, 15);
    reveal_strlit("timeout ");
    lemma_unmarked_to("timeout "@, 8);
    reveal_strlit(" ");
    lemma_unmarked_to(" "@, 1);
    reveal_strlit("");
    lemma_unmarked_to(""@, 0);
}

proof fn lemma_codex_unmarked()
    ensures
        unmarked("codex"@),
        unmarked(" exec --skip-git-repo-check --dangerously-bypass-approvals-and-sandbox -C \"$3\" "@),
        unmarked("-c model=\"$"@),
        unmarked("5\" -c model_providers.amazon-bedrock.aws.region=\"$6\" --json \"$1\" < /dev/null 2>&1 | tee \"$2\""@),
{
    reveal_with_fuel(unmarked_to, 110);
    reveal_strlit("codex");
    lemma_unmarked_to("codex"@, 5);
    reveal_strlit(" exec --skip-git-repo-check --dangerously-bypass-approvals-and-sandbox -C \"$3\" ");
    lemma_unmarked_to(" exec --skip-git-repo-check --dangerously-bypass-approvals-and-sandbox -C \"$3\" "@, 79);
    reveal_strlit("-c model=\"$");
    lemma_unmarked_to("-c model=\"$"@, 11);
    reveal_strlit("5\" -c model_providers.amazon-bedrock.aws.region=\"$6\" --json \"$1\" < /dev/null 2>&1 | tee \"$2\"");
    lemma_unmarked_to("5\" -c model_providers.amazon-bedrock.aws.region=\"$6\" --json \"$1\" < /dev/null 2>&1 | tee \"$2\""@, 92);
}

proof fn lemma_kiro_unmarked()
    ensures
        unmarked("kiro-cli"@),
        unmarked(" chat --no-interactive --trust-all-tools --agent kiro_plain "@),
        unmarked("--model \"$"@),
        unmarked("3\" \"$1\" < /dev/null 2>&1 | tee \"$2\""@),
{
    reveal_with_fuel(unmarked_to, 110);
    reveal_strlit("kiro-cli");
    lemma_unmarked_to("kiro-cli"@, 8);
    reveal_strlit(" chat --no-interactive --trust-all-tools --agent kiro_plain ");
    lemma_unmarked_to(" chat --no-interactive --trust-all-tools --agent kiro_plain "@, 60);
    reveal_strlit("--model \"$");
    lemma_unmarked_to("--model \"$"@, 10);
    reveal_strlit("3\" \"$1\" < /dev/null 2>&1 | tee \"$2\"");
    lemma_unmarked_to("3\" \"$1\" < /dev/null 2>&1 | tee \"$2\""@, 35);
}

proof fn lemma_opencode_unmarked()
    ensures
        unmarked("opencode"@),
        unmarked(" run --format json --thinking --dangerously-skip-permissions --agent "@),
        unmarked("harvest-translate"@),
        unmarked("harvest-verify"@),
        unmarked("--model \"$"@),
        unmarked("1\" \"$2\" < /dev/null 2>&1 | tee \"$3\""@),
{
    reveal_with_fuel(unmarked_to, 110);
    reveal_strlit("opencode");
    lemma_unmarked_to("opencode"@, 8);
    reveal_strlit(" run --format json --thinking --dangerously-skip-permissions --agent ");
    lemma_unmarked_to(" run --format json --thinking --dangerously-skip-permissions --agent "@, 69);
    reveal_strlit("harvest-translate");
    lemma_unmarked_to("harvest-translate"@, 17);
    reveal_strlit("harvest-verify");
    lemma_unmarked_to("harvest-verify"@, 14);
    reveal_strlit("--model \"$");
    lemma_unmarked_to("--model \"$"@, 10);
    reveal_strlit("1\" \"$2\" < /dev/null 2>&1 | tee \"$3\"");
    lemma_unmarked_to("1\" \"$2\" < /dev/null 2>&1 | tee \"$3\""@, 35);
}

/// A session without a limit of turns and without permissions, of an unmarked program and script, has
/// an unmarked shape.
proof fn lemma_shape_unmarked(s: Session)
    requires
        s.max_turns is None,
        s.permission_mode is None,
        s.agents_json@ == ""@,
        s.agent_env@.len() == 0,
        unmarked(s.program@),
        unmarked(s.script@),
    ensures
        unmarked(shape_of(s)),
{
    broadcast use {lemma_unmarked_join, lemma_unmarked_numeral};

    lemma_shape_unmarked_parts();
    let none = text::pair_views(s.agent_env@);
    text::lemma_pair_order_total();
    none.lemma_sort_by_ensures(text::pair_order());
    none.to_multiset_ensures();
    text::pairs_in_order(none).to_multiset_ensures();
    assert(text::pairs_in_order(none).len() == 0);
    assert(unmarked(Seq::<char>::empty()));
    assert(unmarked(shape_head(s)));
    assert(unmarked(env_words(text::pairs_in_order(none))));
}

/// The session is one of the default agent.
pub open spec fn is_claude(s: Session, secs: u64) -> bool {
    &&& s.program@ == program::program()
    &&& s.timeout_secs == secs
    &&& s.max_turns == Some(CLAUDE_MAX_TURNS)
    &&& s.permission_mode == Some(CLAUDE_PERMISSION_MODE)
    &&& s.caps == Caps::same_for_all()
    &&& s.agents_json@ == CLAUDE_PLAIN_AGENT_JSON@
    &&& text::pair_views(s.agent_env@) == agent_settings()
    &&& s.script@ == claude_script(secs)
}

/// The session is a bare one of this program and script.
pub open spec fn is_bare(s: Session, name: Seq<char>, secs: u64, script: Seq<char>) -> bool {
    &&& s.program@ == name
    &&& s.timeout_secs == secs
    &&& s.max_turns is None
    &&& s.permission_mode is None
    &&& s.caps == Caps::same_for_all()
    &&& s.agents_json@ == ""@
    &&& s.agent_env@.len() == 0
    &&& s.script@ == script
}

/// No two backends have one shape, whatever their timeouts, and the shape of the default agent alone
/// speaks of a limit of turns and of permissions.
pub proof fn law_each_backend_has_its_own_shape(
    claude: Session,
    codex: Session,
    kiro: Session,
    opencode: Session,
    phase: opencode::Phase,
    secs: (u64, u64, u64, u64),
)
    requires
        is_claude(claude, secs.0),
        is_bare(codex, "codex"@, secs.1, codex_script(secs.1)),
        is_bare(kiro, "kiro-cli"@, secs.2, kiro_script(secs.2)),
        is_bare(opencode, "opencode"@, secs.3, opencode_script(phase, secs.3)),
    ensures
        shape_of(claude) != shape_of(codex),
        shape_of(claude) != shape_of(kiro),
        shape_of(claude) != shape_of(opencode),
        shape_of(codex) != shape_of(kiro),
        shape_of(codex) != shape_of(opencode),
        shape_of(kiro) != shape_of(opencode),
        text::found(shape_of(claude), "max_turns="@),
        text::found(shape_of(claude), "permission_mode="@),
        !text::found(shape_of(codex), "max_turns="@),
        !text::found(shape_of(codex), "permission_mode="@),
        !text::found(shape_of(kiro), "max_turns="@),
        !text::found(shape_of(kiro), "permission_mode="@),
        !text::found(shape_of(opencode), "max_turns="@),
        !text::found(shape_of(opencode), "permission_mode="@),
{
    assert(unmarked(codex.script@) && unmarked(codex.program@)) by {
        broadcast use {lemma_unmarked_join, lemma_unmarked_numeral};

        lemma_shape_unmarked_parts();
        lemma_codex_unmarked();
    }
    assert(unmarked(kiro.script@) && unmarked(kiro.program@)) by {
        broadcast use {lemma_unmarked_join, lemma_unmarked_numeral};

        lemma_shape_unmarked_parts();
        lemma_kiro_unmarked();
    }
    assert(unmarked(opencode.script@) && unmarked(opencode.program@)) by {
        broadcast use {lemma_unmarked_join, lemma_unmarked_numeral};

        lemma_shape_unmarked_parts();
        lemma_opencode_unmarked();
    }
    lemma_shape_unmarked(codex);
    lemma_shape_unmarked(kiro);
    lemma_shape_unmarked(opencode);
    lemma_unmarked_is_silent(shape_of(codex));
    lemma_unmarked_is_silent(shape_of(kiro));
    lemma_unmarked_is_silent(shape_of(opencode));
    program::lemma_program();
    reveal_strlit("claude_plain");
    reveal_strlit("codex");
    reveal_strlit("kiro-cli");
    reveal_strlit("opencode");
    assert(program::program()[0] == program::PLAIN_AGENT@[0]);
    assert(program::program()[1] == program::PLAIN_AGENT@[1]);
    lemma_shape_names_the_program(claude);
    lemma_shape_names_the_program(codex);
    lemma_shape_names_the_program(kiro);
    lemma_shape_names_the_program(opencode);
    lemma_shape_speaks_of_limits(claude);
}

proof fn lemma_shape_names_the_program(s: Session)
    requires
        s.program@.len() >= 2,
    ensures
        shape_of(s).len() > 9,
        shape_of(s)[8] == s.program@[0],
        shape_of(s)[9] == s.program@[1],
{
    reveal_strlit("program=");
    let rest = shape_of(s).subrange(8 + s.program@.len() as int, shape_of(s).len() as int);
    assert(shape_of(s) =~= "program="@ + s.program@ + rest);
}

proof fn lemma_shape_speaks_of_limits(s: Session)
    requires
        s.max_turns is Some,
        s.permission_mode is Some,
    ensures
        text::found(shape_of(s), "max_turns="@),
        text::found(shape_of(s), "permission_mode="@),
{
    reveal_strlit(" max_turns=");
    reveal_strlit("max_turns=");
    reveal_strlit(" permission_mode=");
    reveal_strlit("permission_mode=");
    reveal_strlit(" ");
    assert(" max_turns="@ =~= " "@ + "max_turns="@);
    assert(" permission_mode="@ =~= " "@ + "permission_mode="@);
    let w = shape_of(s);
    let a = "program="@ + s.program@ + " timeout="@ + text::numeral(s.timeout_secs as nat);
    let one = a + " "@;
    let after = w.subrange(one.len() + "max_turns="@.len() as int, w.len() as int);
    assert(w =~= one + "max_turns="@ + after);
    text::lemma_found_inside(one, "max_turns="@, after);
    let two = a + " max_turns="@ + text::numeral(s.max_turns->0 as nat) + " "@;
    let rest = w.subrange(two.len() + "permission_mode="@.len() as int, w.len() as int);
    assert(w =~= two + "permission_mode="@ + rest);
    text::lemma_found_inside(two, "permission_mode="@, rest);
}

/// Every backend runs under the same caps and under a timeout of its own, and shows how it ended: so
/// each script begins, before anything of the backend is said.
pub proof fn law_every_script_is_capped_and_timed(phase: opencode::Phase, secs: u64)
    ensures
        ({
            let caps = "ulimit -f "@ + text::numeral(4194304) + " -d "@ + text::numeral(6291456);
            let start = caps + "; "@ + "set -o pipefail"@ + "; "@ + ("timeout "@ + text::numeral(
                secs as nat,
            ) + " "@);
            &&& text::begins(claude_script(secs), start + program::program())
            &&& text::begins(codex_script(secs), start + "codex"@)
            &&& text::begins(kiro_script(secs), start + "kiro-cli"@)
            &&& text::begins(opencode_script(phase, secs), start + "opencode"@)
        }),
{
    let caps = "ulimit -f "@ + text::numeral(4194304) + " -d "@ + text::numeral(6291456);
    let start = caps + "; "@ + "set -o pipefail"@ + "; "@ + ("timeout "@ + text::numeral(
        secs as nat,
    ) + " "@);
    let a = opening(Caps::same_for_all(), secs, program::program());
    assert(claude_script(secs).subrange(0, a.len() as int) =~= a);
    lemma_starts(secs, program::program(), claude_script(secs), start);
    let b = opening(Caps::same_for_all(), secs, "codex"@);
    assert(codex_script(secs).subrange(0, b.len() as int) =~= b);
    lemma_starts(secs, "codex"@, codex_script(secs), start);
    let c = opening(Caps::same_for_all(), secs, "kiro-cli"@);
    assert(kiro_script(secs).subrange(0, c.len() as int) =~= c);
    lemma_starts(secs, "kiro-cli"@, kiro_script(secs), start);
    let d = opening(Caps::same_for_all(), secs, "opencode"@);
    assert(opencode_script(phase, secs).subrange(0, d.len() as int) =~= d);
    lemma_starts(secs, "opencode"@, opencode_script(phase, secs), start);
}

proof fn lemma_starts(secs: u64, name: Seq<char>, script: Seq<char>, start: Seq<char>)
    requires
        start == "ulimit -f "@ + text::numeral(4194304) + " -d "@ + text::numeral(6291456) + "; "@
            + "set -o pipefail"@ + "; "@ + ("timeout "@ + text::numeral(secs as nat) + " "@),
        text::begins(script, opening(Caps::same_for_all(), secs, name)),
    ensures
        text::begins(script, start + name),
{
    assert(opening(Caps::same_for_all(), secs, name) =~= start + name);
}

/// What a script must hold: its timeout, its turns and its mode where it has them, and its caps. It
/// declares itself only where all of them stand in it, and the first that does not is named.
pub proof fn law_a_script_that_lacks_a_word_is_found_out(s: Session, h: Seq<char>, w: Seq<char>)
    ensures
        wanted(s).contains("timeout "@ + text::numeral(s.timeout_secs as nat) + " "@ + s.program@),
        wanted(s).contains(
            "ulimit -f "@ + text::numeral(s.caps.fsize_blocks as nat) + " -d "@ + text::numeral(
                s.caps.data_kb as nat,
            ),
        ),
        s.max_turns matches Some(n) ==> wanted(s).contains(
            "--max-turns "@ + text::numeral(n as nat),
        ),
        s.permission_mode matches Some(m) ==> wanted(s).contains("--permission-mode "@ + m@),
        declares(s) <==> first_missing(s.script@, wanted(s)) is None,
        first_missing(s.script@, wanted(s)) matches Some(m) ==> wanted(s).contains(m)
            && !text::found(s.script@, m),
{
    let a = wanted(s);
    assert(a[0] == timeout_words(s.timeout_secs, s.program@));
    assert(a[a.len() - 1] == cap_words(s.caps));
    if let Some(n) = s.max_turns {
        assert(a[1] == turn_words(n));
    }
    if let Some(m) = s.permission_mode {
        assert(a[a.len() - 2] == mode_words(m@));
    }
    lemma_missing(s.script@, a);
}

proof fn lemma_missing(h: Seq<char>, want: Seq<Seq<char>>)
    ensures
        first_missing(h, want) is None <==> forall|i: int|
            0 <= i < want.len() ==> text::found(h, #[trigger] want[i]),
        first_missing(h, want) matches Some(m) ==> want.contains(m) && !text::found(h, m),
    decreases want.len(),
{
    if want.len() > 0 {
        let d = want.drop_last();
        lemma_missing(h, d);
        assert(want[want.len() - 1] == want.last());
        if let Some(m) = first_missing(h, d) {
            let k = choose|k: int| 0 <= k < d.len() && d[k] == m;
            assert(want[k] == m);
        } else if text::found(h, want.last()) {
            assert forall|i: int| 0 <= i < want.len() implies text::found(
                h,
                #[trigger] want[i],
            ) by {
                if i < d.len() {
                    assert(d[i] == want[i]);
                }
            }
        }
    }
}

/// A model is pinned where the script hands one over, by the word of either kind of backend; how the
/// run ended is seen only where the pipe does not hide it.
pub proof fn law_a_script_pins_its_model(script: Seq<char>)
    ensures
        pins_model(script) <==> text::found(script, "--model \"$"@) || text::found(
            script,
            "-c model=\"$"@,
        ),
        shows_status(script) <==> text::found(script, "set -o pipefail"@),
{
}

/// The shape tells everything that a run is under: the program, the timeout, the turns, the mode, the
/// caps and the agents.
pub proof fn law_the_shape_tells_what_a_run_is_under(s: Session)
    ensures
        s.max_turns matches Some(n) ==> (s.permission_mode matches Some(m) ==> shape_head(s)
            == "program="@ + s.program@ + " timeout="@ + text::numeral(s.timeout_secs as nat)
            + " max_turns="@ + text::numeral(n as nat) + " permission_mode="@ + m@
            + " fsize_blocks="@ + text::numeral(s.caps.fsize_blocks as nat) + " data_kb="@
            + text::numeral(s.caps.data_kb as nat) + " agents="@ + s.agents_json@),
        s.max_turns is None && s.permission_mode is None ==> shape_head(s) == "program="@
            + s.program@ + " timeout="@ + text::numeral(s.timeout_secs as nat)
            + " fsize_blocks="@ + text::numeral(s.caps.fsize_blocks as nat) + " data_kb="@
            + text::numeral(s.caps.data_kb as nat) + " agents="@ + s.agents_json@,
        text::begins(shape_of(s), shape_head(s)),
        text::ends(shape_of(s), " script="@ + s.script@),
{
    let a = "program="@ + s.program@ + " timeout="@ + text::numeral(s.timeout_secs as nat);
    if s.max_turns is Some && s.permission_mode is Some {
        let n = s.max_turns->0;
        let m = s.permission_mode->0;
        let t = text::numeral(n as nat);
        assert(a + (" max_turns="@ + t) =~= a + " max_turns="@ + t);
        let b = a + " max_turns="@ + t;
        assert(b + (" permission_mode="@ + m@) =~= b + " permission_mode="@ + m@);
    }
    if s.max_turns is None && s.permission_mode is None {
        assert(a + Seq::<char>::empty() =~= a);
    }
    let e = env_words(text::pairs_in_order(text::pair_views(s.agent_env@)));
    let w = shape_of(s);
    let h = shape_head(s);
    assert(w.subrange(0, h.len() as int) =~= h);
    let last = " script="@ + s.script@;
    assert(w =~= h + e + last);
    assert(w.subrange(w.len() - last.len(), w.len() as int) =~= last);
}

/// Each setting is told by its name and its value.
pub proof fn law_each_setting_is_told(
    pairs: Seq<(Seq<char>, Seq<char>)>,
    name: Seq<char>,
    value: Seq<char>,
)
    ensures
        env_words(pairs.push((name, value))) == env_words(pairs) + " env:"@ + name + "="@ + value,
        env_words(Seq::empty()).len() == 0,
{
    assert(pairs.push((name, value)).drop_last() =~= pairs);
}

/// The shell is handed the script behind `-c`, and what follows is the script's own.
pub proof fn law_a_shell_is_handed_the_script(s: Session, script: Seq<char>)
    ensures
        shell_args(script).len() == 3,
        shell_args(script)[0] == "-c"@,
        shell_args(script)[1] == script,
        shell_args(script)[2] == "--"@,
        shell_env(s, None)[0] == ("OPENSSL_DIR"@, "/usr"@),
        forall|d: &str| (#[trigger] shell_env(s, Some(d)))[0] == ("OPENSSL_DIR"@, d@),
        forall|d: Option<&str>, i: int|
            0 <= i < s.agent_env@.len() ==> (#[trigger] shell_env(s, d)[i + 1]) == text::pair_views(
                s.agent_env@,
            )[i],
        agent_settings().contains(("API_TIMEOUT_MS"@, "1200000"@)),
        agent_settings().contains(("API_FORCE_IDLE_TIMEOUT"@, "0"@)),
        agent_settings().contains(("CLAUDE_CODE_MAX_RETRIES"@, "20"@)),
        agent_settings().contains(("CLAUDE_CODE_RETRY_WATCHDOG"@, "1"@)),
        agent_settings().len() == 4,
{
    let a = agent_settings();
    assert(a[0] == ("API_TIMEOUT_MS"@, "1200000"@));
    assert(a[1] == ("API_FORCE_IDLE_TIMEOUT"@, "0"@));
    assert(a[2] == ("CLAUDE_CODE_MAX_RETRIES"@, "20"@));
    assert(a[3] == ("CLAUDE_CODE_RETRY_WATCHDOG"@, "1"@));
}

/// The turns and the mode stand in the script where there are some, the turns first.
pub proof fn law_turns_and_mode_are_handed_over(n: u32, mode: &'static str)
    ensures
        flags(Some(n), Some(mode)) == " "@ + ("--max-turns "@ + text::numeral(n as nat)) + (" "@ + (
        "--permission-mode "@ + mode@)),
        flags(None, None).len() == 0,
        CLAUDE_MAX_TURNS == 1000,
        CLAUDE_PERMISSION_MODE@ == "bypassPermissions"@,
{
}

} // verus!
