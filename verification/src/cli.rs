//! What an operator can ask for.

use crate::store::Mode;
use crate::program;
use crate::text;
use vstd::prelude::*;
use vstd::string::*;

verus! {

/// Which program runs an invocation.
#[derive(Copy, Clone, PartialEq, Eq, Debug, Structural)]
pub enum Tool {
    Claude,
    Codex,
    Kiro,
    OpenCode,
    Oneshot,
    Kimi,
    C2rust,
    Laertes,
    C2SaferRust,
    SmartC2Rust,
}

/// Which prompt an invocation is handed, where a tool has more than one.
#[derive(Copy, Clone, PartialEq, Eq, Debug, Structural)]
pub enum Variant {
    Default,
    /// Translate and verify in one session.
    Combined,
    /// One minimal prompt for every shape.
    Minimal,
    /// Without the iteration loop.
    NoIter,
    /// Without the guidance from cmake features to cargo features.
    NoFeatures,
    /// Without the guidance to decompose into subtasks.
    NoSubtask,
    /// A library gets the executable prompt, and the other way round.
    CrossPrompt,
    /// Every exported symbol must be Rust.
    NoShim,
}

impl Default for Variant {
    fn default() -> (r: Variant)
        ensures
            r == Variant::Default,
    {
        Variant::Default
    }
}

/// The directory of a prompt variant.
pub open spec fn variant_name(v: Variant) -> Seq<char> {
    match v {
        Variant::Default => "default"@,
        Variant::Combined => "combined"@,
        Variant::Minimal => "minimal"@,
        Variant::NoIter => "no-iter"@,
        Variant::NoFeatures => "no-features"@,
        Variant::NoSubtask => "no-subtask"@,
        Variant::CrossPrompt => "cross-prompt"@,
        Variant::NoShim => "no-shim"@,
    }
}

impl Variant {
    /// The directory level of the results. `default` is spelled out, so that the level is always
    /// there.
    pub fn dir(self) -> (r: &'static str)
        ensures
            r@ == variant_name(self),
    {
        match self {
            Variant::Default => "default",
            Variant::Combined => "combined",
            Variant::Minimal => "minimal",
            Variant::NoIter => "no-iter",
            Variant::NoFeatures => "no-features",
            Variant::NoSubtask => "no-subtask",
            Variant::CrossPrompt => "cross-prompt",
            Variant::NoShim => "no-shim",
        }
    }
}

/// The directory of a tool, which is also how it is spelled on the command line.
pub open spec fn tool_name(t: Tool) -> Seq<char> {
    match t {
        Tool::Claude => program::program(),
        Tool::Codex => "codex"@,
        Tool::Kiro => "kiro"@,
        Tool::OpenCode => "opencode"@,
        Tool::Oneshot => "oneshot"@,
        Tool::Kimi => "kimi"@,
        Tool::C2rust => "c2rust"@,
        Tool::Laertes => "laertes"@,
        Tool::C2SaferRust => "c2saferrust"@,
        Tool::SmartC2Rust => "smartc2rust"@,
    }
}

/// The directory level above the model.
pub fn tool_dir(tool: Tool) -> (r: String)
    ensures
        r@ == tool_name(tool),
{
    match tool {
        Tool::Claude => program::program_name(),
        Tool::Codex => text::copy("codex"),
        Tool::Kiro => text::copy("kiro"),
        Tool::OpenCode => text::copy("opencode"),
        Tool::Oneshot => text::copy("oneshot"),
        Tool::Kimi => text::copy("kimi"),
        Tool::C2rust => text::copy("c2rust"),
        Tool::Laertes => text::copy("laertes"),
        Tool::C2SaferRust => text::copy("c2saferrust"),
        Tool::SmartC2Rust => text::copy("smartc2rust"),
    }
}

/// The tools that run an agentic loop.
pub open spec fn agentic(t: Tool) -> bool {
    t == Tool::Claude || t == Tool::Codex || t == Tool::Kiro || t == Tool::OpenCode
}

/// Whether this tool runs an agentic loop, and so whether the store may name its runs.
pub fn is_agentic(tool: Tool) -> (r: bool)
    ensures
        r == agentic(tool),
{
    matches!(tool, Tool::Claude | Tool::Codex | Tool::Kiro | Tool::OpenCode)
}

/// Which benchmark to run.
#[derive(Debug, Clone, Copy, PartialEq, Eq, Structural)]
pub enum Dataset {
    /// The test corpus.
    TestCorpus,
    /// C libraries scored by their upstream suites. Targets are `HB/<project>`, or `HB` for all.
    HarvestBench,
}

/// The target names the harvest bench: `hb` in any case of letters, or a project behind `HB/`.
pub open spec fn names_harvest_bench(target: Seq<char>) -> bool {
    text::lowered(target) == "hb"@ || text::begins(target, "HB/"@)
}

/// The target inside its dataset.
pub open spec fn inner_target(target: Seq<char>) -> Seq<char> {
    if text::begins(target, "HB/"@) {
        target.subrange("HB/"@.len() as int, target.len() as int)
    } else {
        target
    }
}

impl Dataset {
    /// The dataset that a target belongs to.
    pub fn detect(target: &str) -> (r: Dataset)
        ensures
            r == (if names_harvest_bench(target@) {
                Dataset::HarvestBench
            } else {
                Dataset::TestCorpus
            }),
    {
        let t = text::chars_of(target);
        if text::same(&text::to_lower(&t), &text::chars_of("hb")) || text::starts_with(
            &t,
            &text::chars_of("HB/"),
        ) {
            Dataset::HarvestBench
        } else {
            Dataset::TestCorpus
        }
    }

    /// The target without the `HB/` before it.
    pub fn strip_prefix(target: &str) -> (r: String)
        ensures
            r@ == inner_target(target@),
    {
        let t = text::chars_of(target);
        let p = text::chars_of("HB/");
        if text::starts_with(&t, &p) {
            text::string_of(&text::cut(&t, p.len(), t.len()))
        } else {
            text::copy(target)
        }
    }
}

/// What to show of the cache.
#[derive(Debug, Copy, Clone, PartialEq, Eq, Structural)]
pub enum CacheAction {
    /// Entry count and size on disk.
    Stats,
    /// Entries whose run did not complete.
    Failures,
}

/// What to do.
#[derive(Debug)]
pub enum Command {
    /// Run the chain: every step that the prompt variant declares, then score, then tables.
    Run { target: String, steps: Option<usize>, include_regex: Option<String> },
    /// Inspect the cache of agent invocations.
    Cache { action: CacheAction },
    /// Backfill the results with credits and counts of unsafe code.
    Enrich { target: String },
}

impl Command {
    /// Whether this command writes an artifact that a published number could rest on.
    pub fn produces_artifacts(&self) -> (r: bool)
        ensures
            r == !(self is Cache),
    {
        match self {
            Command::Run { .. } => true,
            Command::Enrich { .. } => true,
            Command::Cache { .. } => false,
        }
    }
}

/// What the operator typed.
#[derive(Debug)]
pub struct Cli {
    /// The programs that run the invocations, each with its own results tree and budget.
    pub tool: Vec<Tool>,
    pub variant: Variant,
    /// How many invocations may be in flight for each tool.
    pub parallel: usize,
    pub model: Option<String>,
    /// Replay stored results and refuse to invoke an agent.
    pub replay_only: bool,
    pub allow_dirty: bool,
    pub allow_unsandboxed: bool,
    pub keep_eval_tree: bool,
    pub allow_infra_failures: bool,
    pub command: Command,
}

impl Cli {
    /// What the store may do.
    pub fn cache_mode(&self) -> (r: Mode)
        ensures
            r == (if self.replay_only {
                Mode::ReplayOnly
            } else {
                Mode::ReadWrite
            }),
    {
        if self.replay_only {
            Mode::ReplayOnly
        } else {
            Mode::ReadWrite
        }
    }
}

// ---------------------------------------------------------------------------
// Laws
// ---------------------------------------------------------------------------

/// Stripping the prefix of a harvest-bench project gives the project back.
pub proof fn law_prefix_is_undone(project: Seq<char>)
    ensures
        inner_target("HB/"@ + project) == project,
        names_harvest_bench("HB/"@ + project),
{
    let t = "HB/"@ + project;
    assert(t.subrange(0, "HB/"@.len() as int) =~= "HB/"@);
    assert(t.subrange("HB/"@.len() as int, t.len() as int) =~= project);
}

/// A target is one of harvest-bench by its two letters alone, in any case, or behind them and a slash;
/// any other is one of the test corpus and is taken as it stands.
pub proof fn law_a_target_names_its_dataset(target: Seq<char>)
    ensures
        names_harvest_bench("HB"@),
        names_harvest_bench("hb"@),
        !names_harvest_bench("all"@),
        target.len() >= 3 && target.subrange(0, 3) == "HB/"@ ==> names_harvest_bench(target)
            && inner_target(target) == target.subrange(3, target.len() as int),
        target.len() < 3 || target.subrange(0, 3) != "HB/"@ ==> inner_target(target) == target && (
        names_harvest_bench(target) <==> text::lowered(target) == "hb"@),
{
    reveal_strlit("HB/");
    reveal_strlit("HB");
    reveal_strlit("hb");
    reveal_strlit("all");
    assert(text::lowered("HB"@) =~= "hb"@);
    assert(text::lowered("hb"@) =~= "hb"@);
    assert(text::lowered("all"@).len() == 3);
    assert("all"@.subrange(0, 3)[0] == 'a');
}

/// Each variant and each tool has a directory of its own name.
pub proof fn law_each_tool_and_variant_has_its_own_name()
    ensures
        variant_name(Variant::Default) == "default"@,
        variant_name(Variant::Combined) == "combined"@,
        variant_name(Variant::Minimal) == "minimal"@,
        variant_name(Variant::NoIter) == "no-iter"@,
        variant_name(Variant::NoFeatures) == "no-features"@,
        variant_name(Variant::NoSubtask) == "no-subtask"@,
        variant_name(Variant::CrossPrompt) == "cross-prompt"@,
        variant_name(Variant::NoShim) == "no-shim"@,
        tool_name(Tool::Claude) == program::program(),
        tool_name(Tool::Codex) == "codex"@,
        tool_name(Tool::Kiro) == "kiro"@,
        tool_name(Tool::OpenCode) == "opencode"@,
        tool_name(Tool::Oneshot) == "oneshot"@,
        tool_name(Tool::Kimi) == "kimi"@,
        tool_name(Tool::C2rust) == "c2rust"@,
        tool_name(Tool::Laertes) == "laertes"@,
        tool_name(Tool::C2SaferRust) == "c2saferrust"@,
        tool_name(Tool::SmartC2Rust) == "smartc2rust"@,
{
}

/// Only the four agents run a session of their own; the others answer once or translate by rule.
pub proof fn law_four_tools_are_agents(t: Tool)
    ensures
        agentic(t) <==> t == Tool::Claude || t == Tool::Codex || t == Tool::Kiro || t
            == Tool::OpenCode,
{
}

} // verus!
