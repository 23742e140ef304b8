//! The OpenCode backend: which model it asks for, the configuration of one run, and what its
//! registry says of a model.

use crate::agents::session::Launch;
use crate::json;
use crate::json::Json;
use crate::paths;
use crate::program;
use crate::text;
use vstd::prelude::*;
use vstd::string::*;

verus! {

// ---------------------------------------------------------------------------
// The model
// ---------------------------------------------------------------------------

/// A model and who provides it.
#[derive(Debug, Clone, PartialEq, Eq)]
pub struct Model {
    pub provider: String,
    pub model_id: String,
}

/// A model as it is asked for.
pub open spec fn model_arg(provider: Seq<char>, model_id: Seq<char>) -> Seq<char> {
    provider + "/"@ + model_id
}

impl Model {
    /// The model as it is asked for.
    pub fn as_arg(&self) -> (r: String)
        ensures
            r@ == model_arg(self.provider@, self.model_id@),
    {
        text::join3(self.provider.as_str(), "/", self.model_id.as_str())
    }

    /// The model as the registry knows it: without the routing hint behind a colon.
    pub fn metadata_id(&self) -> (r: String)
        ensures
            r@ == text::before_char(self.model_id@, ':'),
    {
        text::string_of(&text::cut_before(&text::chars_of(self.model_id.as_str()), ':'))
    }

    /// Whether Amazon Bedrock provides the model.
    pub fn is_bedrock(&self) -> (r: bool)
        ensures
            r == (self.provider@ == "amazon-bedrock"@),
    {
        text::same_text(self.provider.as_str(), "amazon-bedrock")
    }
}

/// The provider and the model that a text names, where it names both.
pub open spec fn model_in(s: Seq<char>) -> Option<(Seq<char>, Seq<char>)> {
    match text::first_place(s, '/') {
        Some(i) => if 0 < i && i < s.len() - 1 {
            Some((s.subrange(0, i), s.subrange(i + 1, s.len() as int)))
        } else {
            None
        },
        None => None,
    }
}

/// The refusal of a text that names no provider and model.
pub open spec fn model_refusal(s: Seq<char>) -> Seq<char> {
    "--agent opencode needs --model <provider>/<model-id>, got "@ + text::quoted_form(s)
        + ".\nExamples:\n  amazon-bedrock/us.anthropic."@ + program::program()
        + "-sonnet-5\n  amazon-bedrock/openai.gpt-5.5\n  openrouter/deepseek/deepseek-v4-pro"@
}

/// Reads a provider and a model. A model without a provider is refused here rather than deep inside
/// the run.
pub fn parse_model(s: &str) -> (r: Result<Model, String>)
    ensures
        match model_in(s@) {
            Some(m) => r matches Ok(x) && x.provider@ == m.0 && x.model_id@ == m.1,
            None => r matches Err(e) && e@ == model_refusal(s@),
        },
{
    let v = text::chars_of(s);
    if let Some(i) = text::find_char(&v, '/') {
        if i > 0 && i < v.len() - 1 {
            return Ok(
                Model {
                    provider: text::string_of(&text::cut(&v, 0, i)),
                    model_id: text::string_of(&text::cut(&v, i + 1, v.len())),
                },
            );
        }
    }
    let head = text::join3(
        "--agent opencode needs --model <provider>/<model-id>, got ",
        text::quoted(s).as_str(),
        ".\nExamples:\n  amazon-bedrock/us.anthropic.",
    );
    Err(
        text::join3(
            head.as_str(),
            program::program_name().as_str(),
            "-sonnet-5\n  amazon-bedrock/openai.gpt-5.5\n  openrouter/deepseek/deepseek-v4-pro",
        ),
    )
}

/// The last segment of a path.
pub open spec fn last_segment(s: Seq<char>) -> Seq<char> {
    match text::last_index(s, "/"@) {
        Some(i) => s.subrange(i + 1, s.len() as int),
        None => s,
    }
}

/// A text without a prefix, where it has it.
pub open spec fn without_prefix(s: Seq<char>, p: Seq<char>) -> Option<Seq<char>> {
    if text::begins(s, p) {
        Some(s.subrange(p.len() as int, s.len() as int))
    } else {
        None
    }
}

/// A model without the region that a request for it is sent to.
pub open spec fn without_region(id: Seq<char>) -> Seq<char> {
    match without_prefix(id, "us."@) {
        Some(s) => s,
        None => match without_prefix(id, "eu."@) {
            Some(s) => s,
            None => match without_prefix(id, "global."@) {
                Some(s) => s,
                None => match without_prefix(id, "au."@) {
                    Some(s) => s,
                    None => match without_prefix(id, "jp."@) {
                        Some(s) => s,
                        None => id,
                    },
                },
            },
        },
    }
}

/// The name of the directory for a model's results: neither the region nor the vendor is part of it.
pub open spec fn slug(model_id: Seq<char>) -> Seq<char> {
    "opencode-"@ + text::after_char(
        without_region(text::before_char(last_segment(model_id), ':')),
        '.',
    )
}

fn strip(v: &Vec<char>, prefix: &str) -> (r: Option<Vec<char>>)
    ensures
        r is Some <==> without_prefix(v@, prefix@) is Some,
        r matches Some(x) ==> without_prefix(v@, prefix@) == Some(x@),
{
    let p = text::chars_of(prefix);
    if text::starts_with(v, &p) {
        Some(text::cut(v, p.len(), v.len()))
    } else {
        None
    }
}

fn strip_region(v: Vec<char>) -> (r: Vec<char>)
    ensures
        r@ == without_region(v@),
{
    if let Some(x) = strip(&v, "us.") {
        return x;
    }
    if let Some(x) = strip(&v, "eu.") {
        return x;
    }
    if let Some(x) = strip(&v, "global.") {
        return x;
    }
    if let Some(x) = strip(&v, "au.") {
        return x;
    }
    if let Some(x) = strip(&v, "jp.") {
        return x;
    }
    v
}

/// The name of the directory for a model's results.
pub fn results_slug(m: &Model) -> (r: String)
    ensures
        r@ == slug(m.model_id@),
{
    let v = text::chars_of(m.model_id.as_str());
    let slash = text::chars_of("/");
    proof {
        reveal_strlit("/");
    }
    let end: usize = v.len();
    let last = match text::rfind(&v, &slash) {
        Some(i) => {
            assert(text::occurs_at(v@, "/"@, i as int));
            text::cut(&v, i + 1, end)
        },
        None => v,
    };
    let id = text::cut_before(&last, ':');
    let bare = text::cut_after(&strip_region(id), '.');
    text::join2("opencode-", text::string_of(&bare).as_str())
}

// ---------------------------------------------------------------------------
// The phase
// ---------------------------------------------------------------------------

/// What the agent is asked to do.
#[derive(Debug, Clone, Copy, PartialEq, Eq, Structural)]
pub enum Phase {
    Translate,
    Verify,
}

impl Phase {
    /// The name of the agent.
    pub open spec fn agent(self) -> Seq<char> {
        match self {
            Phase::Translate => "harvest-translate"@,
            Phase::Verify => "harvest-verify"@,
        }
    }

    /// What the agent is for.
    pub open spec fn purpose(self) -> Seq<char> {
        match self {
            Phase::Translate => "ACTOR agentic translation backend"@,
            Phase::Verify => "ACTOR agentic verification backend"@,
        }
    }

    /// The name of the agent.
    pub fn agent_name(self) -> (r: &'static str)
        ensures
            r@ == self.agent(),
    {
        match self {
            Phase::Translate => "harvest-translate",
            Phase::Verify => "harvest-verify",
        }
    }

    /// What the agent is for.
    pub fn description(self) -> (r: &'static str)
        ensures
            r@ == self.purpose(),
    {
        match self {
            Phase::Translate => "ACTOR agentic translation backend",
            Phase::Verify => "ACTOR agentic verification backend",
        }
    }

    /// How the agent recovers what it wrote down, after its context was compacted. A translation
    /// writes nothing down.
    pub fn recovery_command(self) -> (r: Option<&'static str>)
        ensures
            r is Some <==> self == Phase::Verify,
            r matches Some(c) ==> c@ == "cat SYMBOLS.md ERRORS.md CONFIGS.md"@,
    {
        match self {
            Phase::Translate => None,
            Phase::Verify => Some("cat SYMBOLS.md ERRORS.md CONFIGS.md"),
        }
    }
}

// ---------------------------------------------------------------------------
// What is added to a prompt
// ---------------------------------------------------------------------------

/// The boundary that the agent is told, with a place for the directory.
pub const WORKDIR_BOUNDARY_TEMPLATE: &'static str =
    "### Filesystem boundary\n- `{TEMPDIR}` is the ONLY directory you may read or write.\n- Keep all scratch files inside the project directory.\n- Prefer relative paths. Never retype the absolute temp-directory prefix\n  by hand: a single typo in it makes the path \"external\" and the call is\n  denied.\n- When you dispatch sub-agents, copy this entire \"Filesystem boundary\"\n  section into every sub-agent prompt verbatim.";

/// The warning of the cap on a response.
pub const OUTPUT_CAP_WARNING: &'static str =
    "### OpenCode output-token cap bug\nOpenCode caps the output tokens of each model response (upstream issue #29363). Thinking tokens count against the same cap. If thinking uses the full cap before your first tool call, the turn ends as if it were complete. The session then stops silently. A sub-agent that stops this way returns an empty result and writes no files.\nTherefore: keep thinking short. Do not draft a whole file in thinking. Write long files in parts: create the file with one `write` call, then append each next part with `edit`. Keep each part under ~300 lines. Copy this whole warning into EVERY sub-agent prompt.";

/// What is added to a prompt.
pub open spec fn suffix(tmp_root: Seq<char>) -> Seq<char> {
    "\n\n---\n\n"@ + text::replaced(WORKDIR_BOUNDARY_TEMPLATE@, "{TEMPDIR}"@, tmp_root) + "\n\n"@
        + OUTPUT_CAP_WARNING@ + "\n"@
}

/// What is added to a prompt: the boundary of the run's directory, and the warning of the cap.
pub fn prompt_suffix(tmp_root: &str) -> (r: String)
    ensures
        r@ == suffix(tmp_root@),
{
    let boundary = text::replace_all(
        &text::chars_of(WORKDIR_BOUNDARY_TEMPLATE),
        &text::chars_of("{TEMPDIR}"),
        &text::chars_of(tmp_root),
    );
    let head = text::join3("\n\n---\n\n", text::string_of(&boundary).as_str(), "\n\n");
    text::join3(head.as_str(), OUTPUT_CAP_WARNING, "\n")
}

// ---------------------------------------------------------------------------
// The configuration of a run
// ---------------------------------------------------------------------------

/// A text as it is written in JSON.
pub open spec fn json_text(s: Seq<char>) -> Seq<char> {
    json::compact_form(json::JsonView::Text(s))
}

fn json_str(s: &str) -> (r: String)
    ensures
        r@ == json_text(s@),
{
    json::compact(&json::words(s))
}

/// A value that is set and not empty.
pub open spec fn given(v: Option<&str>) -> Option<Seq<char>> {
    match v {
        Some(s) => if s@.len() > 0 {
            Some(s@)
        } else {
            None
        },
        None => None,
    }
}

fn given_value<'a>(v: Option<&'a str>) -> (r: Option<&'a str>)
    ensures
        r is Some <==> given(v) is Some,
        r matches Some(s) ==> given(v) == Some(s@),
{
    match v {
        Some(s) => {
            proof {
                reveal_strlit("");
            }
            if text::same_text(s, "") {
                assert(s@.len() == 0);
                None
            } else {
                assert(s@.len() > 0) by {
                    if s@.len() == 0 {
                        assert(s@ =~= ""@);
                    }
                }
                Some(s)
            }
        },
        None => None,
    }
}

/// The part of the configuration that names the region of Bedrock, and the profile where one is set:
/// an empty or a guessed profile would break the credentials that work without one.
pub open spec fn provider_block(bedrock: bool, region: Option<&str>, profile: Option<&str>) -> Seq<
    char,
> {
    if bedrock {
        let r = match given(region) {
            Some(s) => s,
            None => "us-west-2"@,
        };
        let opts = "        \"region\": "@ + json_text(r);
        let all = match given(profile) {
            Some(p) => opts + ",\n"@ + "        \"profile\": "@ + json_text(p),
            None => opts,
        };
        "  \"provider\": {\n    \"amazon-bedrock\": {\n      \"options\": {\n"@ + all
            + "\n      }\n    }\n  },\n"@
    } else {
        Seq::empty()
    }
}

/// The permissions outside the project: everything is denied, and then the run's directory is
/// allowed. The last rule that matches wins, so the order matters.
pub open spec fn permission_block(tmp_root: Seq<char>) -> Seq<char> {
    "  \"permission\": {\n    \"external_directory\": {\n      \"*\": \"deny\",\n      "@ + json_text(
        tmp_root + "/**"@,
    ) + ": \"allow\"\n    }\n  }\n"@
}

/// The configuration of a run.
pub open spec fn config_text(
    tmp_root: Seq<char>,
    bedrock: bool,
    region: Option<&str>,
    profile: Option<&str>,
) -> Seq<char> {
    "{\n  \"$schema\": \"https://opencode.ai/config.json\",\n"@ + provider_block(
        bedrock,
        region,
        profile,
    ) + permission_block(tmp_root) + "}\n"@
}

/// The permissions outside the project, as the configuration writes them.
pub fn permission_shape(tmp_root: &str) -> (r: String)
    ensures
        r@ == permission_block(tmp_root@),
{
    let pattern = text::join2(tmp_root, "/**");
    text::join3(
        "  \"permission\": {\n    \"external_directory\": {\n      \"*\": \"deny\",\n      ",
        json_str(pattern.as_str()).as_str(),
        ": \"allow\"\n    }\n  }\n",
    )
}

/// The configuration of a run. `region` and `profile` are those of the environment.
pub fn project_config(tmp_root: &str, m: &Model, region: Option<&str>, profile: Option<&str>) -> (r:
    String)
    ensures
        r@ == config_text(tmp_root@, m.provider@ == "amazon-bedrock"@, region, profile),
{
    let mut s = text::copy("{\n  \"$schema\": \"https://opencode.ai/config.json\",\n");
    let ghost head = s@;
    if m.is_bedrock() {
        let r = match given_value(region) {
            Some(x) => x,
            None => "us-west-2",
        };
        let mut opts = text::join2("        \"region\": ", json_str(r).as_str());
        if let Some(p) = given_value(profile) {
            opts.append(",\n");
            opts.append("        \"profile\": ");
            opts.append(json_str(p).as_str());
        }
        let block = text::join3(
            "  \"provider\": {\n    \"amazon-bedrock\": {\n      \"options\": {\n",
            opts.as_str(),
            "\n      }\n    }\n  },\n",
        );
        s.append(block.as_str());
    }
    assert(s@ =~= head + provider_block(m.provider@ == "amazon-bedrock"@, region, profile));
    s.append(permission_shape(tmp_root).as_str());
    s.append("}\n");
    s
}

/// The tools of an agent and whether it may use them.
pub open spec fn local_permissions() -> Seq<char> {
    "  bash: allow\n  read: allow\n  edit: allow\n  write: allow\n  glob: allow\n  grep: allow\n  task: allow\n  todowrite: allow\n  lsp: allow\n  webfetch: deny\n  websearch: deny\n  skill: deny\n"@
}

/// The definition of an agent. Nothing stands behind the closing line: it would replace the system
/// prompt of the program.
pub open spec fn definition(phase: Phase) -> Seq<char> {
    "---\ndescription: "@ + phase.purpose() + "\nmode: primary\npermission:\n"@
        + local_permissions() + "---\n"@
}

/// The definition of an agent.
pub fn agent_definition(phase: Phase) -> (r: String)
    ensures
        r@ == definition(phase),
{
    let head = text::join3(
        "---\ndescription: ",
        phase.description(),
        "\nmode: primary\npermission:\n",
    );
    text::join3(
        head.as_str(),
        "  bash: allow\n  read: allow\n  edit: allow\n  write: allow\n  glob: allow\n  grep: allow\n  task: allow\n  todowrite: allow\n  lsp: allow\n  webfetch: deny\n  websearch: deny\n  skill: deny\n",
        "---\n",
    )
}

/// The directory that stands for the user's own configuration, so that none of it is read.
pub fn xdg_config_dir(tmp_root: &str) -> (r: String)
    ensures
        r@ == paths::joined(tmp_root@, ".opencode-xdg"@),
{
    paths::join(tmp_root, ".opencode-xdg")
}

/// The files of a run's configuration, each with its text: the project's, the agent's, and for a
/// verification the plugin that recovers what the agent wrote down.
pub open spec fn config_files(
    tmp_root: Seq<char>,
    phase: Phase,
    bedrock: bool,
    region: Option<&str>,
    profile: Option<&str>,
    plugin: Seq<char>,
) -> Seq<(Seq<char>, Seq<char>)> {
    let dir = paths::joined(tmp_root, ".opencode"@);
    let two = seq![
        (
            paths::joined(dir, "opencode.json"@),
            config_text(tmp_root, bedrock, region, profile),
        ),
        (
            paths::joined(paths::joined(dir, "agents"@), phase.agent() + ".md"@),
            definition(phase),
        ),
    ];
    match phase {
        Phase::Translate => two,
        Phase::Verify => two.push(
            (
                paths::joined(paths::joined(dir, "plugin"@), "compaction-recovery.js"@),
                text::replaced(
                    plugin,
                    "{RECOVERY_CMD}"@,
                    "cat SYMBOLS.md ERRORS.md CONFIGS.md"@,
                ),
            ),
        ),
    }
}

/// The files of a run's configuration, each with its text. `plugin` is the text of the recovery
/// plugin, with a place for the command.
pub fn materialize_config(
    tmp_root: &str,
    phase: Phase,
    m: &Model,
    region: Option<&str>,
    profile: Option<&str>,
    plugin: &str,
) -> (r: Vec<(String, String)>)
    ensures
        text::pair_views(r@) == config_files(
            tmp_root@,
            phase,
            m.provider@ == "amazon-bedrock"@,
            region,
            profile,
            plugin@,
        ),
{
    let dir = paths::join(tmp_root, ".opencode");
    let mut v: Vec<(String, String)> = Vec::new();
    v.push(
        (
            paths::join(dir.as_str(), "opencode.json"),
            project_config(tmp_root, m, region, profile),
        ),
    );
    let agent = text::join2(phase.agent_name(), ".md");
    v.push((paths::join3(dir.as_str(), "agents", agent.as_str()), agent_definition(phase)));
    if let Some(command) = phase.recovery_command() {
        let filled = text::replace_all(
            &text::chars_of(plugin),
            &text::chars_of("{RECOVERY_CMD}"),
            &text::chars_of(command),
        );
        v.push(
            (
                paths::join3(dir.as_str(), "plugin", "compaction-recovery.js"),
                text::string_of(&filled),
            ),
        );
    }
    assert(text::pair_views(v@) =~= config_files(
        tmp_root@,
        phase,
        m.provider@ == "amazon-bedrock"@,
        region,
        profile,
        plugin@,
    ));
    v
}

// ---------------------------------------------------------------------------
// The limits of a model
// ---------------------------------------------------------------------------

/// What the registry says of a model.
#[derive(Debug, Clone, Copy, PartialEq, Eq, Structural)]
pub struct ModelLimits {
    pub context: u64,
    pub output: Option<u64>,
}

/// A record of the registry is that of the model.
pub open spec fn describes(v: json::JsonView, provider: Seq<char>, model_id: Seq<char>) -> bool {
    json::text_in(json::member(v, "providerID"@)) == Some(provider) && json::text_in(
        json::member(v, "id"@),
    ) == Some(model_id)
}

/// The limits that a record of the registry gives, where it gives a context.
pub open spec fn limits_of(v: json::JsonView) -> Option<ModelLimits> {
    match json::member(v, "limit"@) {
        Some(limit) => match json::number_in(json::member(limit, "context"@)) {
            Some(context) => Some(
                ModelLimits { context, output: json::number_in(json::member(limit, "output"@)) },
            ),
            None => None,
        },
        None => None,
    }
}

/// The limits that a listing gives of a model, from its line `i` on. The listing is a stream of
/// records, each over one line or several: a record ends where as many braces are closed as were
/// opened. `record` holds the lines of the record that is open, and `depth` its open braces.
pub open spec fn limits_from(
    lines: Seq<Seq<char>>,
    i: int,
    record: Seq<Seq<char>>,
    depth: int,
    provider: Seq<char>,
    model_id: Seq<char>,
) -> Option<ModelLimits>
    decreases lines.len() - i,
{
    if i < 0 || i >= lines.len() {
        None
    } else {
        let line = text::trimmed(lines[i]);
        if record.len() == 0 && !text::begins(line, "{"@) {
            limits_from(lines, i + 1, record, depth, provider, model_id)
        } else {
            let now = record.push(line);
            let open = depth + text::times(line, '{') - text::times(line, '}');
            if open > 0 {
                limits_from(lines, i + 1, now, open, provider, model_id)
            } else {
                match json::read(text::joined(now, "\n"@)) {
                    Some(v) => if describes(v, provider, model_id) {
                        limits_of(v)
                    } else {
                        limits_from(lines, i + 1, Seq::empty(), 0, provider, model_id)
                    },
                    None => limits_from(lines, i + 1, Seq::empty(), 0, provider, model_id),
                }
            }
        }
    }
}

/// The limits that a listing gives of a model.
pub open spec fn limits_in(output: Seq<char>, provider: Seq<char>, model_id: Seq<char>) -> Option<
    ModelLimits,
> {
    limits_from(text::lines(output), 0, Seq::empty(), 0, provider, model_id)
}

fn is_text(j: Option<&Json>, s: &str) -> (r: bool)
    ensures
        r == (json::text_in(
            match j {
                Some(v) => Some(v@),
                None => None,
            },
        ) == Some(s@)),
{
    match j {
        Some(v) => match v.as_str() {
            Some(t) => text::same_text(t, s),
            None => false,
        },
        None => false,
    }
}

fn read_limits(v: &Json) -> (r: Option<ModelLimits>)
    ensures
        r == limits_of(v@),
{
    let limit = match v.get("limit") {
        Some(l) => l,
        None => {
            return None;
        },
    };
    let context: u64 = match limit.get("context") {
        Some(c) => match c.as_u64() {
            Some(n) => n,
            None => {
                return None;
            },
        },
        None => {
            return None;
        },
    };
    let output: Option<u64> = match limit.get("output") {
        Some(o) => o.as_u64(),
        None => None,
    };
    Some(ModelLimits { context, output })
}

/// The limits that a listing of `opencode models --verbose` gives of a model.
pub fn extract_limits(output: &str, provider: &str, model_id: &str) -> (r: Option<ModelLimits>)
    ensures
        r == limits_in(output@, provider@, model_id@),
{
    let lines = text::lines_of(&text::chars_of(output));
    let ghost all = text::char_views(lines@);
    let brace = text::chars_of("{");
    let mut record: Vec<String> = Vec::new();
    let mut depth: u128 = 0;
    let mut i: usize = 0;
    assert(text::views(record@) =~= Seq::empty());
    while i < lines.len()
        invariant
            i <= lines.len(),
            all == text::char_views(lines@),
            brace@ == "{"@,
            depth <= i * 0xffff_ffff_ffff_ffff,
            limits_in(output@, provider@, model_id@) == limits_from(
                all,
                i as int,
                text::views(record@),
                depth as int,
                provider@,
                model_id@,
            ),
        decreases lines.len() - i,
    {
        broadcast use text::lemma_views_push;

        assert(all[i as int] == lines@[i as int]@);
        assert(text::views(record@).len() == record@.len());
        let line = text::trim(&lines[i]);
        if record.len() == 0 && !text::starts_with(&line, &brace) {
            i = i + 1;
            continue;
        }
        record.push(text::string_of(&line));
        let opened: u128 = text::count_char(&line, '{') as u128;
        let closed: u128 = text::count_char(&line, '}') as u128;
        let sum: u128 = depth + opened;
        if sum > closed {
            depth = sum - closed;
            i = i + 1;
            continue;
        }
        let whole = text::join_all(record.as_slice(), "\n");
        if let Some(v) = json::parse(whole.as_str()) {
            if is_text(v.get("providerID"), provider) && is_text(v.get("id"), model_id) {
                return read_limits(&v);
            }
        }
        record = Vec::new();
        depth = 0;
        i = i + 1;
        assert(text::views(record@) =~= Seq::empty());
    }
    None
}

/// The limits that the first of several listings gives of a model.
pub open spec fn first_limits(
    listings: Seq<Seq<char>>,
    provider: Seq<char>,
    model_id: Seq<char>,
) -> Option<ModelLimits>
    decreases listings.len(),
{
    if listings.len() == 0 {
        None
    } else {
        match first_limits(listings.drop_last(), provider, model_id) {
            Some(l) => Some(l),
            None => limits_in(listings.last(), provider, model_id),
        }
    }
}

/// The limits that the registry gives of a model: those of the first listing that gives some. A
/// listing that could not be had is not among them.
pub fn load_model_limits(m: &Model, listings: &[String]) -> (r: Option<ModelLimits>)
    ensures
        r == first_limits(
            text::views(listings@),
            m.provider@,
            text::before_char(m.model_id@, ':'),
        ),
{
    let id = m.metadata_id();
    let ghost all = text::views(listings@);
    let mut found: Option<ModelLimits> = None;
    let mut i: usize = 0;
    while i < listings.len()
        invariant
            i <= listings.len(),
            all == text::views(listings@),
            id@ == text::before_char(m.model_id@, ':'),
            found == first_limits(all.subrange(0, i as int), m.provider@, id@),
        decreases listings.len() - i,
    {
        assert(all.subrange(0, i + 1).drop_last() =~= all.subrange(0, i as int));
        assert(all.subrange(0, i + 1).last() == listings@[i as int]@);
        if found.is_none() {
            found = extract_limits(listings[i].as_str(), m.provider.as_str(), id.as_str());
        }
        i = i + 1;
    }
    assert(all.subrange(0, listings.len() as int) =~= all);
    found
}

// ---------------------------------------------------------------------------
// The invocation
// ---------------------------------------------------------------------------

/// The command of a run. What varies between runs comes through the environment.
pub open spec fn script(phase: Phase, timeout_secs: u64) -> Seq<char> {
    "set -o pipefail; timeout "@ + text::numeral(timeout_secs as nat)
        + " opencode run --format json --thinking --dangerously-skip-permissions --agent "@
        + phase.agent()
        + " --model \"$MODEL\" \"$PROMPT\" < /dev/null 2>&1 | tee \"$LOG\""@
}

/// What a run is told of the cap on a response: the cap to set, where the registry gives one, and
/// the note to print.
pub open spec fn cap_note(limits: Option<ModelLimits>, arg: Seq<char>) -> Seq<char> {
    match limits {
        Some(l) => match l.output {
            Some(out) => "  opencode: raising output cap to "@ + text::numeral(out as nat)
                + " (opencode#29363 workaround)"@,
            None => "  ⚠️  opencode: model "@ + arg
                + " has no registry output limit; the 32k cap stays (opencode#29363)"@,
        },
        None => "  ⚠️  opencode: could not resolve limits for "@ + arg
            + "; the 32k cap stays (opencode#29363)"@,
    }
}

/// The cap to set on a response, where the registry gives one, and the note to print.
pub fn output_cap(m: &Model, limits: Option<ModelLimits>) -> (r: (Option<u64>, String))
    ensures
        r.0 == (match limits {
            Some(l) => l.output,
            None => None,
        }),
        r.1@ == cap_note(limits, model_arg(m.provider@, m.model_id@)),
{
    match limits {
        Some(l) => match l.output {
            Some(out) => {
                let note = text::join3(
                    "  opencode: raising output cap to ",
                    text::numeral_of(out).as_str(),
                    " (opencode#29363 workaround)",
                );
                (Some(out), note)
            },
            None => {
                let note = text::join3(
                    "  ⚠️  opencode: model ",
                    m.as_arg().as_str(),
                    " has no registry output limit; the 32k cap stays (opencode#29363)",
                );
                (None, note)
            },
        },
        None => {
            let note = text::join3(
                "  ⚠️  opencode: could not resolve limits for ",
                m.as_arg().as_str(),
                "; the 32k cap stays (opencode#29363)",
            );
            (None, note)
        },
    }
}

/// The setting that raises the cap on a response.
pub const CAP_VARIABLE: &'static str = "OPENCODE_EXPERIMENTAL_OUTPUT_TOKEN_MAX";

/// What one run of a model is started with.
#[derive(Debug)]
pub struct Asked<'a> {
    /// The prompt, with what is said of the working directory behind it.
    pub prompt: &'a str,
    pub log: &'a str,
    pub work_dir: &'a str,
    /// Where the configuration was written.
    pub tmp_root: &'a str,
    /// `OPENSSL_DIR`, where it is set.
    pub openssl_dir: Option<&'a str>,
}

/// The environment of a run.
pub open spec fn run_env(m: Model, asked: Asked, limits: Option<ModelLimits>) -> Seq<
    (Seq<char>, Seq<char>),
> {
    let env = seq![
        ("PROMPT"@, asked.prompt@),
        ("LOG"@, asked.log@),
        ("MODEL"@, model_arg(m.provider@, m.model_id@)),
        (
            "OPENSSL_DIR"@,
            match asked.openssl_dir {
                Some(d) => d@,
                None => "/usr"@,
            },
        ),
        ("XDG_CONFIG_HOME"@, paths::joined(asked.tmp_root@, ".opencode-xdg"@)),
    ];
    match limits {
        Some(l) => match l.output {
            Some(out) => env.push((CAP_VARIABLE@, text::numeral(out as nat))),
            None => env,
        },
        None => env,
    }
}

/// How a run is started, and the note to print.
pub fn invoke(phase: Phase, m: &Model, timeout_secs: u64, asked: &Asked, limits: Option<ModelLimits>) -> (r: (
    Launch,
    String,
))
    ensures
        text::views(r.0.args@) == seq!["-c"@, script(phase, timeout_secs)],
        text::pair_views(r.0.env@) == run_env(*m, *asked, limits),
        r.0.cwd matches Some(d) && d@ == asked.work_dir@,
        r.1@ == cap_note(limits, model_arg(m.provider@, m.model_id@)),
{
    let mut command = text::copy("set -o pipefail; timeout ");
    text::push_numeral(&mut command, timeout_secs);
    command.append(" opencode run --format json --thinking --dangerously-skip-permissions --agent ");
    command.append(phase.agent_name());
    command.append(" --model \"$MODEL\" \"$PROMPT\" < /dev/null 2>&1 | tee \"$LOG\"");
    let mut args: Vec<String> = Vec::new();
    args.push(text::copy("-c"));
    args.push(command);
    assert(text::views(args@) =~= seq!["-c"@, script(phase, timeout_secs)]);
    let openssl_dir = match asked.openssl_dir {
        Some(d) => text::copy(d),
        None => text::copy("/usr"),
    };
    let mut env: Vec<(String, String)> = Vec::new();
    env.push((text::copy("PROMPT"), text::copy(asked.prompt)));
    env.push((text::copy("LOG"), text::copy(asked.log)));
    env.push((text::copy("MODEL"), m.as_arg()));
    env.push((text::copy("OPENSSL_DIR"), openssl_dir));
    env.push((text::copy("XDG_CONFIG_HOME"), xdg_config_dir(asked.tmp_root)));
    let (cap, note) = output_cap(m, limits);
    if let Some(out) = cap {
        env.push((text::copy(CAP_VARIABLE), text::numeral_of(out)));
    }
    assert(text::pair_views(env@) =~= run_env(*m, *asked, limits));
    (Launch { args, env, cwd: Some(text::copy(asked.work_dir)) }, note)
}

// ---------------------------------------------------------------------------
// Laws
// ---------------------------------------------------------------------------

/// What is read of a model is what it is asked for by.
pub proof fn law_a_model_is_asked_for_as_it_was_named(s: Seq<char>)
    ensures
        model_in(s) matches Some(m) ==> model_arg(m.0, m.1) == s,
{
    reveal_strlit("/");
    text::lemma_first_place(s, '/');
    if let Some(m) = model_in(s) {
        assert(model_arg(m.0, m.1) =~= s);
    }
}

/// A model that is routed to a region is the model: its results go to one directory from every
/// region, and to the one of the model that names no region.
pub proof fn law_a_region_does_not_change_the_slug(id: Seq<char>)
    requires
        forall|i: int| 0 <= i < id.len() ==> id[i] != '/',
    ensures
        slug("us."@ + id) == slug("eu."@ + id),
        slug("us."@ + id) == slug("global."@ + id),
        slug("us."@ + id) == slug("au."@ + id),
        slug("us."@ + id) == slug("jp."@ + id),
        slug("us."@ + id) == "opencode-"@ + text::after_char(text::before_char(id, ':'), '.'),
        without_region(text::before_char(id, ':')) == text::before_char(id, ':') ==> slug(id)
            == slug("us."@ + id),
{
    reveal_strlit("us.");
    reveal_strlit("eu.");
    reveal_strlit("global.");
    reveal_strlit("au.");
    reveal_strlit("jp.");
    lemma_region_slug("us."@, id);
    lemma_region_slug("eu."@, id);
    lemma_region_slug("global."@, id);
    lemma_region_slug("au."@, id);
    lemma_region_slug("jp."@, id);
    lemma_whole_segment(id);
}

proof fn lemma_whole_segment(s: Seq<char>)
    requires
        forall|i: int| 0 <= i < s.len() ==> s[i] != '/',
    ensures
        last_segment(s) == s,
{
    if let Some(i) = text::last_index(s, "/"@) {
        lemma_last_index_is_there(s, i);
    }
}

proof fn lemma_region_slug(region: Seq<char>, id: Seq<char>)
    requires
        forall|i: int| 0 <= i < id.len() ==> id[i] != '/',
        region == "us."@ || region == "eu."@ || region == "global."@ || region == "au."@ || region
            == "jp."@,
    ensures
        slug(region + id) == "opencode-"@ + text::after_char(text::before_char(id, ':'), '.'),
{
    reveal_strlit("us.");
    reveal_strlit("eu.");
    reveal_strlit("global.");
    reveal_strlit("au.");
    reveal_strlit("jp.");
    let whole = region + id;
    assert forall|i: int| 0 <= i < whole.len() implies whole[i] != '/' by {
        if i >= region.len() {
            assert(whole[i] == id[i - region.len()]);
        }
    }
    lemma_whole_segment(whole);
    let bare = text::before_char(id, ':');
    let s = region + bare;
    assert(text::before_char(whole, ':') == s) by {
        text::lemma_first_place(id, ':');
        text::lemma_first_place(whole, ':');
        match text::first_place(id, ':') {
            Some(i) => {
                assert(whole[region.len() + i] == ':');
                assert forall|j: int| 0 <= j < region.len() + i implies whole[j] != ':' by {
                    if j >= region.len() {
                        assert(whole[j] == id[j - region.len()]);
                    }
                }
                text::lemma_first_place_is(whole, ':', region.len() + i);
                assert(whole.subrange(0, region.len() + i) =~= s);
            },
            None => {
                if let Some(j) = text::first_place(whole, ':') {
                    assert(j >= region.len());
                    assert(whole[j] == id[j - region.len()]);
                }
            },
        }
    }
    assert(s.subrange(0, region.len() as int) =~= region);
    assert(s.subrange(region.len() as int, s.len() as int) =~= bare);
    assert(s[0] == region[0] && s[1] == region[1]);
    assert(without_prefix(s, region) == Some(bare));
    if region != "us."@ {
        assert(!text::begins(s, "us."@)) by {
            if text::begins(s, "us."@) {
                assert(s.subrange(0, 3)[0] == 'u');
                assert(s.subrange(0, 3)[1] == 's');
            }
        }
    }
    if region != "eu."@ {
        assert(!text::begins(s, "eu."@)) by {
            if text::begins(s, "eu."@) {
                assert(s.subrange(0, 3)[0] == 'e');
            }
        }
    }
    if region != "global."@ {
        assert(!text::begins(s, "global."@)) by {
            if text::begins(s, "global."@) {
                assert(s.subrange(0, 7)[0] == 'g');
            }
        }
    }
    if region != "au."@ {
        assert(!text::begins(s, "au."@)) by {
            if text::begins(s, "au."@) {
                assert(s.subrange(0, 3)[0] == 'a');
            }
        }
    }
    if region != "jp."@ {
        assert(!text::begins(s, "jp."@)) by {
            if text::begins(s, "jp."@) {
                assert(s.subrange(0, 3)[0] == 'j');
            }
        }
    }
    assert(without_region(s) == bare);
}

proof fn lemma_last_index_is_there(s: Seq<char>, i: int)
    requires
        text::last_index(s, "/"@) == Some(i),
    ensures
        0 <= i < s.len(),
        s[i] == '/',
{
    reveal_strlit("/");
    assert(text::occurs_at(s, "/"@, i));
    assert(s.subrange(i, i + 1)[0] == "/"@[0]);
}

/// In every configuration the rule that denies stands before the rule that allows: a denial behind
/// it would deny everything.
pub proof fn law_the_denial_stands_before_the_allowance(tmp_root: Seq<char>)
    ensures
        exists|before: Seq<char>, between: Seq<char>, after: Seq<char>|
            permission_block(tmp_root) == before + "\"*\": \"deny\""@ + between + json_text(
                tmp_root + "/**"@,
            ) + after,
{
    reveal_strlit(
        "  \"permission\": {\n    \"external_directory\": {\n      \"*\": \"deny\",\n      ",
    );
    reveal_strlit("  \"permission\": {\n    \"external_directory\": {\n      ");
    reveal_strlit("\"*\": \"deny\"");
    reveal_strlit(",\n      ");
    let before = "  \"permission\": {\n    \"external_directory\": {\n      "@;
    let between = ",\n      "@;
    let after = ": \"allow\"\n    }\n  }\n"@;
    let whole =
        "  \"permission\": {\n    \"external_directory\": {\n      \"*\": \"deny\",\n      "@;
    assert(whole =~= before + "\"*\": \"deny\""@ + between);
    assert(permission_block(tmp_root) == before + "\"*\": \"deny\""@ + between + json_text(
        tmp_root + "/**"@,
    ) + after);
}

/// The definition of an agent ends with its closing line.
pub proof fn law_nothing_follows_the_definition(phase: Phase)
    ensures
        text::ends(definition(phase), "---\n"@),
{
    let d = definition(phase);
    let n = "---\n"@.len();
    assert(d.subrange(d.len() - n, d.len() as int) =~= "---\n"@);
}

/// A model is named by its provider and its id, with the first slash between them; neither is empty,
/// and an id may hold slashes of its own.
pub proof fn law_a_model_is_a_provider_and_an_id(provider: Seq<char>, id: Seq<char>, s: Seq<char>)
    ensures
        provider.len() > 0 && id.len() > 0 && !provider.contains('/') ==> model_in(
            provider + "/"@ + id,
        ) == Some((provider, id)),
        model_in(s) matches Some(m) ==> m.0.len() > 0 && m.1.len() > 0 && !m.0.contains('/')
            && m.0 + "/"@ + m.1 == s,
        !s.contains('/') ==> model_in(s) is None,
{
    reveal_strlit("/");
    text::lemma_first_place(s, '/');
    law_a_model_is_asked_for_as_it_was_named(s);
    let all = provider + "/"@ + id;
    if !provider.contains('/') {
        assert(all[provider.len() as int] == '/');
        assert forall|k: int| 0 <= k < provider.len() implies all[k] != '/' by {
            assert(all[k] == provider[k]);
        }
        text::lemma_first_place_is(all, '/', provider.len() as int);
        if provider.len() > 0 && id.len() > 0 {
            let i = provider.len() as int;
            assert(all.subrange(0, i) =~= provider);
            assert(all.subrange(i + 1, all.len() as int) =~= id);
        }
    }
}

/// Each phase has an agent of its own, and says for what.
pub proof fn law_each_phase_has_its_own_agent()
    ensures
        Phase::Translate.agent() == "harvest-translate"@,
        Phase::Verify.agent() == "harvest-verify"@,
        Phase::Translate.agent() != Phase::Verify.agent(),
        Phase::Translate.purpose() == "ACTOR agentic translation backend"@,
        Phase::Verify.purpose() == "ACTOR agentic verification backend"@,
{
    reveal_strlit("harvest-translate");
    reveal_strlit("harvest-verify");
    assert("harvest-translate"@.len() != "harvest-verify"@.len());
}

/// Only where the provider is the one with regions is a provider named at all: with the region that was
/// given, with `us-west-2` where none was or it is empty, and with the profile where one was given.
pub proof fn law_a_region_is_always_named(region: &str, profile: &str, p: Option<&str>)
    ensures
        provider_block(false, Some(region), p).len() == 0,
        region@.len() > 0 ==> provider_block(true, Some(region), None)
            == "  \"provider\": {\n    \"amazon-bedrock\": {\n      \"options\": {\n"@ + (
        "        \"region\": "@ + json_text(region@)) + "\n      }\n    }\n  },\n"@,
        provider_block(true, None, p) == provider_block(true, Some("us-west-2"), p),
        region@.len() == 0 ==> provider_block(true, Some(region), p) == provider_block(
            true,
            None,
            p,
        ),
        profile@.len() == 0 ==> provider_block(true, Some(region), Some(profile))
            == provider_block(true, Some(region), None),
        region@.len() > 0 && profile@.len() > 0 ==> provider_block(
            true,
            Some(region),
            Some(profile),
        ) == "  \"provider\": {\n    \"amazon-bedrock\": {\n      \"options\": {\n"@ + (
        "        \"region\": "@ + json_text(region@) + ",\n"@ + "        \"profile\": "@
            + json_text(profile@)) + "\n      }\n    }\n  },\n"@,
{
    reveal_strlit("us-west-2");
    assert("us-west-2"@.len() == 9);
}

/// An agent may work on what is there, and may neither fetch, nor search, nor be taught anything else.
pub proof fn law_an_agent_stays_with_what_is_there(phase: Phase)
    ensures
        text::found(local_permissions(), "  webfetch: deny\n"@),
        text::found(local_permissions(), "  websearch: deny\n"@),
        text::found(local_permissions(), "  skill: deny\n"@),
        text::found(definition(phase), local_permissions()),
{
    let s = local_permissions();
    reveal_strlit(
        "  bash: allow\n  read: allow\n  edit: allow\n  write: allow\n  glob: allow\n  grep: allow\n  task: allow\n  todowrite: allow\n  lsp: allow\n  webfetch: deny\n  websearch: deny\n  skill: deny\n",
    );
    reveal_strlit("  webfetch: deny\n");
    reveal_strlit("  websearch: deny\n");
    reveal_strlit("  skill: deny\n");
    let d = s.len() - 14;
    let c = d - 18;
    let b = c - 17;
    assert(s.subrange(d, d + 14) =~= "  skill: deny\n"@);
    assert(s.subrange(c, c + 18) =~= "  websearch: deny\n"@);
    assert(s.subrange(b, b + 17) =~= "  webfetch: deny\n"@);
    assert(text::occurs_at(s, "  skill: deny\n"@, d));
    assert(text::occurs_at(s, "  websearch: deny\n"@, c));
    assert(text::occurs_at(s, "  webfetch: deny\n"@, b));
    let head = "---\ndescription: "@ + phase.purpose() + "\nmode: primary\npermission:\n"@;
    text::lemma_found_inside(head, s, "---\n"@);
    assert(definition(phase) =~= head + s + "---\n"@);
}

/// What is written for a run stands below its own root: the configuration, the agent of the phase, and
/// for a verification how it finds its way back.
pub proof fn law_a_run_is_configured_below_its_root(
    root: Seq<char>,
    phase: Phase,
    bedrock: bool,
    region: Option<&str>,
    profile: Option<&str>,
    plugin: Seq<char>,
)
    ensures
        ({
            let f = config_files(root, phase, bedrock, region, profile, plugin);
            let dir = paths::joined(root, ".opencode"@);
            &&& f[0].0 == paths::joined(dir, "opencode.json"@)
            &&& f[0].1 == config_text(root, bedrock, region, profile)
            &&& f[1].0 == paths::joined(paths::joined(dir, "agents"@), phase.agent() + ".md"@)
            &&& f[1].1 == definition(phase)
            &&& f.len() == 3 <==> phase is Verify
            &&& f.len() == 2 <==> phase is Translate
            &&& phase is Verify ==> f[2].0 == paths::joined(
                paths::joined(dir, "plugin"@),
                "compaction-recovery.js"@,
            ) && f[2].1 == text::replaced(
                plugin,
                "{RECOVERY_CMD}"@,
                "cat SYMBOLS.md ERRORS.md CONFIGS.md"@,
            )
        }),
{
}

/// The limits of a model are those of a record that names its provider and its id: how much it reads,
/// and how much it writes where that is told.
pub proof fn law_the_limits_are_those_of_the_model(
    output: Seq<char>,
    provider: Seq<char>,
    model_id: Seq<char>,
)
    ensures
        limits_in(output, provider, model_id) matches Some(l) ==> exists|v: json::JsonView| #[trigger]
            names_limits(v, provider, model_id, l),
{
    lemma_limits(text::lines(output), 0, Seq::empty(), 0, provider, model_id);
}

/// The record is that of the model, and holds these limits.
pub open spec fn names_limits(
    v: json::JsonView,
    provider: Seq<char>,
    model_id: Seq<char>,
    l: ModelLimits,
) -> bool {
    &&& json::member(v, "providerID"@) == Some(json::JsonView::Text(provider))
    &&& json::member(v, "id"@) == Some(json::JsonView::Text(model_id))
    &&& json::member(v, "limit"@) matches Some(limit) && json::number_in(
        json::member(limit, "context"@),
    ) == Some(l.context) && json::number_in(json::member(limit, "output"@)) == l.output
}

proof fn lemma_limits(
    lines: Seq<Seq<char>>,
    i: int,
    record: Seq<Seq<char>>,
    depth: int,
    provider: Seq<char>,
    model_id: Seq<char>,
)
    ensures
        limits_from(lines, i, record, depth, provider, model_id) matches Some(l) ==> exists|
            v: json::JsonView,
        | #[trigger]
            names_limits(v, provider, model_id, l),
    decreases lines.len() - i,
{
    if 0 <= i < lines.len() {
        let line = text::trimmed(lines[i]);
        if record.len() == 0 && !text::begins(line, "{"@) {
            lemma_limits(lines, i + 1, record, depth, provider, model_id);
        } else {
            let now = record.push(line);
            let open = depth + text::times(line, '{') - text::times(line, '}');
            if open > 0 {
                lemma_limits(lines, i + 1, now, open, provider, model_id);
            } else {
                let read = json::read(text::joined(now, "\n"@));
                if read is Some && describes(read->0, provider, model_id) {
                    if let Some(l) = limits_of(read->0) {
                        assert(names_limits(read->0, provider, model_id, l));
                    }
                } else {
                    lemma_limits(lines, i + 1, Seq::empty(), 0, provider, model_id);
                }
            }
        }
    }
}

/// Of several listings the first that knows the model speaks for it.
pub proof fn law_the_first_listing_that_knows_speaks(
    listings: Seq<Seq<char>>,
    next: Seq<char>,
    provider: Seq<char>,
    model_id: Seq<char>,
)
    ensures
        first_limits(listings, provider, model_id) is Some ==> first_limits(
            listings.push(next),
            provider,
            model_id,
        ) == first_limits(listings, provider, model_id),
        first_limits(listings, provider, model_id) is None ==> first_limits(
            listings.push(next),
            provider,
            model_id,
        ) == limits_in(next, provider, model_id),
        first_limits(Seq::empty(), provider, model_id) is None,
{
    assert(listings.push(next).drop_last() =~= listings);
}

/// What a run is told by its environment: the prompt, the log and the model as it was named, and the cap
/// on what it writes only where the limit is known.
pub proof fn law_a_run_is_told_its_prompt_and_its_model(
    m: Model,
    asked: Asked,
    limits: Option<ModelLimits>,
)
    ensures
        ({
            let e = run_env(m, asked, limits);
            &&& e.contains(("PROMPT"@, asked.prompt@))
            &&& e.contains(("LOG"@, asked.log@))
            &&& e.contains(("MODEL"@, m.provider@ + "/"@ + m.model_id@))
            &&& asked.openssl_dir is None ==> e.contains(("OPENSSL_DIR"@, "/usr"@))
            &&& asked.openssl_dir matches Some(d) ==> e.contains(("OPENSSL_DIR"@, d@))
            &&& e.contains(
                ("XDG_CONFIG_HOME"@, paths::joined(asked.tmp_root@, ".opencode-xdg"@)),
            )
            &&& e.len() == 6 <==> limits is Some && limits->0.output is Some
            &&& limits is Some && limits->0.output is Some ==> e[5] == (
                "OPENCODE_EXPERIMENTAL_OUTPUT_TOKEN_MAX"@,
                text::numeral(limits->0.output->0 as nat),
            )
            &&& e.len() == 5 || e.len() == 6
        }),
{
    let e = run_env(m, asked, limits);
    assert(e[0] == ("PROMPT"@, asked.prompt@));
    assert(e[1] == ("LOG"@, asked.log@));
    assert(e[2] == ("MODEL"@, m.provider@ + "/"@ + m.model_id@));
    assert(e[3].0 == "OPENSSL_DIR"@);
    assert(e[4] == ("XDG_CONFIG_HOME"@, paths::joined(asked.tmp_root@, ".opencode-xdg"@)));
}

/// A run is under its timeout, shows how it ended, is that of its phase's agent and leaves its log.
pub proof fn law_a_run_is_timed_and_logged(phase: Phase, secs: u64)
    ensures
        text::begins(
            script(phase, secs),
            "set -o pipefail; timeout "@ + text::numeral(secs as nat)
                + " opencode run --format json --thinking --dangerously-skip-permissions --agent "@
                + phase.agent(),
        ),
        text::ends(
            script(phase, secs),
            " --model \"$MODEL\" \"$PROMPT\" < /dev/null 2>&1 | tee \"$LOG\""@,
        ),
{
    let a = "set -o pipefail; timeout "@ + text::numeral(secs as nat)
        + " opencode run --format json --thinking --dangerously-skip-permissions --agent "@
        + phase.agent();
    let b = " --model \"$MODEL\" \"$PROMPT\" < /dev/null 2>&1 | tee \"$LOG\""@;
    let s = script(phase, secs);
    assert(s == a + b);
    assert(s.subrange(0, a.len() as int) =~= a);
    assert(s.subrange(s.len() - b.len(), s.len() as int) =~= b);
}

/// That the cap is raised is said with the limit, and why it is not where it is not known.
pub proof fn law_a_cap_is_raised_only_to_a_known_limit(context: u64, out: u64, arg: Seq<char>)
    ensures
        cap_note(Some(ModelLimits { context, output: Some(out) }), arg)
            == "  opencode: raising output cap to "@ + text::numeral(out as nat)
            + " (opencode#29363 workaround)"@,
        cap_note(Some(ModelLimits { context, output: None }), arg) == "  ⚠️  opencode: model "@ + arg
            + " has no registry output limit; the 32k cap stays (opencode#29363)"@,
        cap_note(None, arg) == "  ⚠️  opencode: could not resolve limits for "@ + arg
            + "; the 32k cap stays (opencode#29363)"@,
{
}

/// An agent is told where it may work before it is told what its output may hold.
pub proof fn law_a_prompt_ends_with_its_bounds(root: Seq<char>)
    ensures
        suffix(root) == "\n\n---\n\n"@ + text::replaced(
            WORKDIR_BOUNDARY_TEMPLATE@,
            "{TEMPDIR}"@,
            root,
        ) + "\n\n"@ + OUTPUT_CAP_WARNING@ + "\n"@,
        model_refusal(root) == "--agent opencode needs --model <provider>/<model-id>, got "@
            + text::quoted_form(root) + ".\nExamples:\n  amazon-bedrock/us.anthropic."@
            + program::program()
            + "-sonnet-5\n  amazon-bedrock/openai.gpt-5.5\n  openrouter/deepseek/deepseek-v4-pro"@,
{
}

} // verus!
