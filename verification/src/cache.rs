//! The memory of agent phases: what identifies an invocation, and what is served, run and stored.

use crate::agents::session;
use crate::artifact;
use crate::artifact::Entry;
use crate::artifact::Phase;
use crate::artifact::Sealed;
use crate::artifact::TreeDigest;
use crate::bytes;
use crate::digest;
use crate::json;
use crate::json::Json;
use crate::paths;
use crate::text;
use vstd::bytes::*;
use vstd::prelude::*;
use vstd::string::*;
use vstd::utf8::*;

verus! {

/// The composition of a key. Another number leaves every entry behind.
pub const SCHEMA: u32 = 1;

// ---------------------------------------------------------------------------
// The model
// ---------------------------------------------------------------------------

/// The model that an agent is asked for, pinned before the run.
#[derive(Clone, PartialEq, Eq, Debug)]
pub struct ModelId(String);

impl View for ModelId {
    type V = Seq<char>;

    closed spec fn view(&self) -> Seq<char> {
        self.0@
    }
}

/// A character that could end the quotes in which a model stands on a command line.
pub open spec fn breaks_quotes(c: char) -> bool {
    c == '\'' || c == '`' || c == '$' || c == '\n'
}

/// A text that can name a model.
pub open spec fn names_model(s: Seq<char>) -> bool {
    text::trimmed(s).len() > 0 && forall|i: int| 0 <= i < s.len() ==> !breaks_quotes(#[trigger] s[i])
}

impl ModelId {
    /// The model that a text names. A blank text names none, nor does one that could end the quotes
    /// in which it stands on a command line.
    pub fn new(s: &str) -> (r: Result<ModelId, String>)
        ensures
            r is Ok <==> names_model(s@),
            r matches Ok(m) ==> m@ == s@,
            r matches Err(e) ==> e@ == (if text::trimmed(s@).len() == 0 {
                "model id must not be empty"@
            } else {
                "model id contains shell metacharacters: "@ + s@
            }),
    {
        let v = text::chars_of(s);
        if text::trim(&v).len() == 0 {
            return Err(text::copy("model id must not be empty"));
        }
        let mut i: usize = 0;
        while i < v.len()
            invariant
                i <= v.len(),
                v@ == s@,
                text::trimmed(s@).len() > 0,
                forall|j: int| 0 <= j < i ==> !breaks_quotes(#[trigger] v@[j]),
            decreases v.len() - i,
        {
            if v[i] == '\'' || v[i] == '`' || v[i] == '$' || v[i] == '\n' {
                assert(breaks_quotes(s@[i as int]));
                return Err(text::join2("model id contains shell metacharacters: ", s));
            }
            i = i + 1;
        }
        Ok(ModelId(text::copy(s)))
    }

    /// The model as it is asked for.
    pub fn as_str(&self) -> (r: &str)
        ensures
            r@ == self@,
    {
        self.0.as_str()
    }
}

// ---------------------------------------------------------------------------
// The toolchain
// ---------------------------------------------------------------------------

/// The compiler and the host that it runs on.
#[derive(Clone, PartialEq, Eq, Hash, Debug)]
pub struct ToolchainId(String);

impl View for ToolchainId {
    type V = Seq<char>;

    closed spec fn view(&self) -> Seq<char> {
        self.0@
    }
}

/// What stands behind a word at the start of the first line that starts with it.
pub open spec fn line_value(lines: Seq<Seq<char>>, word: Seq<char>) -> Option<Seq<char>>
    decreases lines.len(),
{
    if lines.len() == 0 {
        None
    } else {
        match line_value(lines.drop_last(), word) {
            Some(v) => Some(v),
            None => if text::begins(lines.last(), word) {
                Some(
                    text::trimmed(
                        lines.last().subrange(word.len() as int, lines.last().len() as int),
                    ),
                )
            } else {
                None
            },
        }
    }
}

/// A value of the compiler's report, or a question mark.
pub open spec fn reported(report: Seq<char>, word: Seq<char>) -> Seq<char> {
    match line_value(text::lines(report), word) {
        Some(v) => v,
        None => "?"@,
    }
}

/// The refusal where the environment overrides the pinned compiler.
pub const TOOLCHAIN_OVERRIDDEN: &'static str =
    "RUSTUP_TOOLCHAIN is set, which silently overrides rust-toolchain.toml. Unset it (`env -u RUSTUP_TOOLCHAIN`) so the pinned compiler is used and the cache key reflects it.";

fn pick(lines: &Vec<Vec<char>>, word: &str) -> (r: String)
    ensures
        r@ == (match line_value(text::char_views(lines@), word@) {
            Some(v) => v,
            None => "?"@,
        }),
{
    let w = text::chars_of(word);
    let ghost all = text::char_views(lines@);
    let mut found: Option<String> = None;
    let mut i: usize = 0;
    while i < lines.len()
        invariant
            i <= lines.len(),
            all == text::char_views(lines@),
            w@ == word@,
            found is Some <==> line_value(all.subrange(0, i as int), word@) is Some,
            found matches Some(s) ==> line_value(all.subrange(0, i as int), word@) == Some(s@),
        decreases lines.len() - i,
    {
        assert(all.subrange(0, i + 1).drop_last() =~= all.subrange(0, i as int));
        assert(all.subrange(0, i + 1).last() == lines@[i as int]@);
        if found.is_none() && text::starts_with(&lines[i], &w) {
            let rest = text::cut(&lines[i], w.len(), lines[i].len());
            found = Some(text::string_of(&text::trim(&rest)));
        }
        i = i + 1;
    }
    assert(all.subrange(0, lines.len() as int) =~= all);
    match found {
        Some(s) => s,
        None => text::copy("?"),
    }
}

impl ToolchainId {
    /// The toolchain that `rustc -vV` reports. Refused where the environment overrides the pinned
    /// compiler; `report` is absent where the compiler could not be asked.
    pub fn detect(overridden: bool, report: Option<&str>) -> (r: Result<ToolchainId, String>)
        ensures
            overridden ==> (r matches Err(e) && e@ == TOOLCHAIN_OVERRIDDEN@),
            !overridden && report is None ==> (r matches Err(e) && e@ == "`rustc -vV` failed"@),
            !overridden && report is Some ==> (r matches Ok(t) && t@ == reported(
                report->0@,
                "release:"@,
            ) + " "@ + reported(report->0@, "host:"@)),
    {
        if overridden {
            return Err(text::copy(TOOLCHAIN_OVERRIDDEN));
        }
        match report {
            None => Err(text::copy("`rustc -vV` failed")),
            Some(out) => {
                let lines = text::lines_of(&text::chars_of(out));
                let release = pick(&lines, "release:");
                let host = pick(&lines, "host:");
                Ok(ToolchainId(text::join3(release.as_str(), " ", host.as_str())))
            },
        }
    }

    /// The toolchain as it is written.
    pub fn as_str(&self) -> (r: &str)
        ensures
            r@ == self@,
    {
        self.0.as_str()
    }
}

// ---------------------------------------------------------------------------
// Paths as tokens
// ---------------------------------------------------------------------------

/// A path of this machine and the token that stands for it.
pub type Substitution = (Seq<char>, Seq<char>);

/// The length of a text in bytes.
pub open spec fn byte_len(s: Seq<char>) -> nat {
    encode_utf8(s).len()
}

/// Puts a substitution behind those whose path is as long or longer.
pub open spec fn placed(s: Seq<Substitution>, x: Substitution) -> Seq<Substitution>
    decreases s.len(),
{
    if s.len() == 0 {
        seq![x]
    } else if byte_len(s.last().0) >= byte_len(x.0) {
        s.push(x)
    } else {
        placed(s.drop_last(), x).push(s.last())
    }
}

/// The substitutions, the longest path first.
pub open spec fn longest_first(s: Seq<Substitution>) -> Seq<Substitution>
    decreases s.len(),
{
    if s.len() == 0 {
        Seq::empty()
    } else {
        placed(longest_first(s.drop_last()), s.last())
    }
}

/// A text with substitutions made one after the other.
pub open spec fn substituted(t: Seq<char>, s: Seq<Substitution>) -> Seq<char>
    decreases s.len(),
{
    if s.len() == 0 {
        t
    } else {
        text::replaced(substituted(t, s.drop_last()), s.last().0, s.last().1)
    }
}

/// The paths of this machine that a text may hold: the work tree, the repository, the directory that
/// work trees are made in and the user's own, as far as they are known.
pub open spec fn machine_paths(
    work_root: Seq<char>,
    repo_root: Seq<char>,
    base: Option<&str>,
    home: Option<&str>,
) -> Seq<Substitution> {
    let two = seq![(work_root, "$WORK"@), (repo_root, "$REPO"@)];
    let three = match base {
        Some(b) => two.push((b@, "$WORKBASE"@)),
        None => two,
    };
    match home {
        Some(h) => three.push((h@, "$HOME"@)),
        None => three,
    }
}

/// A text with the paths of this machine put as tokens, the longest first: a work tree is usually
/// below the directory that work trees are made in.
pub open spec fn normalised(
    t: Seq<char>,
    work_root: Seq<char>,
    repo_root: Seq<char>,
    base: Option<&str>,
    home: Option<&str>,
) -> Seq<char> {
    substituted(t, longest_first(machine_paths(work_root, repo_root, base, home)))
}

fn place(v: &mut Vec<(String, String)>, from: &str, to: &str)
    ensures
        text::pair_views(final(v)@) == placed(text::pair_views(old(v)@), (from@, to@)),
{
    let ghost v0 = text::pair_views(v@);
    let ghost x = (from@, to@);
    let n: usize = from.as_bytes().len();
    let mut at: usize = v.len();
    assert(v0.subrange(0, at as int) =~= v0);
    assert(v0.subrange(at as int, v0.len() as int) =~= Seq::empty());
    assert(placed(v0, x) =~= placed(v0.subrange(0, at as int), x) + v0.subrange(
        at as int,
        v0.len() as int,
    ));
    while at > 0 && v[at - 1].0.as_str().as_bytes().len() < n
        invariant
            at <= v.len(),
            v0 == text::pair_views(v@),
            v@ == old(v)@,
            x == (from@, to@),
            n == byte_len(from@),
            placed(v0, x) == placed(v0.subrange(0, at as int), x) + v0.subrange(
                at as int,
                v0.len() as int,
            ),
        decreases at,
    {
        let ghost here = v0.subrange(0, at as int);
        assert(here.drop_last() =~= v0.subrange(0, at - 1));
        assert(here.last() == (v@[at - 1].0@, v@[at - 1].1@));
        assert(placed(here, x) + v0.subrange(at as int, v0.len() as int) =~= placed(
            v0.subrange(0, at - 1),
            x,
        ) + v0.subrange(at - 1, v0.len() as int));
        at = at - 1;
    }
    proof {
        let here = v0.subrange(0, at as int);
        if at > 0 {
            assert(here.last() == (v@[at - 1].0@, v@[at - 1].1@));
            assert(placed(here, x) == here.push(x));
        } else {
            assert(placed(here, x) =~= here.push(x));
        }
    }
    v.insert(at, (text::copy(from), text::copy(to)));
    assert(text::pair_views(v@) =~= v0.insert(at as int, x));
    assert(v0.insert(at as int, x) =~= v0.subrange(0, at as int).push(x) + v0.subrange(
        at as int,
        v0.len() as int,
    ));
}

/// A text with the paths of this machine put as tokens, so that the same work has the same key on
/// another machine.
pub fn normalise(
    text_in: &str,
    work_root: &str,
    repo_root: &str,
    base: Option<&str>,
    home: Option<&str>,
) -> (r: String)
    ensures
        r@ == normalised(text_in@, work_root@, repo_root@, base, home),
{
    let ghost all = machine_paths(work_root@, repo_root@, base, home);
    let mut known: Vec<(String, String)> = Vec::new();
    known.push((text::copy(work_root), text::copy("$WORK")));
    known.push((text::copy(repo_root), text::copy("$REPO")));
    if let Some(b) = base {
        known.push((text::copy(b), text::copy("$WORKBASE")));
    }
    if let Some(h) = home {
        known.push((text::copy(h), text::copy("$HOME")));
    }
    assert(text::pair_views(known@) =~= all);
    let mut subs: Vec<(String, String)> = Vec::new();
    let mut k: usize = 0;
    assert(text::pair_views(subs@) =~= longest_first(all.subrange(0, 0)));
    while k < known.len()
        invariant
            k <= known.len(),
            all == text::pair_views(known@),
            text::pair_views(subs@) == longest_first(all.subrange(0, k as int)),
        decreases known.len() - k,
    {
        assert(all.subrange(0, k + 1).drop_last() =~= all.subrange(0, k as int));
        assert(all.subrange(0, k + 1).last() == (known@[k as int].0@, known@[k as int].1@));
        place(&mut subs, known[k].0.as_str(), known[k].1.as_str());
        k = k + 1;
    }
    assert(all.subrange(0, known.len() as int) =~= all);
    let ghost order = longest_first(all);
    let mut out = text::copy(text_in);
    let mut i: usize = 0;
    while i < subs.len()
        invariant
            i <= subs.len(),
            order == text::pair_views(subs@),
            out@ == substituted(text_in@, order.subrange(0, i as int)),
        decreases subs.len() - i,
    {
        assert(order.subrange(0, i + 1).drop_last() =~= order.subrange(0, i as int));
        assert(order.subrange(0, i + 1).last() == (subs@[i as int].0@, subs@[i as int].1@));
        let done = text::replace_all(
            &text::chars_of(out.as_str()),
            &text::chars_of(subs[i].0.as_str()),
            &text::chars_of(subs[i].1.as_str()),
        );
        out = text::string_of(&done);
        i = i + 1;
    }
    assert(order.subrange(0, subs.len() as int) =~= order);
    out
}

// ---------------------------------------------------------------------------
// What is hashed
// ---------------------------------------------------------------------------

fn text_field(s: &str) -> (r: Vec<u8>)
    ensures
        r@ == encode_utf8(s@),
{
    bytes::copy(s.as_bytes())
}

/// The digest of the prompt that an agent is sent, after its paths were put as tokens.
#[derive(Clone, PartialEq, Eq, Hash, Debug)]
pub struct PromptDigest(String);

impl View for PromptDigest {
    type V = Seq<char>;

    closed spec fn view(&self) -> Seq<char> {
        self.0@
    }
}

impl PromptDigest {
    /// The digest as it is written.
    pub fn as_str(&self) -> (r: &str)
        ensures
            r@ == self@,
    {
        self.0.as_str()
    }
}

/// What is hashed of a prompt.
pub open spec fn prompt_fields(normal: Seq<char>) -> Seq<Seq<u8>> {
    seq![encode_utf8("prompt-v1"@), encode_utf8(normal)]
}

/// The digest of a prompt.
pub fn prompt_digest(
    prompt: &str,
    work_root: &str,
    repo_root: &str,
    base: Option<&str>,
    home: Option<&str>,
) -> (r: PromptDigest)
    ensures
        r@ == digest::digest_text(
            digest::frames(
                prompt_fields(normalised(prompt@, work_root@, repo_root@, base, home)),
            ),
        ),
{
    let normal = normalise(prompt, work_root, repo_root, base, home);
    let mut fields: Vec<Vec<u8>> = Vec::new();
    fields.push(text_field("prompt-v1"));
    fields.push(text_field(normal.as_str()));
    assert(bytes::byte_views(fields@) =~= prompt_fields(normal@));
    PromptDigest(digest::digest_of(&digest::frame_all(fields.as_slice())))
}

/// The digest of how an agent is invoked.
#[derive(Clone, PartialEq, Eq, Hash, Debug)]
pub struct RecipeDigest(String);

impl View for RecipeDigest {
    type V = Seq<char>;

    closed spec fn view(&self) -> Seq<char> {
        self.0@
    }
}

impl RecipeDigest {
    /// The digest as it is written.
    pub fn as_str(&self) -> (r: &str)
        ensures
            r@ == self@,
    {
        self.0.as_str()
    }
}

/// How an agent is invoked.
#[derive(Debug)]
pub struct Recipe {
    pub max_turns: u32,
    pub permission_mode: String,
    pub timeout_secs: u64,
    pub ulimit_fsize_blocks: u64,
    pub ulimit_data_kb: u64,
    pub agents_json: String,
    /// The sandbox policy, with its paths put as tokens.
    pub sandbox_shape: String,
    /// The settings of the agent's runtime: how often it retries, how long it waits.
    pub agent_env: Vec<(String, String)>,
}

/// The texts of pairs, one after the other.
pub open spec fn pair_fields(pairs: Seq<(Seq<char>, Seq<char>)>) -> Seq<Seq<u8>>
    decreases pairs.len(),
{
    if pairs.len() == 0 {
        Seq::empty()
    } else {
        pair_fields(pairs.drop_last()).push(encode_utf8(pairs.last().0)).push(
            encode_utf8(pairs.last().1),
        )
    }
}

/// What is hashed of a recipe: everything in it, the settings in their order.
pub open spec fn recipe_fields(r: Recipe) -> Seq<Seq<u8>> {
    seq![
        encode_utf8("recipe-v1"@),
        spec_u32_to_le_bytes(r.max_turns),
        encode_utf8(r.permission_mode@),
        spec_u64_to_le_bytes(r.timeout_secs),
        spec_u64_to_le_bytes(r.ulimit_fsize_blocks),
        spec_u64_to_le_bytes(r.ulimit_data_kb),
        encode_utf8(r.agents_json@),
        encode_utf8(r.sandbox_shape@),
    ] + pair_fields(text::pairs_in_order(text::pair_views(r.agent_env@)))
}

/// The seconds after which a verification is ended.
pub const VERIFY_TIMEOUT_SECS: u64 = 10800;

impl Recipe {
    /// How a verification is invoked, under the policy that the agent is handed.
    pub fn for_verify(
        policy: &str,
        work_root: &str,
        repo_root: &str,
        base: Option<&str>,
        home: Option<&str>,
    ) -> (r: Recipe)
        ensures
            r.max_turns == session::CLAUDE_MAX_TURNS,
            r.permission_mode@ == session::CLAUDE_PERMISSION_MODE@,
            r.timeout_secs == VERIFY_TIMEOUT_SECS,
            r.ulimit_fsize_blocks == session::AGENT_FSIZE_BLOCKS,
            r.ulimit_data_kb == session::AGENT_DATA_KB,
            r.agents_json@ == session::CLAUDE_PLAIN_AGENT_JSON@,
            r.sandbox_shape@ == normalised(policy@, work_root@, repo_root@, base, home),
            text::pair_views(r.agent_env@) == session::agent_settings(),
    {
        Recipe {
            max_turns: session::CLAUDE_MAX_TURNS,
            permission_mode: text::copy(session::CLAUDE_PERMISSION_MODE),
            timeout_secs: VERIFY_TIMEOUT_SECS,
            ulimit_fsize_blocks: session::AGENT_FSIZE_BLOCKS,
            ulimit_data_kb: session::AGENT_DATA_KB,
            agents_json: text::copy(session::CLAUDE_PLAIN_AGENT_JSON),
            sandbox_shape: normalise(policy, work_root, repo_root, base, home),
            agent_env: session::agent_env(),
        }
    }

    /// The digest of everything in the recipe.
    pub fn digest(&self) -> (r: RecipeDigest)
        ensures
            r@ == digest::digest_text(digest::frames(recipe_fields(*self))),
    {
        let mut fields: Vec<Vec<u8>> = Vec::new();
        fields.push(text_field("recipe-v1"));
        fields.push(u32_to_le_bytes(self.max_turns));
        fields.push(text_field(self.permission_mode.as_str()));
        fields.push(u64_to_le_bytes(self.timeout_secs));
        fields.push(u64_to_le_bytes(self.ulimit_fsize_blocks));
        fields.push(u64_to_le_bytes(self.ulimit_data_kb));
        fields.push(text_field(self.agents_json.as_str()));
        fields.push(text_field(self.sandbox_shape.as_str()));
        let env = text::sort_pairs(self.agent_env.as_slice());
        let ghost head = bytes::byte_views(fields@);
        let ghost pairs = text::pair_views(env@);
        let mut i: usize = 0;
        assert(bytes::byte_views(fields@) =~= head + pair_fields(pairs.subrange(0, 0)));
        while i < env.len()
            invariant
                i <= env.len(),
                pairs == text::pair_views(env@),
                bytes::byte_views(fields@) == head + pair_fields(pairs.subrange(0, i as int)),
            decreases env.len() - i,
        {
            broadcast use bytes::lemma_byte_views_push;

            assert(pairs.subrange(0, i + 1).drop_last() =~= pairs.subrange(0, i as int));
            assert(pairs.subrange(0, i + 1).last() == (env@[i as int].0@, env@[i as int].1@));
            fields.push(text_field(env[i].0.as_str()));
            fields.push(text_field(env[i].1.as_str()));
            assert(bytes::byte_views(fields@) =~= head + pair_fields(pairs.subrange(0, i + 1)));
            i = i + 1;
        }
        assert(pairs.subrange(0, env.len() as int) =~= pairs);
        assert(bytes::byte_views(fields@) =~= recipe_fields(*self));
        RecipeDigest(digest::digest_of(&digest::frame_all(fields.as_slice())))
    }
}

/// What identifies one invocation of an agent.
#[derive(Clone, PartialEq, Eq, Hash, Debug)]
pub struct CacheKey(String);

impl View for CacheKey {
    type V = Seq<char>;

    closed spec fn view(&self) -> Seq<char> {
        self.0@
    }
}

impl CacheKey {
    /// The key as it is written.
    pub fn as_str(&self) -> (r: &str)
        ensures
            r@ == self@,
    {
        self.0.as_str()
    }
}

/// Everything that a key is made of.
#[derive(Debug)]
pub struct KeyInputs<'a> {
    pub phase: &'a str,
    pub agent: &'a str,
    pub model: &'a ModelId,
    pub toolchain: &'a ToolchainId,
    pub prompt: &'a PromptDigest,
    pub recipe: &'a RecipeDigest,
    pub input_tree: &'a TreeDigest,
}

/// The parts of a key as texts.
pub open spec fn key_parts(k: KeyInputs) -> Seq<Seq<char>> {
    seq![k.phase@, k.agent@, k.model@, k.toolchain@, k.prompt@, k.recipe@, k.input_tree@]
}

/// What is hashed for a key.
pub open spec fn key_fields(k: KeyInputs) -> Seq<Seq<u8>> {
    seq![
        encode_utf8("key-v1"@),
        spec_u32_to_le_bytes(SCHEMA),
        encode_utf8(k.phase@),
        encode_utf8(k.agent@),
        encode_utf8(k.model@),
        encode_utf8(k.toolchain@),
        encode_utf8(k.prompt@),
        encode_utf8(k.recipe@),
        encode_utf8(k.input_tree@),
    ]
}

/// The key of an invocation.
pub open spec fn key_of(k: KeyInputs) -> Seq<char> {
    digest::hex(digest::sha256(digest::frames(key_fields(k))))
}

/// The record of an invocation, under its key: each part of the key, and the harness that made it,
/// which is not part of the key.
pub open spec fn meta_view(k: KeyInputs, key: Seq<char>, harness: Seq<char>) -> Map<
    Seq<char>,
    json::JsonView,
> {
    Map::<Seq<char>, json::JsonView>::empty().insert(
        "schema"@,
        json::natural_view(SCHEMA as u64),
    ).insert("key"@, json::JsonView::Text(key)).insert(
        "phase"@,
        json::JsonView::Text(k.phase@),
    ).insert("agent"@, json::JsonView::Text(k.agent@)).insert(
        "model"@,
        json::JsonView::Text(k.model@),
    ).insert("toolchain"@, json::JsonView::Text(k.toolchain@)).insert(
        "prompt"@,
        json::JsonView::Text(k.prompt@),
    ).insert("recipe"@, json::JsonView::Text(k.recipe@)).insert(
        "input_tree"@,
        json::JsonView::Text(k.input_tree@),
    ).insert("harness"@, json::JsonView::Text(harness))
}

impl<'a> KeyInputs<'a> {
    /// The key.
    pub fn key(&self) -> (r: CacheKey)
        ensures
            r@ == key_of(*self),
    {
        let mut fields: Vec<Vec<u8>> = Vec::new();
        fields.push(text_field("key-v1"));
        fields.push(u32_to_le_bytes(SCHEMA));
        fields.push(text_field(self.phase));
        fields.push(text_field(self.agent));
        fields.push(text_field(self.model.as_str()));
        fields.push(text_field(self.toolchain.as_str()));
        fields.push(text_field(self.prompt.as_str()));
        fields.push(text_field(self.recipe.as_str()));
        fields.push(text_field(self.input_tree.as_str()));
        assert(bytes::byte_views(fields@) =~= key_fields(*self));
        CacheKey(digest::hex_of(&digest::hash(&digest::frame_all(fields.as_slice()))))
    }

    /// The record of the invocation, as the members of an object.
    pub fn meta(&self, key: &CacheKey, harness: &str) -> (r: Vec<(String, Json)>)
        ensures
            json::members(r@) == meta_view(*self, key@, harness@),
    {
        let mut m: Vec<(String, Json)> = Vec::new();
        json::set(&mut m, "schema", json::natural(SCHEMA as u64));
        json::set(&mut m, "key", json::words(key.as_str()));
        json::set(&mut m, "phase", json::words(self.phase));
        json::set(&mut m, "agent", json::words(self.agent));
        json::set(&mut m, "model", json::words(self.model.as_str()));
        json::set(&mut m, "toolchain", json::words(self.toolchain.as_str()));
        json::set(&mut m, "prompt", json::words(self.prompt.as_str()));
        json::set(&mut m, "recipe", json::words(self.recipe.as_str()));
        json::set(&mut m, "input_tree", json::words(self.input_tree.as_str()));
        json::set(&mut m, "harness", json::words(harness));
        m
    }
}

// ---------------------------------------------------------------------------
// What an entry holds
// ---------------------------------------------------------------------------

/// Why an entry cannot be served.
#[derive(Debug)]
pub enum Unusable {
    /// Its record is no JSON.
    NotJson,
    /// Its record names another invocation: the first field that differs, what is recorded of it, and
    /// what this invocation has.
    Disagrees { field: &'static str, stored: Option<Json>, computed: Json },
    /// It holds no artifact.
    NoCode,
    /// Its artifact is not the one that was recorded.
    Edited { stored: Option<String>, recomputed: String },
}

/// Why an entry cannot be served, mathematically.
pub enum Damage {
    NotJson,
    Disagrees { field: Seq<char>, stored: Option<json::JsonView>, computed: json::JsonView },
    NoCode,
    Edited { stored: Option<Seq<char>>, recomputed: Seq<char> },
}

impl View for Unusable {
    type V = Damage;

    open spec fn view(&self) -> Damage {
        match *self {
            Unusable::NotJson => Damage::NotJson,
            Unusable::Disagrees { field, stored, computed } => Damage::Disagrees {
                field: field@,
                stored: match stored {
                    Some(v) => Some(v@),
                    None => None,
                },
                computed: computed@,
            },
            Unusable::NoCode => Damage::NoCode,
            Unusable::Edited { stored, recomputed } => Damage::Edited {
                stored: match stored {
                    Some(s) => Some(s@),
                    None => None,
                },
                recomputed: recomputed@,
            },
        }
    }
}

/// The field of a record that disagrees with an invocation, the first in the order of the key, and what
/// the invocation has there.
pub open spec fn disagreement(meta: json::JsonView, k: KeyInputs) -> Option<
    (Seq<char>, json::JsonView),
> {
    if json::number_in(json::member(meta, "schema"@)) != Some(SCHEMA as u64) {
        Some(("schema"@, json::natural_view(SCHEMA as u64)))
    } else if json::text_in(json::member(meta, "phase"@)) != Some(k.phase@) {
        Some(("phase"@, json::JsonView::Text(k.phase@)))
    } else if json::text_in(json::member(meta, "agent"@)) != Some(k.agent@) {
        Some(("agent"@, json::JsonView::Text(k.agent@)))
    } else if json::text_in(json::member(meta, "model"@)) != Some(k.model@) {
        Some(("model"@, json::JsonView::Text(k.model@)))
    } else if json::text_in(json::member(meta, "toolchain"@)) != Some(k.toolchain@) {
        Some(("toolchain"@, json::JsonView::Text(k.toolchain@)))
    } else if json::text_in(json::member(meta, "prompt"@)) != Some(k.prompt@) {
        Some(("prompt"@, json::JsonView::Text(k.prompt@)))
    } else if json::text_in(json::member(meta, "recipe"@)) != Some(k.recipe@) {
        Some(("recipe"@, json::JsonView::Text(k.recipe@)))
    } else if json::text_in(json::member(meta, "input_tree"@)) != Some(k.input_tree@) {
        Some(("input_tree"@, json::JsonView::Text(k.input_tree@)))
    } else {
        None
    }
}

/// What an entry gives for an invocation: nothing where it has no record, the digest of its artifact
/// where the record is of this invocation and of this artifact, and the damage otherwise.
pub open spec fn loaded(k: KeyInputs, meta: Option<Seq<char>>, code: Option<Seq<Entry>>) -> Result<
    Option<Seq<char>>,
    Damage,
> {
    match meta {
        None => Ok(None),
        Some(t) => match json::read(t) {
            None => Err(Damage::NotJson),
            Some(m) => match disagreement(m, k) {
                Some(d) => Err(
                    Damage::Disagrees {
                        field: d.0,
                        stored: json::member(m, d.0),
                        computed: d.1,
                    },
                ),
                None => match code {
                    None => Err(Damage::NoCode),
                    Some(es) => {
                        let found = artifact::tree_digest(es, artifact::Admit::Hashed);
                        let stored = json::text_in(json::member(m, "output_tree"@));
                        if stored == Some(found) {
                            Ok(Some(found))
                        } else {
                            Err(Damage::Edited { stored, recomputed: found })
                        }
                    },
                },
            },
        },
    }
}

/// What an entry recalls of the run that made it.
pub open spec fn recalled(run: Option<Seq<char>>) -> json::JsonView {
    match run {
        Some(t) => match json::read(t) {
            Some(v) => v,
            None => json::JsonView::Null,
        },
        None => json::JsonView::Null,
    }
}

/// The files of an entry, as they were found.
#[derive(Debug)]
pub struct Found {
    /// The record.
    pub meta: Option<String>,
    /// The artifact.
    pub code: Option<Vec<Entry>>,
    /// What is told of the run.
    pub run: Option<String>,
}

impl Found {
    /// The record as a text.
    pub open spec fn record(&self) -> Option<Seq<char>> {
        match self.meta {
            Some(t) => Some(t@),
            None => None,
        }
    }

    /// The artifact as a tree.
    pub open spec fn tree(&self) -> Option<Seq<Entry>> {
        match self.code {
            Some(es) => Some(es@),
            None => None,
        }
    }

    /// What is told of the run, as a text.
    pub open spec fn told(&self) -> Option<Seq<char>> {
        match self.run {
            Some(t) => Some(t@),
            None => None,
        }
    }
}

/// What an entry gives.
#[derive(Debug)]
pub struct Loaded<P: Phase> {
    pub sealed: Sealed<P>,
    pub provenance: Json,
}

fn is_text(meta: &Json, name: &str, want: &str) -> (r: bool)
    ensures
        r == (json::text_in(json::member(meta@, name@)) == Some(want@)),
{
    match meta.get(name) {
        Some(v) => match v.as_str() {
            Some(t) => text::same_text(t, want),
            None => false,
        },
        None => false,
    }
}

fn find_disagreement(meta: &Json, k: &KeyInputs) -> (r: Option<(&'static str, Json)>)
    ensures
        r is Some <==> disagreement(meta@, *k) is Some,
        r matches Some(f) ==> disagreement(meta@, *k) == Some((f.0@, f.1@)),
{
    let schema: Option<u64> = match meta.get("schema") {
        Some(v) => v.as_u64(),
        None => None,
    };
    let known = match schema {
        Some(n) => n == SCHEMA as u64,
        None => false,
    };
    if !known {
        Some(("schema", json::natural(SCHEMA as u64)))
    } else if !is_text(meta, "phase", k.phase) {
        Some(("phase", json::words(k.phase)))
    } else if !is_text(meta, "agent", k.agent) {
        Some(("agent", json::words(k.agent)))
    } else if !is_text(meta, "model", k.model.as_str()) {
        Some(("model", json::words(k.model.as_str())))
    } else if !is_text(meta, "toolchain", k.toolchain.as_str()) {
        Some(("toolchain", json::words(k.toolchain.as_str())))
    } else if !is_text(meta, "prompt", k.prompt.as_str()) {
        Some(("prompt", json::words(k.prompt.as_str())))
    } else if !is_text(meta, "recipe", k.recipe.as_str()) {
        Some(("recipe", json::words(k.recipe.as_str())))
    } else if !is_text(meta, "input_tree", k.input_tree.as_str()) {
        Some(("input_tree", json::words(k.input_tree.as_str())))
    } else {
        None
    }
}

/// Reads an entry for an invocation and validates it: every part of the key is held against the
/// record, and the digest of the artifact is derived again, so that neither an entry of another
/// invocation nor one that was edited is served.
pub fn load<P: Phase>(k: &KeyInputs, found: &Found) -> (r: Result<Option<Loaded<P>>, Unusable>)
    ensures
        match loaded(*k, found.record(), found.tree()) {
            Ok(None) => r matches Ok(None),
            Ok(Some(d)) => r matches Ok(Some(l)) && l.sealed@ == d && l.provenance@ == recalled(
                found.told(),
            ),
            Err(e) => r matches Err(x) && x@ == e,
        },
{
    let meta = match &found.meta {
        None => {
            return Ok(None);
        },
        Some(t) => match json::parse(t.as_str()) {
            None => {
                return Err(Unusable::NotJson);
            },
            Some(m) => m,
        },
    };
    if let Some((field, computed)) = find_disagreement(&meta, k) {
        let stored = match meta.get(field) {
            Some(v) => Some(json::copy(v)),
            None => None,
        };
        return Err(Unusable::Disagrees { field, stored, computed });
    }
    let sealed: Sealed<P> = match &found.code {
        None => {
            return Err(Unusable::NoCode);
        },
        Some(es) => match Sealed::from_cache("", Some(es)) {
            Ok(s) => s,
            Err(_) => {
                return Err(Unusable::NoCode);
            },
        },
    };
    let stored: Option<String> = match meta.get("output_tree") {
        Some(v) => match v.as_str() {
            Some(t) => Some(text::copy(t)),
            None => None,
        },
        None => None,
    };
    let same = match &stored {
        Some(t) => text::same_text(t.as_str(), sealed.digest().as_str()),
        None => false,
    };
    if !same {
        return Err(
            Unusable::Edited { stored, recomputed: text::copy(sealed.digest().as_str()) },
        );
    }
    let provenance = match &found.run {
        Some(t) => match json::parse(t.as_str()) {
            Some(v) => v,
            None => Json::Null,
        },
        None => Json::Null,
    };
    Ok(Some(Loaded { sealed, provenance }))
}

/// A value that may be missing, as it is shown in a message.
pub open spec fn shown_maybe(v: Option<json::JsonView>) -> Seq<char> {
    match v {
        Some(x) => "Some("@ + json::shown_form(x) + ")"@,
        None => "None"@,
    }
}

/// A text that may be missing, as it is shown in a message.
pub open spec fn quoted_maybe(t: Option<Seq<char>>) -> Seq<char> {
    match t {
        Some(x) => "Some("@ + text::quoted_form(x) + ")"@,
        None => "None"@,
    }
}

/// What is said of an entry that cannot be served.
pub open spec fn damage_words(d: Damage) -> Seq<char> {
    match d {
        Damage::NotJson => "parsing meta.json"@,
        Damage::Disagrees { field, stored, computed } => "meta.json disagrees on "@ + field
            + ": stored "@ + shown_maybe(stored) + ", computed "@ + shown_maybe(Some(computed)),
        Damage::NoCode => "entry has no code/ directory"@,
        Damage::Edited { stored, recomputed } =>
            "code/ does not match its recorded digest (stored "@ + quoted_maybe(stored)
            + ", recomputed "@ + text::quoted_form(recomputed)
            + ") — the entry has been corrupted or edited"@,
    }
}

impl Unusable {
    /// What is said of the entry.
    pub fn message(&self) -> (r: String)
        ensures
            r@ == damage_words(self@),
    {
        match self {
            Unusable::NotJson => text::copy("parsing meta.json"),
            Unusable::Disagrees { field, stored, computed } => {
                let was = match stored {
                    Some(v) => text::join3("Some(", json::shown(v).as_str(), ")"),
                    None => text::copy("None"),
                };
                let head = text::join3("meta.json disagrees on ", field, ": stored ");
                let is = text::join3("Some(", json::shown(computed).as_str(), ")");
                let first = text::join3(head.as_str(), was.as_str(), ", computed ");
                text::join2(first.as_str(), is.as_str())
            },
            Unusable::NoCode => text::copy("entry has no code/ directory"),
            Unusable::Edited { stored, recomputed } => {
                let was = match stored {
                    Some(s) => text::join3("Some(", text::quoted(s.as_str()).as_str(), ")"),
                    None => text::copy("None"),
                };
                let head = text::join3(
                    "code/ does not match its recorded digest (stored ",
                    was.as_str(),
                    ", recomputed ",
                );
                text::join3(
                    head.as_str(),
                    text::quoted(recomputed.as_str()).as_str(),
                    ") — the entry has been corrupted or edited",
                )
            },
        }
    }
}

// ---------------------------------------------------------------------------
// The store
// ---------------------------------------------------------------------------

/// How the store behaves.
#[derive(Copy, Clone, PartialEq, Eq, Debug, Structural)]
pub enum Mode {
    /// Serve what is stored; run and store what is not.
    ReadWrite,
    /// Neither serve nor store.
    Bypass,
    /// Run, and replace what is stored.
    Refresh,
    /// Serve what is stored, and never run.
    ReplayOnly,
}

impl Mode {
    /// An entry is looked at before the agent runs.
    pub open spec fn serves(self) -> bool {
        self == Mode::ReadWrite || self == Mode::ReplayOnly
    }
}

/// The store of finished phases.
#[derive(Debug)]
pub struct Store {
    root: String,
    mode: Mode,
}

/// What a finished run leaves to be stored.
#[derive(Debug)]
pub struct Produced<P: Phase> {
    pub sealed: Sealed<P>,
    /// What is told of the run.
    pub provenance: Json,
}

/// The artifact of a phase, served or run.
#[derive(Debug)]
pub struct Obtained<P: Phase> {
    pub sealed: Sealed<P>,
    /// Whether it was served and no agent ran.
    pub replayed: bool,
    pub key: CacheKey,
    /// What is told of the run that made it: this one, or the one whose artifact was served.
    pub provenance: Json,
}

/// What the store says of an invocation before anything is run.
#[derive(Debug)]
pub enum Consulted<P: Phase> {
    /// Serve this.
    Replay(Obtained<P>),
    /// Run the agent. An entry that cannot be served is first put aside.
    Run { aside: Option<Unusable> },
    /// Nothing can be served and nothing may be run.
    Unavailable,
}

/// An entry to be written: where it is staged, where it goes, its two records, and where the transcript
/// is staged.
#[derive(Debug)]
pub struct EntryFiles {
    pub staging: String,
    pub dir: String,
    pub meta: String,
    pub run: String,
    pub transcript: String,
}

/// A run that left nothing, to be written: where it is kept, where its transcript goes, what is told of
/// it, and why it left nothing.
#[derive(Debug)]
pub struct FailedRun {
    pub dir: String,
    pub transcript: String,
    pub run: String,
    pub why: String,
}

/// What is done with the outcome of a run.
#[derive(Debug)]
pub enum Settled<P: Phase> {
    /// The agent did not finish: nothing is stored, so that a passing failure is not made a lasting
    /// one.
    Nothing,
    Done { obtained: Obtained<P>, entry: Option<EntryFiles> },
}

/// The place of the store in a repository: two levels above every directory that is walked for cases.
pub open spec fn store_root(repo_root: Seq<char>) -> Seq<char> {
    paths::joined(paths::joined(repo_root, "results"@), ".cache"@)
}

/// The place of an entry.
pub open spec fn entry_place(root: Seq<char>, k: KeyInputs, key: Seq<char>) -> Seq<char> {
    paths::joined(
        paths::joined(
            paths::joined(paths::joined(root, text::numeral(SCHEMA as nat)), k.phase@),
            k.agent@,
        ),
        key,
    )
}

/// The record of an entry: that of the invocation, and the digest of the artifact.
pub open spec fn entry_view(
    k: KeyInputs,
    key: Seq<char>,
    harness: Seq<char>,
    output: Seq<char>,
) -> json::JsonView {
    json::JsonView::Object(
        meta_view(k, key, harness).insert("output_tree"@, json::JsonView::Text(output)),
    )
}

/// The transcript in an entry.
pub open spec fn transcript_in(dir: Seq<char>) -> Seq<char> {
    paths::joined(paths::joined(dir, "agent"@), "run.log"@)
}

/// The entry of a run that finished: its place, and in it the record of the invocation and the
/// artifact, and what is told of the run. What survives of that is read back as it was.
pub open spec fn is_entry_of(
    e: EntryFiles,
    root: Seq<char>,
    k: KeyInputs,
    harness: Seq<char>,
    output: Seq<char>,
    provenance: json::JsonView,
) -> bool {
    let view = entry_view(k, key_of(k), harness, output);
    &&& e.dir@ == entry_place(root, k, key_of(k))
    &&& e.staging@ == paths::joined(paths::joined(root, "tmp"@), key_of(k) + ".partial"@)
    &&& e.meta@ == json::pretty_form(view) + "\n"@
    &&& json::read(e.meta@) == Some(view)
    &&& e.run@ == json::pretty_form(provenance) + "\n"@
    &&& json::survives(provenance) ==> json::read(e.run@) == Some(provenance) && recalled(
        Some(e.run@),
    ) == provenance
    &&& e.transcript@ == transcript_in(e.staging@)
}

/// The directory of the runs that left nothing.
pub const FAILED: &'static str = "failed";

/// The place of a run that left nothing: by its phase, agent, key and attempt, apart from the entries.
pub open spec fn failed_place(root: Seq<char>, k: KeyInputs, key: Seq<char>, attempt: nat) -> Seq<
    char,
> {
    paths::joined(
        paths::joined(
            paths::joined(
                paths::joined(
                    paths::joined(paths::joined(root, text::numeral(SCHEMA as nat)), FAILED@),
                    k.phase@,
                ),
                k.agent@,
            ),
            key,
        ),
        text::numeral(attempt),
    )
}

/// What is kept of a run that left nothing.
pub open spec fn is_failure_of(
    f: FailedRun,
    root: Seq<char>,
    k: KeyInputs,
    attempt: nat,
    why: Seq<char>,
    provenance: json::JsonView,
) -> bool {
    &&& f.dir@ == failed_place(root, k, key_of(k), attempt)
    &&& f.transcript@ == transcript_in(f.dir@)
    &&& f.run@ == json::pretty_form(provenance) + "\n"@
    &&& json::survives(provenance) ==> json::read(f.run@) == Some(provenance)
    &&& f.why@ == why
}

impl Store {
    /// Where the store is.
    pub closed spec fn place(&self) -> Seq<char> {
        self.root@
    }

    /// How it behaves.
    pub closed spec fn behaviour(&self) -> Mode {
        self.mode
    }

    /// The store of a repository.
    pub fn open(repo_root: &str, mode: Mode) -> (r: Store)
        ensures
            r.place() == store_root(repo_root@),
            r.behaviour() == mode,
    {
        Store { root: paths::join3(repo_root, "results", ".cache"), mode }
    }

    /// Where an entry is staged before it is moved into place.
    pub fn staging_root(&self) -> (r: String)
        ensures
            r@ == paths::joined(self.place(), "tmp"@),
    {
        paths::join(self.root.as_str(), "tmp")
    }

    /// Whether an entry is looked at before the agent runs.
    pub fn reads(&self) -> (r: bool)
        ensures
            r == self.behaviour().serves(),
    {
        match self.mode {
            Mode::ReadWrite | Mode::ReplayOnly => true,
            Mode::Bypass | Mode::Refresh => false,
        }
    }

    /// The place of the entry of an invocation.
    pub fn entry_dir(&self, k: &KeyInputs, key: &CacheKey) -> (r: String)
        ensures
            r@ == entry_place(self.place(), *k, key@),
    {
        let schema = text::numeral_of(SCHEMA as u64);
        let phase = paths::join3(self.root.as_str(), schema.as_str(), k.phase);
        paths::join3(phase.as_str(), k.agent, key.as_str())
    }

    /// Where an entry that cannot be served is put aside, so that it can still be examined.
    pub fn quarantine_dir(&self, key: &CacheKey) -> (r: String)
        ensures
            r@ == paths::joined(paths::joined(self.place(), "quarantine"@), key@),
    {
        paths::join3(self.root.as_str(), "quarantine", key.as_str())
    }

    /// The transcript that an entry keeps.
    pub fn transcript_of(&self, k: &KeyInputs, key: &CacheKey) -> (r: String)
        ensures
            r@ == transcript_in(entry_place(self.place(), *k, key@)),
    {
        paths::join3(self.entry_dir(k, key).as_str(), "agent", "run.log")
    }

    /// What the store says of an invocation: serve the entry where it may be served and validates,
    /// and run the agent otherwise, where it may be run. A damaged entry is a miss.
    pub fn consult<P: Phase>(&self, k: &KeyInputs, found: &Found) -> (r: Consulted<P>)
        ensures
            !self.behaviour().serves() ==> (r matches Consulted::Run { aside } && aside is None),
            self.behaviour().serves() ==> match loaded(*k, found.record(), found.tree()) {
                Ok(Some(d)) => r matches Consulted::Replay(o) && o.sealed@ == d && o.replayed
                    && o.key@ == key_of(*k) && o.provenance@ == recalled(found.told()),
                Ok(None) => if self.behaviour() == Mode::ReplayOnly {
                    r is Unavailable
                } else {
                    r matches Consulted::Run { aside } && aside is None
                },
                Err(e) => if self.behaviour() == Mode::ReplayOnly {
                    r is Unavailable
                } else {
                    r matches Consulted::Run { aside } && (aside matches Some(x) && x@ == e)
                },
            },
            self.behaviour() == Mode::ReplayOnly ==> !(r is Run),
    {
        if !self.reads() {
            return Consulted::Run { aside: None };
        }
        let may_run = match self.mode {
            Mode::ReplayOnly => false,
            _ => true,
        };
        match load::<P>(k, found) {
            Ok(Some(l)) => Consulted::Replay(
                Obtained {
                    sealed: l.sealed,
                    replayed: true,
                    key: k.key(),
                    provenance: l.provenance,
                },
            ),
            Ok(None) => if may_run {
                Consulted::Run { aside: None }
            } else {
                Consulted::Unavailable
            },
            Err(e) => if may_run {
                Consulted::Run { aside: Some(e) }
            } else {
                Consulted::Unavailable
            },
        }
    }

    /// What is done with the outcome of a run: nothing where the agent did not finish, and otherwise
    /// the artifact is handed on, with an entry to write unless the store is bypassed.
    pub fn settle<P: Phase>(&self, k: &KeyInputs, harness: &str, produced: Option<Produced<P>>) -> (r:
        Settled<P>)
        ensures
            match produced {
                None => r is Nothing,
                Some(p) => r matches Settled::Done { obtained, entry } && {
                    &&& obtained.sealed@ == p.sealed@
                    &&& !obtained.replayed
                    &&& obtained.key@ == key_of(*k)
                    &&& obtained.provenance@ == p.provenance@
                    &&& entry is None <==> self.behaviour() == Mode::Bypass
                    &&& entry matches Some(e) ==> is_entry_of(
                        e,
                        self.place(),
                        *k,
                        harness@,
                        p.sealed@,
                        p.provenance@,
                    )
                },
            },
    {
        let p = match produced {
            None => {
                return Settled::Nothing;
            },
            Some(p) => p,
        };
        let key = k.key();
        let entry = match self.mode {
            Mode::Bypass => None,
            _ => {
                let mut m = k.meta(&key, harness);
                json::set(&mut m, "output_tree", json::words(p.sealed.digest().as_str()));
                let record = Json::Object(m);
                proof {
                    let view = entry_view(*k, key@, harness@, p.sealed@);
                    assert(record@ == view);
                    json::lemma_plain_members_survive(view);
                }
                let mut meta = json::pretty(&record);
                meta.append("\n");
                let mut run = json::pretty(&p.provenance);
                run.append("\n");
                let partial = text::join2(key.as_str(), ".partial");
                let staging = paths::join3(self.root.as_str(), "tmp", partial.as_str());
                let transcript = paths::join3(staging.as_str(), "agent", "run.log");
                Some(EntryFiles { staging, dir: self.entry_dir(k, &key), meta, run, transcript })
            },
        };
        Settled::Done {
            obtained: Obtained {
                sealed: p.sealed,
                replayed: false,
                key,
                provenance: p.provenance,
            },
            entry,
        }
    }
}

impl Store {
    /// What is kept of a run that left nothing. The transcript is part of it: the next attempt writes
    /// over the one beside the artifact. `earlier` is how many runs of this key left nothing before.
    pub fn record_failure(&self, k: &KeyInputs, earlier: u32, why: &str, provenance: &Json) -> (r:
        FailedRun)
        ensures
            is_failure_of(r, self.place(), *k, earlier as nat + 1, why@, provenance@),
    {
        let schema = text::numeral_of(SCHEMA as u64);
        let attempt = text::numeral_of(earlier as u64 + 1);
        let failed = paths::join3(self.root.as_str(), schema.as_str(), FAILED);
        let who = paths::join3(failed.as_str(), k.phase, k.agent);
        let dir = paths::join3(who.as_str(), k.key().as_str(), attempt.as_str());
        let transcript = paths::join3(dir.as_str(), "agent", "run.log");
        let mut run = json::pretty(provenance);
        run.append("\n");
        FailedRun { dir, transcript, run, why: text::copy(why) }
    }
}

/// The bytes of files.
pub open spec fn total_of(sizes: Seq<u64>) -> nat
    decreases sizes.len(),
{
    if sizes.len() == 0 {
        0
    } else {
        total_of(sizes.drop_last()) + sizes.last() as nat
    }
}

/// The bytes of entries.
pub open spec fn total_bytes(entries: Seq<Vec<u64>>) -> nat
    decreases entries.len(),
{
    if entries.len() == 0 {
        0
    } else {
        total_bytes(entries.drop_last()) + total_of(entries.last()@)
    }
}

proof fn lemma_total_grows(sizes: Seq<u64>, n: int)
    requires
        0 <= n <= sizes.len(),
    ensures
        total_of(sizes.subrange(0, n)) <= total_of(sizes),
    decreases sizes.len() - n,
{
    if n == sizes.len() {
        assert(sizes.subrange(0, n) =~= sizes);
    } else {
        assert(sizes.subrange(0, n + 1).drop_last() =~= sizes.subrange(0, n));
        lemma_total_grows(sizes, n + 1);
    }
}

proof fn lemma_bytes_grow(entries: Seq<Vec<u64>>, n: int)
    requires
        0 <= n <= entries.len(),
    ensures
        total_bytes(entries.subrange(0, n)) <= total_bytes(entries),
    decreases entries.len() - n,
{
    if n == entries.len() {
        assert(entries.subrange(0, n) =~= entries);
    } else {
        assert(entries.subrange(0, n + 1).drop_last() =~= entries.subrange(0, n));
        lemma_bytes_grow(entries, n + 1);
    }
}

/// How many entries there are and how many bytes they hold, by the sizes of the files of each.
pub fn stats(entries: &[Vec<u64>]) -> (r: (usize, u64))
    requires
        total_bytes(entries@) <= u64::MAX,
    ensures
        r.0 == entries@.len(),
        r.1 == total_bytes(entries@),
{
    let mut bytes: u64 = 0;
    let mut i: usize = 0;
    while i < entries.len()
        invariant
            i <= entries.len(),
            total_bytes(entries@) <= u64::MAX,
            bytes == total_bytes(entries@.subrange(0, i as int)),
        decreases entries.len() - i,
    {
        let ghost now = entries@.subrange(0, i + 1);
        assert(now.drop_last() =~= entries@.subrange(0, i as int));
        assert(now.last() == entries@[i as int]);
        proof {
            lemma_bytes_grow(entries@, i + 1);
        }
        let sizes = &entries[i];
        let ghost before = bytes;
        let mut j: usize = 0;
        while j < sizes.len()
            invariant
                j <= sizes.len(),
                before + total_of(sizes@) <= u64::MAX,
                bytes == before + total_of(sizes@.subrange(0, j as int)),
            decreases sizes.len() - j,
        {
            assert(sizes@.subrange(0, j + 1).drop_last() =~= sizes@.subrange(0, j as int));
            proof {
                lemma_total_grows(sizes@, j + 1);
            }
            bytes = bytes + sizes[j];
            j = j + 1;
        }
        assert(sizes@.subrange(0, sizes.len() as int) =~= sizes@);
        i = i + 1;
    }
    assert(entries@.subrange(0, entries.len() as int) =~= entries@);
    (entries.len(), bytes)
}

// ---------------------------------------------------------------------------
// Laws
// ---------------------------------------------------------------------------

/// Every part of a key is short enough for its length to be framed.
pub open spec fn keyable(k: KeyInputs) -> bool {
    digest::frameable(key_fields(k))
}

proof fn lemma_encoding_is_injective(a: Seq<char>, b: Seq<char>)
    requires
        encode_utf8(a) == encode_utf8(b),
    ensures
        a == b,
{
    encode_utf8_decode_utf8(a);
    encode_utf8_decode_utf8(b);
}

/// What is hashed for a key determines every part of it: another phase, agent, model, toolchain,
/// prompt, recipe or input is another thing to hash.
pub proof fn law_what_is_keyed_determines_every_part(one: KeyInputs, other: KeyInputs)
    requires
        keyable(one),
        keyable(other),
        digest::frames(key_fields(one)) == digest::frames(key_fields(other)),
    ensures
        key_parts(one) == key_parts(other),
{
    digest::law_framing_is_injective(key_fields(one), key_fields(other));
    let a = key_fields(one);
    let b = key_fields(other);
    assert(a[2] == b[2] && a[3] == b[3] && a[4] == b[4] && a[5] == b[5] && a[6] == b[6] && a[7]
        == b[7] && a[8] == b[8]);
    lemma_encoding_is_injective(one.phase@, other.phase@);
    lemma_encoding_is_injective(one.agent@, other.agent@);
    lemma_encoding_is_injective(one.model@, other.model@);
    lemma_encoding_is_injective(one.toolchain@, other.toolchain@);
    lemma_encoding_is_injective(one.prompt@, other.prompt@);
    lemma_encoding_is_injective(one.recipe@, other.recipe@);
    lemma_encoding_is_injective(one.input_tree@, other.input_tree@);
    assert(key_parts(one) =~= key_parts(other));
}

/// The same parts give the same key.
pub proof fn law_a_key_is_stable(one: KeyInputs, other: KeyInputs)
    requires
        key_parts(one) == key_parts(other),
    ensures
        key_of(one) == key_of(other),
{
    let a = key_parts(one);
    let b = key_parts(other);
    assert(a[0] == b[0] && a[1] == b[1] && a[2] == b[2] && a[3] == b[3] && a[4] == b[4] && a[5]
        == b[5] && a[6] == b[6]);
    assert(key_fields(one) =~= key_fields(other));
}

/// The order in which the settings of a recipe are given does not change its digest.
pub proof fn law_a_recipe_forgets_the_order_of_its_settings(one: Recipe, other: Recipe)
    requires
        one.max_turns == other.max_turns,
        one.permission_mode@ == other.permission_mode@,
        one.timeout_secs == other.timeout_secs,
        one.ulimit_fsize_blocks == other.ulimit_fsize_blocks,
        one.ulimit_data_kb == other.ulimit_data_kb,
        one.agents_json@ == other.agents_json@,
        one.sandbox_shape@ == other.sandbox_shape@,
        text::pair_views(one.agent_env@).to_multiset() == text::pair_views(
            other.agent_env@,
        ).to_multiset(),
    ensures
        recipe_fields(one) == recipe_fields(other),
{
    text::lemma_pairs_in_order_forget_order(
        text::pair_views(one.agent_env@),
        text::pair_views(other.agent_env@),
    );
    assert(recipe_fields(one) =~= recipe_fields(other));
}

proof fn lemma_pair_fields_injective(
    a: Seq<(Seq<char>, Seq<char>)>,
    b: Seq<(Seq<char>, Seq<char>)>,
)
    requires
        pair_fields(a) == pair_fields(b),
    ensures
        a == b,
    decreases a.len(),
{
    lemma_pair_fields_len(a);
    lemma_pair_fields_len(b);
    if a.len() > 0 {
        let x = pair_fields(a);
        let y = pair_fields(b);
        let n = x.len() as int;
        assert(pair_fields(a.drop_last()) =~= x.subrange(0, n - 2));
        assert(pair_fields(b.drop_last()) =~= y.subrange(0, n - 2));
        lemma_pair_fields_injective(a.drop_last(), b.drop_last());
        assert(x[n - 2] == encode_utf8(a.last().0));
        assert(y[n - 2] == encode_utf8(b.last().0));
        assert(x[n - 1] == encode_utf8(a.last().1));
        assert(y[n - 1] == encode_utf8(b.last().1));
        lemma_encoding_is_injective(a.last().0, b.last().0);
        lemma_encoding_is_injective(a.last().1, b.last().1);
        assert(a =~= a.drop_last().push(a.last()));
        assert(b =~= b.drop_last().push(b.last()));
    } else {
        assert(a =~= b);
    }
}

proof fn lemma_pair_fields_len(a: Seq<(Seq<char>, Seq<char>)>)
    ensures
        pair_fields(a).len() == 2 * a.len(),
    decreases a.len(),
{
    if a.len() > 0 {
        lemma_pair_fields_len(a.drop_last());
    }
}

/// What is hashed of a recipe determines everything in it: another cap, limit, policy or setting is
/// another thing to hash.
pub proof fn law_what_is_hashed_determines_the_recipe(one: Recipe, other: Recipe)
    requires
        digest::frameable(recipe_fields(one)),
        digest::frameable(recipe_fields(other)),
        digest::frames(recipe_fields(one)) == digest::frames(recipe_fields(other)),
    ensures
        one.max_turns == other.max_turns,
        one.permission_mode@ == other.permission_mode@,
        one.timeout_secs == other.timeout_secs,
        one.ulimit_fsize_blocks == other.ulimit_fsize_blocks,
        one.ulimit_data_kb == other.ulimit_data_kb,
        one.agents_json@ == other.agents_json@,
        one.sandbox_shape@ == other.sandbox_shape@,
        text::pairs_in_order(text::pair_views(one.agent_env@)) == text::pairs_in_order(
            text::pair_views(other.agent_env@),
        ),
{
    digest::law_framing_is_injective(recipe_fields(one), recipe_fields(other));
    let a = recipe_fields(one);
    let b = recipe_fields(other);
    assert(a[1] == b[1] && a[2] == b[2] && a[3] == b[3] && a[4] == b[4] && a[5] == b[5] && a[6]
        == b[6] && a[7] == b[7]);
    lemma_auto_spec_u32_to_from_le_bytes();
    lemma_auto_spec_u64_to_from_le_bytes();
    assert(spec_u32_from_le_bytes(a[1]) == one.max_turns);
    assert(spec_u32_from_le_bytes(b[1]) == other.max_turns);
    assert(spec_u64_from_le_bytes(a[3]) == one.timeout_secs);
    assert(spec_u64_from_le_bytes(b[3]) == other.timeout_secs);
    assert(spec_u64_from_le_bytes(a[4]) == one.ulimit_fsize_blocks);
    assert(spec_u64_from_le_bytes(b[4]) == other.ulimit_fsize_blocks);
    assert(spec_u64_from_le_bytes(a[5]) == one.ulimit_data_kb);
    assert(spec_u64_from_le_bytes(b[5]) == other.ulimit_data_kb);
    lemma_encoding_is_injective(one.permission_mode@, other.permission_mode@);
    lemma_encoding_is_injective(one.agents_json@, other.agents_json@);
    lemma_encoding_is_injective(one.sandbox_shape@, other.sandbox_shape@);
    let x = pair_fields(text::pairs_in_order(text::pair_views(one.agent_env@)));
    let y = pair_fields(text::pairs_in_order(text::pair_views(other.agent_env@)));
    assert(x =~= a.subrange(8, a.len() as int));
    assert(y =~= b.subrange(8, b.len() as int));
    lemma_pair_fields_injective(
        text::pairs_in_order(text::pair_views(one.agent_env@)),
        text::pairs_in_order(text::pair_views(other.agent_env@)),
    );
}

/// What was stored is served: an entry whose record was written for an invocation and an artifact
/// gives that artifact back for the same invocation.
pub proof fn law_what_was_stored_is_served(
    k: KeyInputs,
    harness: Seq<char>,
    meta: Seq<char>,
    code: Seq<Entry>,
)
    requires
        json::read(meta) == Some(
            entry_view(
                k,
                key_of(k),
                harness,
                artifact::tree_digest(code, artifact::Admit::Hashed),
            ),
        ),
    ensures
        loaded(k, Some(meta), Some(code)) == Ok::<Option<Seq<char>>, Damage>(
            Some(artifact::tree_digest(code, artifact::Admit::Hashed)),
        ),
{
    lemma_record_names();
}

/// A record is read back field by field: no name of it stands for another.
proof fn lemma_record_names()
    ensures
        "schema"@.len() == 6 && "schema"@[0] == 's',
        "prompt"@.len() == 6 && "prompt"@[0] == 'p',
        "recipe"@.len() == 6 && "recipe"@[0] == 'r',
        "phase"@.len() == 5 && "phase"@[0] == 'p',
        "agent"@.len() == 5 && "agent"@[0] == 'a',
        "model"@.len() == 5 && "model"@[0] == 'm',
        "key"@.len() == 3,
        "toolchain"@.len() == 9,
        "input_tree"@.len() == 10,
        "harness"@.len() == 7,
        "output_tree"@.len() == 11,
{
    reveal_strlit("schema");
    reveal_strlit("prompt");
    reveal_strlit("recipe");
    reveal_strlit("phase");
    reveal_strlit("agent");
    reveal_strlit("model");
    reveal_strlit("key");
    reveal_strlit("toolchain");
    reveal_strlit("input_tree");
    reveal_strlit("harness");
    reveal_strlit("output_tree");
}

/// An entry is served only where its artifact has the digest that was recorded: one that was edited
/// or damaged is never served.
pub proof fn law_an_edited_entry_is_not_served(
    k: KeyInputs,
    meta: Seq<char>,
    code: Seq<Entry>,
    view: json::JsonView,
)
    requires
        json::read(meta) == Some(view),
        json::text_in(json::member(view, "output_tree"@)) != Some(
            artifact::tree_digest(code, artifact::Admit::Hashed),
        ),
    ensures
        loaded(k, Some(meta), Some(code)) is Err,
{
}

/// An entry that was recorded for another invocation is never served, whatever key it lies under.
pub proof fn law_an_entry_serves_its_own_invocation_alone(
    k: KeyInputs,
    other: KeyInputs,
    harness: Seq<char>,
    output: Seq<char>,
    meta: Seq<char>,
    code: Option<Seq<Entry>>,
)
    requires
        json::read(meta) == Some(entry_view(other, key_of(other), harness, output)),
        key_parts(k) != key_parts(other),
    ensures
        loaded(k, Some(meta), code) is Err,
{
    lemma_record_names();
    let view = entry_view(other, key_of(other), harness, output);
    assert(json::text_in(json::member(view, "phase"@)) == Some(other.phase@));
    assert(json::text_in(json::member(view, "agent"@)) == Some(other.agent@));
    assert(json::text_in(json::member(view, "model"@)) == Some(other.model@));
    assert(json::text_in(json::member(view, "toolchain"@)) == Some(other.toolchain@));
    assert(json::text_in(json::member(view, "prompt"@)) == Some(other.prompt@));
    assert(json::text_in(json::member(view, "recipe"@)) == Some(other.recipe@));
    assert(json::text_in(json::member(view, "input_tree"@)) == Some(other.input_tree@));
    if disagreement(view, k) is None {
        assert(key_parts(k) =~= key_parts(other));
    }
}

/// The harness that made an entry is recorded and not keyed: another harness is served it all the
/// same.
pub proof fn law_the_harness_is_recorded_and_not_keyed(
    k: KeyInputs,
    harness: Seq<char>,
    output: Seq<char>,
)
    ensures
        json::text_in(json::member(entry_view(k, key_of(k), harness, output), "harness"@)) == Some(
            harness,
        ),
        disagreement(entry_view(k, key_of(k), harness, output), k) is None,
{
    lemma_record_names();
}

/// A token: it begins with a dollar sign and holds no separator.
pub open spec fn is_token(t: Seq<char>) -> bool {
    t.len() > 0 && t[0] == '$' && forall|i: int| 0 <= i < t.len() ==> t[i] != '/'
}

/// An absolute path that holds no dollar sign.
pub open spec fn is_plain_path(p: Seq<char>) -> bool {
    p.len() > 0 && p[0] == '/' && forall|i: int| 0 <= i < p.len() ==> p[i] != '$'
}

proof fn lemma_replacing_brings_no_path(s: Seq<char>, from: Seq<char>, to: Seq<char>, p: Seq<char>)
    requires
        is_token(to),
        is_plain_path(p),
        text::found(text::replaced(s, from, to), p),
    ensures
        text::found(s, p),
        from != p,
    decreases s.len(),
{
    let r = text::replaced(s, from, to);
    let at = choose|i: int| text::occurs_at(r, p, i);
    assert(text::occurs_at(r, p, at));
    if from.len() == 0 {
        assert(r == s);
    } else {
        match text::index_from(s, from, 0) {
            None => {
                assert(r == s);
                text::lemma_has_iff_indexed(s, from);
            },
            Some(i) => {
                text::lemma_has_iff_indexed(s, from);
                assert(text::occurs_at(s, from, i));
                let rest = s.subrange(i + from.len(), s.len() as int);
                let tail = text::replaced(rest, from, to);
                assert(r == s.subrange(0, i) + to + tail);
                let n = p.len() as int;
                assert(r.subrange(at, at + n) == p);
                assert(r[at] == p[0]) by {
                    assert(r.subrange(at, at + n)[0] == p[0]);
                }
                if at + n <= i {
                    assert(s.subrange(at, at + n) =~= r.subrange(at, at + n));
                    assert(text::occurs_at(s, p, at));
                    if from == p {
                        assert(!text::occurs_at(s, from, at));
                    }
                } else if at <= i {
                    assert(r[i] == to[0]);
                    assert(r.subrange(at, at + n)[i - at] == p[i - at]);
                    assert(false);
                } else if at < i + to.len() {
                    assert(r[at] == to[at - i]);
                    assert(false);
                } else {
                    let q = at - i - to.len();
                    assert(tail.subrange(q, q + n) =~= r.subrange(at, at + n));
                    assert(text::occurs_at(tail, p, q));
                    lemma_replacing_brings_no_path(rest, from, to, p);
                    let w = choose|j: int| text::occurs_at(rest, p, j);
                    assert(text::occurs_at(rest, p, w));
                    assert(s.subrange(i + from.len() + w, i + from.len() + w + n)
                        =~= rest.subrange(w, w + n));
                    assert(text::occurs_at(s, p, i + from.len() + w));
                }
            },
        }
    }
}

proof fn lemma_placed_members(s: Seq<Substitution>, x: Substitution)
    ensures
        forall|y: Substitution| #[trigger] placed(s, x).contains(y) <==> s.contains(y) || y == x,
    decreases s.len(),
{
    let p = placed(s, x);
    if s.len() == 0 {
        assert(p == seq![x]);
        assert(p[0] == x);
    } else if byte_len(s.last().0) >= byte_len(x.0) {
        assert(p == s.push(x));
        assert forall|y: Substitution| #[trigger] p.contains(y) <==> s.contains(y) || y == x by {
            if s.contains(y) {
                let k = choose|k: int| 0 <= k < s.len() && s[k] == y;
                assert(p[k] == y);
            }
            assert(p[s.len() as int] == x);
        }
    } else {
        let d = s.drop_last();
        lemma_placed_members(d, x);
        let q = placed(d, x);
        assert(p == q.push(s.last()));
        assert forall|y: Substitution| #[trigger] p.contains(y) <==> s.contains(y) || y == x by {
            if p.contains(y) {
                let k = choose|k: int| 0 <= k < p.len() && p[k] == y;
                if k < q.len() {
                    assert(q[k] == y);
                    assert(q.contains(y));
                    if d.contains(y) {
                        let m = choose|m: int| 0 <= m < d.len() && d[m] == y;
                        assert(s[m] == y);
                    }
                } else {
                    assert(s[s.len() - 1] == y);
                }
            }
            if s.contains(y) {
                let k = choose|k: int| 0 <= k < s.len() && s[k] == y;
                if k < d.len() {
                    assert(d[k] == y);
                    assert(d.contains(y));
                    assert(q.contains(y));
                    let m = choose|m: int| 0 <= m < q.len() && q[m] == y;
                    assert(p[m] == y);
                } else {
                    assert(p[q.len() as int] == y);
                }
            }
            if y == x {
                assert(q.contains(x));
                let m = choose|m: int| 0 <= m < q.len() && q[m] == x;
                assert(p[m] == x);
            }
        }
    }
}

proof fn lemma_longest_first_members(s: Seq<Substitution>)
    ensures
        forall|y: Substitution| #[trigger] longest_first(s).contains(y) <==> s.contains(y),
    decreases s.len(),
{
    if s.len() > 0 {
        let d = s.drop_last();
        lemma_longest_first_members(d);
        lemma_placed_members(longest_first(d), s.last());
        assert forall|y: Substitution| #[trigger] longest_first(s).contains(y) <==> s.contains(
            y,
        ) by {
            assert(placed(longest_first(d), s.last()).contains(y) <==> longest_first(d).contains(y)
                || y == s.last());
            if d.contains(y) {
                let k = choose|k: int| 0 <= k < d.len() && d[k] == y;
                assert(s[k] == y);
            }
            if s.contains(y) {
                let k = choose|k: int| 0 <= k < s.len() && s[k] == y;
                if k < d.len() {
                    assert(d[k] == y);
                }
            }
            assert(s[s.len() - 1] == s.last());
        }
    }
}

proof fn lemma_substituting_leaves_no_path(t: Seq<char>, s: Seq<Substitution>, p: Seq<char>)
    requires
        is_plain_path(p),
        forall|i: int| 0 <= i < s.len() ==> is_token((#[trigger] s[i]).1),
        exists|i: int| 0 <= i < s.len() && (#[trigger] s[i]).0 == p,
    ensures
        !text::found(substituted(t, s), p),
    decreases s.len(),
{
    let d = s.drop_last();
    let before = substituted(t, d);
    if text::found(substituted(t, s), p) {
        assert(is_token(s[s.len() - 1].1));
        lemma_replacing_brings_no_path(before, s.last().0, s.last().1, p);
        let i = choose|i: int| 0 <= i < s.len() && (#[trigger] s[i]).0 == p;
        assert(i < s.len() - 1);
        assert(d[i] == s[i]);
        assert forall|k: int| 0 <= k < d.len() implies is_token((#[trigger] d[k]).1) by {
            assert(s[k] == d[k]);
        }
        lemma_substituting_leaves_no_path(t, d, p);
    }
}

/// No path of this machine survives: neither the work tree, nor the repository, nor the directory of
/// all work trees, nor the user's own, where each is an absolute path without a dollar sign.
pub proof fn law_no_path_of_this_machine_survives(
    t: Seq<char>,
    work_root: Seq<char>,
    repo_root: Seq<char>,
    base: Option<&str>,
    home: Option<&str>,
)
    ensures
        is_plain_path(work_root) ==> !text::found(
            normalised(t, work_root, repo_root, base, home),
            work_root,
        ),
        is_plain_path(repo_root) ==> !text::found(
            normalised(t, work_root, repo_root, base, home),
            repo_root,
        ),
        base matches Some(b) ==> is_plain_path(b@) ==> !text::found(
            normalised(t, work_root, repo_root, base, home),
            b@,
        ),
        home matches Some(h) ==> is_plain_path(h@) ==> !text::found(
            normalised(t, work_root, repo_root, base, home),
            h@,
        ),
{
    reveal_strlit("$WORK");
    reveal_strlit("$REPO");
    reveal_strlit("$WORKBASE");
    reveal_strlit("$HOME");
    let all = machine_paths(work_root, repo_root, base, home);
    let order = longest_first(all);
    lemma_longest_first_members(all);
    assert(is_token("$WORK"@));
    assert(is_token("$REPO"@));
    assert(is_token("$WORKBASE"@));
    assert(is_token("$HOME"@));
    assert forall|i: int| 0 <= i < order.len() implies is_token((#[trigger] order[i]).1) by {
        assert(order.contains(order[i]));
        assert(all.contains(order[i]));
        let k = choose|k: int| 0 <= k < all.len() && all[k] == order[i];
        assert(k == 0 || k == 1 || k == 2 || k == 3);
    }
    assert forall|k: int| 0 <= k < all.len() && is_plain_path((#[trigger] all[k]).0) implies !text::found(
        substituted(t, order),
        all[k].0,
    ) by {
        assert(all.contains(all[k]));
        assert(order.contains(all[k]));
        let i = choose|i: int| 0 <= i < order.len() && order[i] == all[k];
        assert(order[i].0 == all[k].0);
        lemma_substituting_leaves_no_path(t, order, all[k].0);
    }
    assert(all[0].0 == work_root);
    assert(all[1].0 == repo_root);
    if let Some(b) = base {
        assert(all[2].0 == b@);
    }
    if let Some(h) = home {
        assert(all[all.len() - 1].0 == h@);
    }
}

/// A model is named by a text that is not blank and holds none of the four characters that a shell
/// would read inside its quotes.
pub proof fn law_a_model_holds_nothing_that_a_shell_reads(s: Seq<char>, i: int)
    ensures
        names_model(s) && 0 <= i < s.len() ==> s[i] != '\'' && s[i] != '`' && s[i] != '$' && s[i]
            != '\n',
        names_model(s) ==> exists|k: int| 0 <= k < s.len() && !text::is_space(#[trigger] s[k]),
        (forall|k: int|
            0 <= k < s.len() ==> #[trigger] s[k] != '\'' && s[k] != '`' && s[k] != '$' && s[k]
                != '\n') && (exists|k: int| 0 <= k < s.len() && !text::is_space(#[trigger] s[k]))
            ==> names_model(s),
{
    text::law_a_trimmed_text_has_no_blank_at_its_ends(s);
}

/// What a compiler reports is read from the first line that begins with the word, without the blanks
/// around it, and is a question mark where no line does.
pub proof fn law_a_report_is_read_from_its_first_line(
    lines: Seq<Seq<char>>,
    line: Seq<char>,
    word: Seq<char>,
    value: Seq<char>,
)
    ensures
        line_value(lines, word) is Some ==> line_value(lines.push(line), word) == line_value(
            lines,
            word,
        ),
        line_value(lines, word) is None ==> line_value(lines.push(word + value), word) == Some(
            text::trimmed(value),
        ),
        line_value(lines, word) is None && !text::begins(line, word) ==> line_value(
            lines.push(line),
            word,
        ) is None,
        line_value(Seq::empty(), word) is None,
        line_value(text::lines(value), word) is None ==> reported(value, word) == "?"@,
        line_value(text::lines(value), word) matches Some(v) ==> reported(value, word) == v,
{
    assert(lines.push(line).drop_last() =~= lines);
    let l = word + value;
    assert(lines.push(l).drop_last() =~= lines);
    assert(l.subrange(0, word.len() as int) =~= word);
    assert(l.subrange(word.len() as int, l.len() as int) =~= value);
}

proof fn lemma_placed(s: Seq<Substitution>, x: Substitution)
    requires
        forall|i: int, j: int|
            0 <= i < j < s.len() ==> byte_len((#[trigger] s[i]).0) >= byte_len((#[trigger] s[j]).0),
    ensures
        forall|i: int, j: int|
            0 <= i < j < placed(s, x).len() ==> byte_len((#[trigger] placed(s, x)[i]).0) >= byte_len(
                (#[trigger] placed(s, x)[j]).0,
            ),
        forall|y: Substitution| #[trigger] placed(s, x).contains(y) <==> s.contains(y) || y == x,
        placed(s, x).len() == s.len() + 1,
    decreases s.len(),
{
    let p = placed(s, x);
    if s.len() == 0 {
        assert(p[0] == x);
    } else if byte_len(s.last().0) >= byte_len(x.0) {
        assert forall|i: int, j: int| 0 <= i < j < p.len() implies byte_len((#[trigger] p[i]).0)
            >= byte_len((#[trigger] p[j]).0) by {
            assert(p[i] == s[i]);
            if j < s.len() {
                assert(p[j] == s[j]);
            } else if i < s.len() - 1 {
                assert(byte_len(s[i].0) >= byte_len(s[s.len() - 1].0));
            }
        }
        assert forall|y: Substitution| #[trigger] p.contains(y) <==> s.contains(y) || y == x by {
            if p.contains(y) {
                let i = choose|i: int| 0 <= i < p.len() && p[i] == y;
                if i < s.len() {
                    assert(s[i] == y);
                }
            }
            if s.contains(y) {
                let i = choose|i: int| 0 <= i < s.len() && s[i] == y;
                assert(p[i] == y);
            }
            assert(p[p.len() - 1] == x);
        }
    } else {
        let d = s.drop_last();
        assert forall|i: int, j: int| 0 <= i < j < d.len() implies byte_len((#[trigger] d[i]).0)
            >= byte_len((#[trigger] d[j]).0) by {
            assert(d[i] == s[i] && d[j] == s[j]);
        }
        lemma_placed(d, x);
        let q = placed(d, x);
        assert forall|i: int, j: int| 0 <= i < j < p.len() implies byte_len((#[trigger] p[i]).0)
            >= byte_len((#[trigger] p[j]).0) by {
            assert(p[i] == q[i]);
            if j < q.len() {
                assert(p[j] == q[j]);
            } else {
                assert(q.contains(q[i]));
                if d.contains(q[i]) {
                    let k = choose|k: int| 0 <= k < d.len() && d[k] == q[i];
                    assert(byte_len(s[k].0) >= byte_len(s[s.len() - 1].0));
                }
            }
        }
        assert forall|y: Substitution| #[trigger] p.contains(y) <==> s.contains(y) || y == x by {
            if p.contains(y) {
                let i = choose|i: int| 0 <= i < p.len() && p[i] == y;
                if i < q.len() {
                    assert(q[i] == y);
                    assert(q.contains(y));
                    if d.contains(y) {
                        let k = choose|k: int| 0 <= k < d.len() && d[k] == y;
                        assert(s[k] == y);
                    }
                } else {
                    assert(s[s.len() - 1] == y);
                }
            }
            if s.contains(y) || y == x {
                if y != x {
                    let k = choose|k: int| 0 <= k < s.len() && s[k] == y;
                    if k < d.len() {
                        assert(d[k] == y);
                        assert(d.contains(y));
                    }
                }
                if d.contains(y) || y == x {
                    assert(q.contains(y));
                    let i = choose|i: int| 0 <= i < q.len() && q[i] == y;
                    assert(p[i] == y);
                } else {
                    assert(p[p.len() - 1] == y);
                }
            }
        }
    }
}

/// Paths are put as tokens from the longest down, so that none is taken for the beginning of another;
/// each of them is, and nothing else.
pub proof fn law_the_longest_path_is_put_first(s: Seq<Substitution>)
    ensures
        forall|i: int, j: int|
            0 <= i < j < longest_first(s).len() ==> byte_len((#[trigger] longest_first(s)[i]).0)
                >= byte_len((#[trigger] longest_first(s)[j]).0),
        forall|y: Substitution| #[trigger] longest_first(s).contains(y) <==> s.contains(y),
        longest_first(s).len() == s.len(),
    decreases s.len(),
{
    if s.len() > 0 {
        let d = s.drop_last();
        law_the_longest_path_is_put_first(d);
        lemma_placed(longest_first(d), s.last());
        assert forall|y: Substitution| #[trigger] longest_first(s).contains(y) <==> s.contains(
            y,
        ) by {
            assert(longest_first(d).contains(y) <==> d.contains(y));
            if d.contains(y) {
                let k = choose|k: int| 0 <= k < d.len() && d[k] == y;
                assert(s[k] == y);
            }
            if s.contains(y) {
                let k = choose|k: int| 0 <= k < s.len() && s[k] == y;
                if k < d.len() {
                    assert(d[k] == y);
                }
            }
            assert(s[s.len() - 1] == s.last());
        }
    }
}

/// Each path of the machine has its own token; one that is not known has none.
pub proof fn law_each_path_has_its_own_token(
    work_root: Seq<char>,
    repo_root: Seq<char>,
    base: &str,
    home: &str,
)
    ensures
        ({
            let m = machine_paths(work_root, repo_root, Some(base), Some(home));
            &&& m.contains((work_root, "$WORK"@))
            &&& m.contains((repo_root, "$REPO"@))
            &&& m.contains((base@, "$WORKBASE"@))
            &&& m.contains((home@, "$HOME"@))
            &&& m.len() == 4
        }),
        machine_paths(work_root, repo_root, None, None) == seq![
            (work_root, "$WORK"@),
            (repo_root, "$REPO"@),
        ],
        machine_paths(work_root, repo_root, None, Some(home)).contains((home@, "$HOME"@)),
        machine_paths(work_root, repo_root, Some(base), None).contains((base@, "$WORKBASE"@)),
{
    let m = machine_paths(work_root, repo_root, Some(base), Some(home));
    assert(m[0] == (work_root, "$WORK"@));
    assert(m[1] == (repo_root, "$REPO"@));
    assert(m[2] == (base@, "$WORKBASE"@));
    assert(m[3] == (home@, "$HOME"@));
    assert(machine_paths(work_root, repo_root, None, Some(home))[2] == (home@, "$HOME"@));
    assert(machine_paths(work_root, repo_root, Some(base), None)[2] == (base@, "$WORKBASE"@));
}

/// A text without any path of the machine stays as it is, and each substitution replaces its path
/// wherever it stands.
pub proof fn law_each_substitution_is_made(t: Seq<char>, s: Seq<Substitution>, x: Substitution)
    ensures
        substituted(t, s.push(x)) == text::replaced(substituted(t, s), x.0, x.1),
        substituted(t, Seq::empty()) == t,
{
    assert(s.push(x).drop_last() =~= s);
}

/// An entry is looked at where it may be served, and not where the store is bypassed or renewed.
pub proof fn law_only_two_modes_look_at_an_entry(m: Mode)
    ensures
        m.serves() <==> m != Mode::Bypass && m != Mode::Refresh,
        Mode::ReadWrite.serves(),
        Mode::ReplayOnly.serves(),
{
}

/// An entry that is not there is no damage. One whose record is no JSON, disagrees in any part, or has
/// no code is not served, and neither is one whose code is another than was recorded.
pub proof fn law_a_damaged_entry_is_not_served(
    k: KeyInputs,
    meta: Seq<char>,
    code: Option<Seq<Entry>>,
)
    ensures
        loaded(k, None, code) == Ok::<Option<Seq<char>>, Damage>(None),
        json::read(meta) is None ==> loaded(k, Some(meta), code) == Err::<
            Option<Seq<char>>,
            Damage,
        >(Damage::NotJson),
        json::read(meta) is Some && code is None ==> loaded(k, Some(meta), code) is Err,
        loaded(k, Some(meta), code) matches Ok(d) ==> {
            &&& code is Some
            &&& d == Some(artifact::tree_digest(code->0, artifact::Admit::Hashed))
            &&& json::read(meta) is Some
            &&& json::text_in(json::member(json::read(meta)->0, "output_tree"@)) == d
            &&& disagreement(json::read(meta)->0, k) is None
        },
{
}

/// A record agrees only where every part of it does: the schema, the phase, the agent, the model, the
/// toolchain, the prompt, the recipe and the input. What disagrees is named with what it should be.
pub proof fn law_a_record_agrees_in_every_part(meta: json::JsonView, k: KeyInputs)
    ensures
        disagreement(meta, k) is None <==> {
            &&& json::number_in(json::member(meta, "schema"@)) == Some(SCHEMA as u64)
            &&& json::text_in(json::member(meta, "phase"@)) == Some(k.phase@)
            &&& json::text_in(json::member(meta, "agent"@)) == Some(k.agent@)
            &&& json::text_in(json::member(meta, "model"@)) == Some(k.model@)
            &&& json::text_in(json::member(meta, "toolchain"@)) == Some(k.toolchain@)
            &&& json::text_in(json::member(meta, "prompt"@)) == Some(k.prompt@)
            &&& json::text_in(json::member(meta, "recipe"@)) == Some(k.recipe@)
            &&& json::text_in(json::member(meta, "input_tree"@)) == Some(k.input_tree@)
        },
        disagreement(meta, k) matches Some(d) ==> json::member(meta, d.0) != Some(d.1),
{
}

/// What was told of a run is recalled as it was, and nothing where it was not told or is no JSON.
pub proof fn law_what_was_told_is_recalled(t: Seq<char>)
    ensures
        json::read(t) matches Some(v) ==> recalled(Some(t)) == v,
        json::read(t) is None ==> recalled(Some(t)) == json::JsonView::Null,
        recalled(None) == json::JsonView::Null,
{
}

/// Where things are kept: an entry by its phase, its agent and its key, a failure beside them by the
/// number of its attempt, and the transcript of either in it.
pub proof fn law_everything_kept_has_its_place(
    repo_root: Seq<char>,
    root: Seq<char>,
    k: KeyInputs,
    key: Seq<char>,
    attempt: nat,
    other: nat,
)
    ensures
        store_root(repo_root) == paths::joined(paths::joined(repo_root, "results"@), ".cache"@),
        entry_place(root, k, key) == paths::joined(
            paths::joined(
                paths::joined(paths::joined(root, text::numeral(1)), k.phase@),
                k.agent@,
            ),
            key,
        ),
        failed_place(root, k, key, attempt) == paths::joined(
            paths::joined(
                paths::joined(
                    paths::joined(
                        paths::joined(paths::joined(root, text::numeral(1)), "failed"@),
                        k.phase@,
                    ),
                    k.agent@,
                ),
                key,
            ),
            text::numeral(attempt),
        ),
        transcript_in(root) == paths::joined(paths::joined(root, "agent"@), "run.log"@),
        attempt != other ==> text::numeral(attempt) != text::numeral(other),
{
    text::lemma_numeral_value(attempt);
    text::lemma_numeral_value(other);
}

/// What is wrong with an entry is told by what was stored and what was found instead.
pub proof fn law_damage_tells_both_sides(
    field: Seq<char>,
    stored: Option<json::JsonView>,
    computed: json::JsonView,
    was: Option<Seq<char>>,
    is: Seq<char>,
)
    ensures
        damage_words(Damage::Disagrees { field, stored, computed }) == "meta.json disagrees on "@
            + field + ": stored "@ + shown_maybe(stored) + ", computed "@ + "Some("@
            + json::shown_form(computed) + ")"@,
        text::begins(
            damage_words(Damage::Edited { stored: was, recomputed: is }),
            "code/ does not match its recorded digest (stored "@ + quoted_maybe(was)
                + ", recomputed "@ + text::quoted_form(is) + ")"@,
        ),
        shown_maybe(None) == "None"@,
        shown_maybe(Some(computed)) == "Some("@ + json::shown_form(computed) + ")"@,
        quoted_maybe(None) == "None"@,
        quoted_maybe(Some(is)) == "Some("@ + text::quoted_form(is) + ")"@,
{
    let a = "meta.json disagrees on "@ + field + ": stored "@ + shown_maybe(stored)
        + ", computed "@;
    let s = json::shown_form(computed);
    assert(a + ("Some("@ + s + ")"@) =~= a + "Some("@ + s + ")"@);
    let e = ") — the entry has been corrupted or edited"@;
    reveal_strlit(") — the entry has been corrupted or edited");
    reveal_strlit(")");
    assert(e.subrange(0, 1) =~= ")"@);
    let h = "code/ does not match its recorded digest (stored "@ + quoted_maybe(was)
        + ", recomputed "@ + text::quoted_form(is);
    let w = damage_words(Damage::Edited { stored: was, recomputed: is });
    assert(w =~= h + e);
    assert(w.subrange(0, (h.len() + 1) as int) =~= h + ")"@) by {
        assert(w[h.len() as int] == e[0]);
    }
}

/// The bytes of a store are those of all files of all entries.
pub proof fn law_the_bytes_of_a_store_add_up(
    sizes: Seq<u64>,
    size: u64,
    entries: Seq<Vec<u64>>,
    e: Vec<u64>,
)
    ensures
        total_of(sizes.push(size)) == total_of(sizes) + size,
        total_of(Seq::empty()) == 0,
        total_bytes(entries.push(e)) == total_bytes(entries) + total_of(e@),
        total_bytes(Seq::empty()) == 0,
{
    assert(sizes.push(size).drop_last() =~= sizes);
    assert(entries.push(e).drop_last() =~= entries);
}

/// A record holds its key and every part of it, and who made it.
pub proof fn law_a_record_holds_every_part_of_its_key(
    k: KeyInputs,
    key: Seq<char>,
    harness: Seq<char>,
)
    ensures
        ({
            let m = json::JsonView::Object(meta_view(k, key, harness));
            &&& json::text_in(json::member(m, "key"@)) == Some(key)
            &&& json::text_in(json::member(m, "harness"@)) == Some(harness)
            &&& disagreement(m, k) is None
        }),
{
    reveal_strlit("schema");
    reveal_strlit("key");
    reveal_strlit("phase");
    reveal_strlit("agent");
    reveal_strlit("model");
    reveal_strlit("toolchain");
    reveal_strlit("prompt");
    reveal_strlit("recipe");
    reveal_strlit("input_tree");
    reveal_strlit("harness");
    assert("key"@.len() == 3 && "harness"@.len() == 7 && "toolchain"@.len() == 9
        && "input_tree"@.len() == 10);
    assert("phase"@.len() == 5 && "agent"@.len() == 5 && "model"@.len() == 5);
    assert("phase"@[0] == 'p' && "agent"@[0] == 'a' && "model"@[0] == 'm');
    assert("schema"@.len() == 6 && "prompt"@.len() == 6 && "recipe"@.len() == 6);
    assert("schema"@[0] == 's' && "prompt"@[0] == 'p' && "recipe"@[0] == 'r');
    law_a_record_agrees_in_every_part(json::JsonView::Object(meta_view(k, key, harness)), k);
}

/// A prompt is hashed behind the name of its scheme, and pairs one after the other, the name first.
pub proof fn law_a_pair_is_hashed_by_its_name_and_its_value(
    pairs: Seq<(Seq<char>, Seq<char>)>,
    name: Seq<char>,
    value: Seq<char>,
)
    ensures
        prompt_fields(value) == seq![encode_utf8("prompt-v1"@), encode_utf8(value)],
        pair_fields(pairs.push((name, value))) == pair_fields(pairs).push(encode_utf8(name)).push(
            encode_utf8(value),
        ),
        pair_fields(Seq::empty()).len() == 0,
{
    assert(pairs.push((name, value)).drop_last() =~= pairs);
}

/// A token begins with a dollar sign and is one name.
pub proof fn law_a_token_is_one_name(t: Seq<char>)
    ensures
        is_token(t) ==> t[0] == '$' && !t.contains('/'),
        t.len() > 0 && t[0] == '$' && !t.contains('/') ==> is_token(t),
        !is_token(Seq::empty()),
{
    if t.len() > 0 && t[0] == '$' && !t.contains('/') {
        assert forall|i: int| 0 <= i < t.len() implies t[i] != '/' by {
            assert(t.contains(t[i]));
        }
    }
}

/// What is kept of a failed run stands at the place of its attempt: why it failed, its transcript, and
/// what was told of it as a text that ends its line.
pub proof fn law_a_failed_run_is_kept_with_its_reason(
    f: FailedRun,
    root: Seq<char>,
    k: KeyInputs,
    attempt: nat,
    why: Seq<char>,
    provenance: json::JsonView,
)
    requires
        is_failure_of(f, root, k, attempt, why, provenance),
    ensures
        f.why@ == why,
        f.dir@ == failed_place(root, k, key_of(k), attempt),
        f.transcript@ == paths::joined(paths::joined(f.dir@, "agent"@), "run.log"@),
        f.run@ == json::pretty_form(provenance) + "\n"@,
{
}

} // verus!
