//! The way of an agent phase through the store: asked for, served or run, published and recorded.

use crate::agents::exit;
use crate::agents::exit::AgentExit;
use crate::agents::work::IsolatedWorkDir;
use crate::artifact;
use crate::artifact::Entry;
use crate::artifact::Phase;
use crate::artifact::Sealed;
use crate::artifact::Translate;
use crate::artifact::Verify;
use crate::cache::CacheKey;
use crate::cache;
use crate::cache::Consulted;
use crate::cache::EntryFiles;
use crate::cache::FailedRun;
use crate::cache::Found;
use crate::cache::KeyInputs;
use crate::cache::Mode;
use crate::cache::ModelId;
use crate::cache::Obtained;
use crate::cache::Produced;
use crate::cache::PromptDigest;
use crate::cache::RecipeDigest;
use crate::cache::Settled;
use crate::cache::Store;
use crate::cache::ToolchainId;
use crate::cache::Unusable;
use crate::json;
use crate::json::Json;
use crate::paths;
use crate::text;
use std::marker::PhantomData;
use vstd::prelude::*;
use vstd::string::*;

verus! {

/// The phases that go through the store.
pub trait Cached: Phase {

}

impl Cached for Translate {

}

impl Cached for Verify {

}

// ---------------------------------------------------------------------------
// Whether a phase has already run
// ---------------------------------------------------------------------------

/// What may answer whether a phase has already run for a case.
#[derive(Copy, Clone, PartialEq, Eq, Debug, Structural)]
pub enum SkipCheck {
    /// The store, which names what an artifact came from.
    Keyed,
    /// Whatever is published, which names nothing.
    WhateverIsPublished,
}

impl SkipCheck {
    /// What may answer under a store: one that is bypassed cannot be asked.
    pub fn through(self, store: Mode) -> (r: SkipCheck)
        ensures
            r == (if store == Mode::Bypass {
                SkipCheck::WhateverIsPublished
            } else {
                self
            }),
    {
        match store {
            Mode::Bypass => SkipCheck::WhateverIsPublished,
            Mode::ReadWrite | Mode::Refresh | Mode::ReplayOnly => self,
        }
    }

    /// Whether the phase has already run. What is published counts only where the store cannot
    /// answer.
    pub fn already_done(self, published: bool) -> (r: bool)
        ensures
            r == (self == SkipCheck::WhateverIsPublished && published),
    {
        match self {
            SkipCheck::Keyed => false,
            SkipCheck::WhateverIsPublished => published,
        }
    }
}

// ---------------------------------------------------------------------------
// The record beside an artifact
// ---------------------------------------------------------------------------

/// Whose run the record beside an artifact describes.
#[derive(Debug)]
pub enum Recorded<'a> {
    /// This one. It names its entry where one was stored.
    Fresh { entry: Option<&'a str> },
    /// The one whose artifact was served.
    Replayed { entry: &'a str },
}

/// The members of an object, none where the value is no object.
pub open spec fn told(v: json::JsonView) -> Map<Seq<char>, json::JsonView> {
    match v {
        json::JsonView::Object(m) => m,
        _ => Map::empty(),
    }
}

/// The record beside an artifact: what is told of the run, whether it was served, and the entry.
pub open spec fn metrics_view(
    provenance: json::JsonView,
    replayed: bool,
    entry: Option<Seq<char>>,
) -> json::JsonView {
    let m = told(provenance).insert("replayed"@, json::JsonView::Bool(replayed));
    json::JsonView::Object(
        match entry {
            Some(k) => m.insert("cache_key"@, json::JsonView::Text(k)),
            None => m,
        },
    )
}

impl<'a> Recorded<'a> {
    /// The artifact was served.
    pub open spec fn served(&self) -> bool {
        self is Replayed
    }

    /// The entry that is named.
    pub open spec fn named(&self) -> Option<Seq<char>> {
        match *self {
            Recorded::Fresh { entry } => match entry {
                Some(k) => Some(k@),
                None => None,
            },
            Recorded::Replayed { entry } => Some(entry@),
        }
    }
}

/// The file of a phase's record.
pub open spec fn metrics_file<P: Phase>(case_dir: Seq<char>) -> Seq<char> {
    paths::joined(paths::joined(case_dir, P::dir_name()), P::metrics_name())
}

/// The record beside an artifact, and the file that it is written to. What is told of a run is an
/// object, or nothing at all.
pub fn write_phase_metrics<P: Phase>(case_dir: &str, provenance: Json, recorded: Recorded) -> (r: (
    String,
    String,
))
    requires
        provenance@ is Object || provenance@ is Null,
    ensures
        r.0@ == metrics_file::<P>(case_dir@),
        r.1@ == json::pretty_form(
            metrics_view(provenance@, recorded.served(), recorded.named()),
        ) + "\n"@,
{
    let mut m: Vec<(String, Json)> = match provenance {
        Json::Object(members) => members,
        _ => Vec::new(),
    };
    assert(json::members(m@) =~= told(provenance@));
    match &recorded {
        Recorded::Fresh { entry } => {
            json::set(&mut m, "replayed", Json::Bool(false));
            if let Some(k) = entry {
                json::set(&mut m, "cache_key", json::words(k));
            }
        },
        Recorded::Replayed { entry } => {
            json::set(&mut m, "replayed", Json::Bool(true));
            json::set(&mut m, "cache_key", json::words(entry));
        },
    }
    let mut out = json::pretty(&Json::Object(m));
    out.append("\n");
    (artifact::phase_metrics::<P>(case_dir), out)
}

/// What is told of a run that left nothing.
pub open spec fn failure_view(
    agent: Seq<char>,
    duration_secs: u64,
    timestamp: Seq<char>,
    e: AgentExit,
) -> json::JsonView {
    json::JsonView::Object(
        exit::with_exit(
            Map::<Seq<char>, json::JsonView>::empty().insert(
                "agent"@,
                json::JsonView::Text(agent),
            ).insert("duration_secs"@, json::natural_view(duration_secs)).insert(
                "success"@,
                json::JsonView::Bool(false),
            ).insert("timestamp"@, json::JsonView::Text(timestamp)),
            e,
        ),
    )
}

/// What is told of a run that left nothing: how it ended is the only evidence that is left of it.
pub fn failure_provenance(
    agent: &str,
    duration_secs: u64,
    timestamp: &str,
    seen: &mut AgentExit,
) -> (r: Json)
    ensures
        r@ == failure_view(agent@, duration_secs, timestamp@, *old(seen)),
        *final(seen) == exit::unseen(),
{
    let mut m: Vec<(String, Json)> = Vec::new();
    json::set(&mut m, "agent", json::words(agent));
    json::set(&mut m, "duration_secs", json::natural(duration_secs));
    json::set(&mut m, "success", Json::Bool(false));
    json::set(&mut m, "timestamp", json::words(timestamp));
    exit::merge_agent_exit(&mut m, seen);
    Json::Object(m)
}

// ---------------------------------------------------------------------------
// The way through the store
// ---------------------------------------------------------------------------

/// What a run of the agent came to.
#[derive(Debug)]
pub enum Attempt<P: Phase> {
    Produced(Produced<P>),
    /// Nothing worth keeping, and why.
    Nothing(String),
}

/// What a phase left in the results tree.
#[derive(Debug)]
pub enum Outcome<P: Phase> {
    Published(Sealed<P>),
    /// Nothing worth keeping, so nothing was stored either.
    Nothing,
    /// Nothing is stored and nothing may be run: there is no run to record.
    Unavailable,
}

/// The first step of a phase.
#[derive(Debug)]
pub enum Step<P: Phase> {
    /// Publish what was served.
    Serve(Obtained<P>),
    /// Run the agent; an entry that cannot be served is first put aside.
    Execute { aside: Option<Unusable> },
    /// Stop: nothing is stored and nothing may be run.
    Stop,
}

/// The last step of a phase: what is done with its outcome, in this order.
#[derive(Debug)]
pub struct Ending<P: Phase> {
    /// The entry to store.
    pub entry: Option<EntryFiles>,
    /// The previous artifact is moved aside: its transcript was just written over.
    pub displace: bool,
    /// The run that left nothing, to be kept with its transcript.
    pub failure: Option<FailedRun>,
    /// The transcript to bring back from the store, so that a case that was served looks like one
    /// that was run.
    pub restore: Option<String>,
    pub outcome: Outcome<P>,
    /// The file of the record beside the artifact, and its text: written after publishing.
    pub metrics: (String, String),
}

/// Where an artifact goes that a run could not replace.
pub open spec fn aside_of<P: Phase>(case_dir: Seq<char>) -> Seq<char> {
    paths::joined(case_dir, P::dir_name() + ".displaced"@)
}

/// What moves with an artifact: everything in its directory but the logs.
pub open spec fn moving(names: Seq<Seq<char>>) -> Seq<Seq<char>> {
    names.filter(|n: Seq<char>| n != "logs"@)
}

/// What is moved aside, and where to, after a run that published nothing. `names` are the entries of the
/// phase's directory. Where no crate stands there nothing is moved: the record of a run that left
/// nothing is no reason to give up the crate that an earlier one moved.
pub fn displacement<P: Phase>(case_dir: &str, names: &[String], has_crate: bool) -> (r: Option<
    (String, Vec<String>),
>)
    ensures
        r is Some <==> has_crate,
        r matches Some(m) ==> m.0@ == aside_of::<P>(case_dir@) && text::views(m.1@) == moving(
            text::views(names@),
        ),
{
    if !has_crate {
        return None;
    }
    let aside = paths::join(case_dir, text::join2(P::dir(), ".displaced").as_str());
    let ghost all = text::views(names@);
    let mut out: Vec<String> = Vec::new();
    let mut i: usize = 0;
    assert(moving(all.subrange(0, 0)) =~= Seq::empty()) by {
        reveal(Seq::filter);
    }
    assert(text::views(out@) =~= moving(all.subrange(0, 0)));
    while i < names.len()
        invariant
            i <= names.len(),
            all == text::views(names@),
            text::views(out@) == moving(all.subrange(0, i as int)),
        decreases names.len() - i,
    {
        broadcast use text::lemma_views_push;

        reveal(Seq::filter);
        let ghost so_far = text::views(out@);
        assert(all.subrange(0, i + 1).drop_last() =~= all.subrange(0, i as int));
        assert(all.subrange(0, i + 1).last() == names@[i as int]@);
        if !artifact::survives_clearing(names[i].as_str()) {
            out.push(text::copy(names[i].as_str()));
            assert(text::views(out@) == so_far.push(all[i as int]));
        }
        i = i + 1;
    }
    assert(all.subrange(0, names.len() as int) =~= all);
    Some((aside, out))
}

/// What is said of an artifact that was moved aside, because the run that wrote over its transcript
/// published nothing.
pub fn displaced_note<P: Phase>(aside: &str) -> (r: String)
    ensures
        r@ == "  ⚠️  this run published nothing; the previous "@ + P::dir_name() + "/ is at "@
            + aside@,
{
    let head = text::join3(
        "  ⚠️  this run published nothing; the previous ",
        P::dir(),
        "/ is at ",
    );
    text::join2(head.as_str(), aside)
}

/// The refusal of a key that names another model than the agent runs.
pub open spec fn model_mismatch(keyed: Option<Seq<char>>, runs: Seq<char>) -> Seq<char> {
    "the key would record model "@ + (match keyed {
        Some(k) => "Some("@ + text::quoted_form(k) + ")"@,
        None => "None"@,
    }) + " while the agent runs "@ + runs
}

/// What an optional model is.
pub open spec fn maybe_model(m: Option<&ModelId>) -> Option<Seq<char>> {
    match m {
        Some(x) => Some(x@),
        None => None,
    }
}

/// Refuses a key that names another model than the agent runs.
pub fn check_model(keyed: Option<&ModelId>, runs: &ModelId) -> (r: Result<(), String>)
    ensures
        r is Ok <==> maybe_model(keyed) == Some(runs@),
        r matches Err(e) ==> e@ == model_mismatch(maybe_model(keyed), runs@),
{
    let same = match keyed {
        Some(k) => text::same_text(k.as_str(), runs.as_str()),
        None => false,
    };
    if same {
        return Ok(());
    }
    let shown = match keyed {
        Some(k) => text::join3("Some(", text::quoted(k.as_str()).as_str(), ")"),
        None => text::copy("None"),
    };
    let head = text::join3(
        "the key would record model ",
        shown.as_str(),
        " while the agent runs ",
    );
    Err(text::join2(head.as_str(), runs.as_str()))
}

/// One run of a phase: its key, and the case that it is for. The phase of the key is that of the run, and
/// its input is what the working copy was made from: neither can be given.
#[derive(Debug)]
pub struct PhaseRun<'a, P: Cached> {
    inputs: KeyInputs<'a>,
    case_dir: &'a str,
    phase: PhantomData<P>,
}

/// The parts of the key of a run.
pub open spec fn run_parts<P: Cached>(
    work: IsolatedWorkDir<P>,
    agent: Seq<char>,
    model: Seq<char>,
    toolchain: Seq<char>,
    prompt: Seq<char>,
    recipe: Seq<char>,
) -> Seq<Seq<char>> {
    seq![P::dir_name(), agent, model, toolchain, prompt, recipe, work.made_from()]
}

impl<'a, P: Cached> PhaseRun<'a, P> {
    /// What its key is made of.
    pub closed spec fn keyed(&self) -> KeyInputs<'a> {
        self.inputs
    }

    /// The case that it is for.
    pub closed spec fn case(&self) -> Seq<char> {
        self.case_dir@
    }

    /// A run in a working copy. `keyed` is the model that the agent's keys name, and `model` the one
    /// that it runs: a key that names another is refused.
    pub fn new(
        work: &'a IsolatedWorkDir<P>,
        case_dir: &'a str,
        agent: &'a str,
        keyed: Option<&ModelId>,
        model: &'a ModelId,
        toolchain: &'a ToolchainId,
        prompt: &'a PromptDigest,
        recipe: &'a RecipeDigest,
    ) -> (r: Result<PhaseRun<'a, P>, String>)
        ensures
            r is Ok <==> maybe_model(keyed) == Some(model@),
            r matches Err(e) ==> e@ == model_mismatch(maybe_model(keyed), model@),
            r matches Ok(run) ==> {
                &&& run.case() == case_dir@
                &&& run.keyed().phase@ == P::dir_name()
                &&& run.keyed().input_tree@ == work.made_from()
                &&& cache::key_parts(run.keyed()) == run_parts(
                    *work,
                    agent@,
                    model@,
                    toolchain@,
                    prompt@,
                    recipe@,
                )
            },
    {
        match check_model(keyed, model) {
            Err(e) => {
                return Err(e);
            },
            Ok(_) => {},
        }
        let inputs = KeyInputs {
            phase: P::dir(),
            agent,
            model,
            toolchain,
            prompt,
            recipe,
            input_tree: work.input_digest(),
        };
        assert(cache::key_parts(inputs) =~= run_parts(
            *work,
            agent@,
            model@,
            toolchain@,
            prompt@,
            recipe@,
        ));
        Ok(PhaseRun { inputs, case_dir, phase: PhantomData })
    }

    /// What its key is made of.
    pub fn inputs(&self) -> (r: &KeyInputs<'a>)
        ensures
            *r == self.keyed(),
    {
        &self.inputs
    }

    /// The key.
    pub fn key(&self) -> (r: CacheKey)
        ensures
            r@ == cache::key_of(self.keyed()),
    {
        self.inputs.key()
    }
}

/// The first step of a phase: serve what the store has, run the agent where it has nothing, and stop
/// where nothing may be run.
pub fn begin<P: Cached>(store: &Store, run: &PhaseRun<P>, found: &Found) -> (r: Step<P>)
    ensures
        !store.behaviour().serves() ==> (r matches Step::Execute { aside } && aside is None),
        store.behaviour().serves() ==> match cache::loaded(
            run.keyed(),
            found.record(),
            found.tree(),
        ) {
            Ok(Some(d)) => r matches Step::Serve(o) && o.sealed@ == d && o.replayed && o.key@
                == cache::key_of(run.keyed()) && o.provenance@ == cache::recalled(found.told()),
            Ok(None) => if store.behaviour() == Mode::ReplayOnly {
                r is Stop
            } else {
                r matches Step::Execute { aside } && aside is None
            },
            Err(e) => if store.behaviour() == Mode::ReplayOnly {
                r is Stop
            } else {
                r matches Step::Execute { aside } && (aside matches Some(x) && x@ == e)
            },
        },
        store.behaviour() == Mode::ReplayOnly ==> !(r is Execute),
{
    match store.consult::<P>(run.inputs(), found) {
        Consulted::Replay(o) => Step::Serve(o),
        Consulted::Run { aside } => Step::Execute { aside },
        Consulted::Unavailable => Step::Stop,
    }
}

/// What is done with an artifact that was served: it is published as one that was run, its
/// transcript is brought back, and the record says that it was served.
pub fn serve<P: Cached>(store: &Store, run: &PhaseRun<P>, obtained: Obtained<P>) -> (r: Ending<P>)
    requires
        obtained.provenance@ is Object || obtained.provenance@ is Null,
    ensures
        r.entry is None,
        r.failure is None,
        !r.displace,
        r.restore matches Some(t) && t@ == cache::transcript_in(
            cache::entry_place(store.place(), run.keyed(), obtained.key@),
        ),
        r.outcome matches Outcome::Published(s) && s@ == obtained.sealed@,
        r.metrics.0@ == metrics_file::<P>(run.case()),
        r.metrics.1@ == json::pretty_form(
            metrics_view(obtained.provenance@, true, Some(obtained.key@)),
        ) + "\n"@,
{
    let transcript = store.transcript_of(run.inputs(), &obtained.key);
    let key = obtained.key.as_str();
    let metrics = write_phase_metrics::<P>(
        run.case_dir,
        obtained.provenance,
        Recorded::Replayed { entry: key },
    );
    Ending {
        entry: None,
        failure: None,
        displace: false,
        restore: Some(transcript),
        outcome: Outcome::Published(obtained.sealed),
        metrics,
    }
}

/// What is done with what a run came to. What it produced is stored, unless the store is bypassed,
/// and published. A run that produced nothing stores no entry and moves the previous artifact aside; it
/// is kept as a failure, with its transcript and why it left nothing, and its record says how it ended.
/// `earlier` is how many runs of this key left nothing before.
pub fn conclude<P: Cached>(
    store: &Store,
    run: &PhaseRun<P>,
    harness: &str,
    attempt: Attempt<P>,
    earlier: u32,
    duration_secs: u64,
    timestamp: &str,
    seen: &mut AgentExit,
) -> (r: Ending<P>)
    requires
        attempt matches Attempt::Produced(p) ==> p.provenance@ is Object || p.provenance@ is Null,
    ensures
        r.restore is None,
        r.metrics.0@ == metrics_file::<P>(run.case()),
        match attempt {
            Attempt::Produced(p) => {
                &&& !r.displace
                &&& r.failure is None
                &&& r.outcome matches Outcome::Published(s) && s@ == p.sealed@
                &&& r.entry is None <==> store.behaviour() == Mode::Bypass
                &&& r.entry matches Some(e) ==> cache::is_entry_of(
                    e,
                    store.place(),
                    run.keyed(),
                    harness@,
                    p.sealed@,
                    p.provenance@,
                )
                &&& r.metrics.1@ == json::pretty_form(
                    metrics_view(p.provenance@, false, Some(cache::key_of(run.keyed()))),
                ) + "\n"@
                &&& *final(seen) == *old(seen)
            },
            Attempt::Nothing(why) => {
                let told = failure_view(run.keyed().agent@, duration_secs, timestamp@, *old(seen));
                &&& r.displace
                &&& r.outcome is Nothing
                &&& r.entry is None
                &&& r.failure matches Some(f) && cache::is_failure_of(
                    f,
                    store.place(),
                    run.keyed(),
                    earlier as nat + 1,
                    why@,
                    told,
                )
                &&& r.metrics.1@ == json::pretty_form(metrics_view(told, false, None)) + "\n"@
                &&& *final(seen) == exit::unseen()
            },
        },
{
    match attempt {
        Attempt::Produced(p) => {
            match store.settle(run.inputs(), harness, Some(p)) {
                Settled::Nothing => vstd::pervasive::unreached(),
                Settled::Done { obtained, entry } => {
                    let key = obtained.key.as_str();
                    let metrics = write_phase_metrics::<P>(
                        run.case_dir,
                        obtained.provenance,
                        Recorded::Fresh { entry: Some(key) },
                    );
                    Ending {
                        entry,
                        failure: None,
                        displace: false,
                        restore: None,
                        outcome: Outcome::Published(obtained.sealed),
                        metrics,
                    }
                },
            }
        },
        Attempt::Nothing(why) => {
            let provenance = failure_provenance(run.inputs().agent, duration_secs, timestamp, seen);
            let failure = store.record_failure(run.inputs(), earlier, why.as_str(), &provenance);
            let metrics = write_phase_metrics::<P>(
                run.case_dir,
                provenance,
                Recorded::Fresh { entry: None },
            );
            Ending {
                entry: None,
                failure: Some(failure),
                displace: true,
                restore: None,
                outcome: Outcome::Nothing,
                metrics,
            }
        },
    }
}

// ---------------------------------------------------------------------------
// Laws
// ---------------------------------------------------------------------------

/// The record says whether the artifact was served and names its entry, and the rest of what is told
/// of the run stands as it was.
pub proof fn law_a_replay_is_recorded_as_a_replay(
    provenance: json::JsonView,
    replayed: bool,
    entry: Seq<char>,
    name: Seq<char>,
)
    requires
        name != "replayed"@,
        name != "cache_key"@,
    ensures
        json::member(metrics_view(provenance, replayed, Some(entry)), "replayed"@) == Some(
            json::JsonView::Bool(replayed),
        ),
        json::member(metrics_view(provenance, replayed, Some(entry)), "cache_key"@) == Some(
            json::JsonView::Text(entry),
        ),
        json::member(metrics_view(provenance, replayed, Some(entry)), name) == json::member(
            json::JsonView::Object(told(provenance)),
            name,
        ),
{
    reveal_strlit("replayed");
    reveal_strlit("cache_key");
    assert("replayed"@.len() != "cache_key"@.len());
}

/// A replay is the run that was stored: the entry that a run left, found again as it was written, is
/// served for the same invocation, with the same artifact, its transcript and what was told of that run;
/// and the record beside the artifact is what was told then, with the mark of a replay and the key. What
/// was told is read back as it was where it survives being written; the rest holds whatever was told.
pub proof fn law_a_replay_is_the_run_that_was_stored(
    e: EntryFiles,
    root: Seq<char>,
    k: KeyInputs,
    harness: Seq<char>,
    code: Seq<Entry>,
    provenance: json::JsonView,
    found: Found,
)
    requires
        cache::is_entry_of(
            e,
            root,
            k,
            harness,
            artifact::tree_digest(code, artifact::Admit::Hashed),
            provenance,
        ),
        found.record() == Some(e.meta@),
        found.tree() == Some(code),
        found.told() == Some(e.run@),
    ensures
        cache::loaded(k, found.record(), found.tree()) == Ok::<Option<Seq<char>>, cache::Damage>(
            Some(artifact::tree_digest(code, artifact::Admit::Hashed)),
        ),
        json::survives(provenance) ==> cache::recalled(found.told()) == provenance,
        cache::transcript_in(cache::entry_place(root, k, cache::key_of(k))) == cache::transcript_in(
            e.dir@,
        ),
        json::survives(provenance) ==> metrics_view(
            cache::recalled(found.told()),
            true,
            Some(cache::key_of(k)),
        ) == json::JsonView::Object(
            told(provenance).insert("replayed"@, json::JsonView::Bool(true)).insert(
                "cache_key"@,
                json::JsonView::Text(cache::key_of(k)),
            ),
        ),
{
    cache::law_what_was_stored_is_served(k, harness, e.meta@, code);
}

/// What is told of a run is read back from a store as it was written, whether the run finished or left
/// nothing, and however it ended.
pub proof fn law_what_is_told_of_a_run_is_read_back(
    who: Seq<char>,
    duration_secs: u64,
    timestamp: Seq<char>,
    harness: Seq<char>,
    sandboxed: bool,
    e: AgentExit,
)
    ensures
        json::survives(
            json::JsonView::Object(
                exit::provenance_view(who, duration_secs, timestamp, harness, sandboxed, e),
            ),
        ),
        json::survives(failure_view(who, duration_secs, timestamp, e)),
{
    if let Some(c) = e.exit_code {
        assert(text::signed_numeral((c as i64) as int) == text::signed_numeral(c as int));
        assert(json::plain(json::integer_view(c)));
    }
    assert(json::plain(exit::code_value(e.exit_code)));
    assert(json::plain(json::natural_view(duration_secs)));
    json::lemma_plain_members_survive(
        json::JsonView::Object(
            exit::provenance_view(who, duration_secs, timestamp, harness, sandboxed, e),
        ),
    );
    json::lemma_plain_members_survive(failure_view(who, duration_secs, timestamp, e));
}

/// Runs whose keys have the same parts have one key and one entry: what one stored is found for the
/// other, and judged alike. A key names the run and not the working copy.
pub proof fn law_the_same_parts_are_the_same_run<P: Cached>(
    one: PhaseRun<P>,
    other: PhaseRun<P>,
    root: Seq<char>,
    record: Option<Seq<char>>,
    tree: Option<Seq<Entry>>,
)
    requires
        cache::key_parts(one.keyed()) == cache::key_parts(other.keyed()),
    ensures
        cache::key_of(one.keyed()) == cache::key_of(other.keyed()),
        cache::entry_place(root, one.keyed(), cache::key_of(one.keyed())) == cache::entry_place(
            root,
            other.keyed(),
            cache::key_of(other.keyed()),
        ),
        cache::loaded(one.keyed(), record, tree) == cache::loaded(other.keyed(), record, tree),
{
    let (a, b) = (cache::key_parts(one.keyed()), cache::key_parts(other.keyed()));
    assert(a[0] == b[0] && a[1] == b[1] && a[2] == b[2] && a[3] == b[3]);
    assert(a[4] == b[4] && a[5] == b[5] && a[6] == b[6]);
    assert(cache::key_fields(one.keyed()) =~= cache::key_fields(other.keyed()));
}

/// A translation and a verification of a case are recorded in different files.
pub proof fn law_each_phase_has_its_own_record(case_dir: Seq<char>)
    ensures
        metrics_file::<Translate>(case_dir) != metrics_file::<Verify>(case_dir),
{
    reveal_strlit("translated");
    reveal_strlit("verified");
    reveal_strlit("translation.json");
    reveal_strlit("verification.json");
    reveal_strlit("/");
    let a = metrics_file::<Translate>(case_dir);
    let b = metrics_file::<Verify>(case_dir);
    assert(a.len() == b.len() + 1);
}

/// What is told of a run that left nothing: the agent, how long it took and when it was, that it did not
/// succeed, and how the process ended where that was seen.
pub proof fn law_a_failure_is_told_as_one(
    agent: Seq<char>,
    secs: u64,
    timestamp: Seq<char>,
    code: Option<i32>,
)
    ensures
        ({
            let j = failure_view(agent, secs, timestamp, exit::ended(code));
            &&& json::text_in(json::member(j, "agent"@)) == Some(agent)
            &&& json::number_in(json::member(j, "duration_secs"@)) == Some(secs)
            &&& json::member(j, "success"@) == Some(json::JsonView::Bool(false))
            &&& json::text_in(json::member(j, "timestamp"@)) == Some(timestamp)
            &&& json::member(j, "exit_code"@) is Some
            &&& json::member(j, "timed_out"@) == Some(json::JsonView::Bool(code == Some(124i32)))
        }),
        json::member(failure_view(agent, secs, timestamp, exit::unseen()), "exit_code"@) is None,
{
    reveal_strlit("agent");
    reveal_strlit("duration_secs");
    reveal_strlit("success");
    reveal_strlit("timestamp");
    reveal_strlit("exit_code");
    reveal_strlit("timed_out");
    assert("agent"@.len() == 5 && "duration_secs"@.len() == 13 && "success"@.len() == 7);
    assert("timestamp"@.len() == 9 && "exit_code"@.len() == 9 && "timed_out"@.len() == 9);
    assert("timestamp"@[0] == 't' && "exit_code"@[0] == 'e' && "timed_out"@[0] == 't');
    assert("timestamp"@[4] == 's' && "timed_out"@[4] == 'd');
}

/// What moves aside with an artifact is everything that lies beside its transcripts, and these stay.
pub proof fn law_the_transcripts_stay_where_an_artifact_moves(
    names: Seq<Seq<char>>,
    name: Seq<char>,
)
    ensures
        moving(names).contains(name) <==> names.contains(name) && name != "logs"@,
{
    text::lemma_kept(names, |n: Seq<char>| n != "logs"@, name);
}

/// Each phase keeps its record in its own directory, and its artifact moves aside beside it.
pub proof fn law_a_record_stands_beside_its_artifact(case_dir: Seq<char>)
    ensures
        metrics_file::<Translate>(case_dir) == paths::joined(
            paths::joined(case_dir, "translated"@),
            "translation.json"@,
        ),
        metrics_file::<Verify>(case_dir) == paths::joined(
            paths::joined(case_dir, "verified"@),
            "verification.json"@,
        ),
        aside_of::<Translate>(case_dir) == paths::joined(
            case_dir,
            "translated"@ + ".displaced"@,
        ),
        aside_of::<Verify>(case_dir) == paths::joined(case_dir, "verified"@ + ".displaced"@),
{
}

/// A key that would name another model is told by both.
pub proof fn law_a_wrong_model_is_told_by_both(keyed: Seq<char>, runs: Seq<char>)
    ensures
        model_mismatch(Some(keyed), runs) == "the key would record model "@ + "Some("@
            + text::quoted_form(keyed) + ")"@ + " while the agent runs "@ + runs,
        model_mismatch(None, runs) == "the key would record model "@ + "None"@
            + " while the agent runs "@ + runs,
{
    let a = "the key would record model "@;
    let q = text::quoted_form(keyed);
    assert(model_mismatch(Some(keyed), runs) =~= a + "Some("@ + q + ")"@ + " while the agent runs "@
        + runs);
}

/// What is recorded of a run that stored no entry names none.
pub proof fn law_an_unstored_run_names_no_entry(m: Map<Seq<char>, json::JsonView>, replayed: bool)
    requires
        !m.dom().contains("cache_key"@),
    ensures
        json::member(metrics_view(json::JsonView::Object(m), replayed, None), "cache_key"@) is None,
        json::member(metrics_view(json::JsonView::Object(m), replayed, None), "replayed"@) == Some(
            json::JsonView::Bool(replayed),
        ),
{
    reveal_strlit("cache_key");
    reveal_strlit("replayed");
    assert("cache_key"@.len() == 9 && "replayed"@.len() == 8);
}

/// A run is known by its phase, its agent, its model, the toolchain, the prompt, the recipe and the tree
/// that it was made from, in this order.
pub proof fn law_a_run_is_known_by_seven_things<P: Cached>(
    work: IsolatedWorkDir<P>,
    agent: Seq<char>,
    model: Seq<char>,
    toolchain: Seq<char>,
    prompt: Seq<char>,
    recipe: Seq<char>,
)
    ensures
        ({
            let p = run_parts(work, agent, model, toolchain, prompt, recipe);
            &&& p.len() == 7
            &&& p[0] == P::dir_name() && p[1] == agent && p[2] == model && p[3] == toolchain
            &&& p[4] == prompt && p[5] == recipe && p[6] == work.made_from()
        }),
{
}

} // verus!
