//! One invocation of an agent: a working directory and a prompt in, a working directory out. Nothing
//! here knows where in a chain it stands.

use crate::cache::ModelId;
use crate::domain::health::Health;
use crate::domain::health::HealthView;
use crate::domain::health::PinReport;
use crate::store;
use crate::store::AgentRecord;
use crate::store::Key;
use crate::store::Mode;
use crate::text;
use vstd::prelude::*;
use vstd::string::*;

verus! {

/// What a run reports of itself.
#[derive(Debug)]
pub struct Ran {
    pub health: Health,
    pub wall_secs: u64,
    /// What it cost, as its transcript writes it.
    pub cost_usd: Option<String>,
    pub cli: String,
    /// Whether the program asked for the model that was pinned.
    pub pin: PinReport,
}

/// The model that a run asks for.
#[derive(Debug)]
pub struct Runner<'a> {
    pub model: &'a ModelId,
}

/// What is asked of an agent.
#[derive(Debug)]
pub struct Invocation<'a> {
    pub tool: &'a str,
    /// The prompt, its paths put as tokens.
    pub prompt: &'a str,
    pub runner: Runner<'a>,
}

impl<'a> Invocation<'a> {
    /// The key of the invocation against a tree.
    pub fn key(&self, before: &'a str) -> (r: Key<'a>)
        ensures
            store::parts(r) == seq![self.tool@, self.runner.model@, before@, self.prompt@],
    {
        let r = Key {
            tool: self.tool,
            model: self.runner.model,
            before,
            prompt: self.prompt,
        };
        assert(store::parts(r) =~= seq![self.tool@, self.runner.model@, before@, self.prompt@]);
        r
    }
}

/// What one step of a chain came to.
#[derive(Debug)]
pub enum Produced {
    /// There is a tree for the next step, served or paid for.
    Done { record: AgentRecord, replayed: bool },
    /// The agent ran and did not finish. That is recorded, and not served.
    DidNotComplete(AgentRecord),
    /// Nothing is stored and nothing may be paid for: there is no run to record.
    Unavailable,
}

/// What is done about an invocation, by what is stored of it.
#[derive(Debug)]
pub enum Decision {
    /// Put the transcript back where the run would have written it, and serve the tree.
    Serve(Produced),
    /// Answer without a tree.
    Answer(Produced),
    /// Run the agent.
    Execute,
}

/// Looks an invocation up: a finished run is served. Otherwise the agent is run, unless nothing may
/// be paid for: then an answer that the tool would only repeat stands for itself, and anything else
/// is unavailable. `stored` is what is kept of the run with this key, whatever became of it.
pub fn run_or_replay(mode: Mode, stored: Option<AgentRecord>) -> (r: Decision)
    ensures
        match stored {
            Some(s) => if s@.servable() {
                r matches Decision::Serve(Produced::Done { record, replayed }) && record == s
                    && replayed
            } else if mode == Mode::ReadWrite {
                r is Execute
            } else if s@.terminal() {
                r matches Decision::Answer(Produced::DidNotComplete(record)) && record == s
            } else {
                r matches Decision::Answer(Produced::Unavailable)
            },
            None => if mode == Mode::ReadWrite {
                r is Execute
            } else {
                r matches Decision::Answer(Produced::Unavailable)
            },
        },
        mode == Mode::ReplayOnly ==> !(r is Execute),
{
    if let Some(record) = stored {
        if record.is_servable() {
            return Decision::Serve(Produced::Done { record, replayed: true });
        }
        return match mode {
            Mode::ReadWrite => Decision::Execute,
            Mode::ReplayOnly => if record.is_terminal() {
                Decision::Answer(Produced::DidNotComplete(record))
            } else {
                Decision::Answer(Produced::Unavailable)
            },
        };
    }
    match mode {
        Mode::ReadWrite => Decision::Execute,
        Mode::ReplayOnly => Decision::Answer(Produced::Unavailable),
    }
}

/// What is kept of a run: the tree that it left is named only where it finished.
pub open spec fn recorded(ran: Ran, after: Option<Seq<char>>) -> store::RecordView {
    store::RecordView {
        outcome: ran.health@,
        output_tree: if ran.health@ is Completed {
            after
        } else {
            None
        },
        wall_secs: ran.wall_secs,
        cost_usd: store::maybe(ran.cost_usd),
        cli: ran.cli@,
        pin: ran.pin,
    }
}

/// An optional text.
pub open spec fn maybe_str(s: Option<&str>) -> Option<Seq<char>> {
    match s {
        Some(t) => Some(t@),
        None => None,
    }
}

/// Whether the tree that a run left is sealed: only where it finished.
pub fn leaves_a_tree(ran: &Ran) -> (r: bool)
    ensures
        r == (ran.health@ is Completed),
{
    ran.health.is_completed()
}

/// What is kept of a run. `after` is the digest of the tree that was sealed.
pub fn record(ran: Ran, after: Option<&str>) -> (r: AgentRecord)
    ensures
        r@ == recorded(ran, maybe_str(after)),
{
    let output_tree = if ran.health.is_completed() {
        match after {
            Some(d) => Some(text::copy(d)),
            None => None,
        }
    } else {
        None
    };
    AgentRecord {
        outcome: ran.health,
        output_tree,
        wall_secs: ran.wall_secs,
        cost_usd: ran.cost_usd,
        cli: ran.cli,
        pin: ran.pin,
    }
}

/// What a run came to: it was paid for, so a store that cannot keep it changes nothing.
pub fn conclude(record: AgentRecord) -> (r: Produced)
    ensures
        record@.outcome is Completed ==> (r matches Produced::Done { record: kept, replayed }
            && kept == record && !replayed),
        !(record@.outcome is Completed) ==> (r matches Produced::DidNotComplete(kept) && kept
            == record),
{
    if record.outcome.is_completed() {
        Produced::Done { record, replayed: false }
    } else {
        Produced::DidNotComplete(record)
    }
}

// ---------------------------------------------------------------------------
// Laws
// ---------------------------------------------------------------------------

/// A run that finished and was kept is served the next time; one that did not finish never is, so
/// that it is tried again.
pub proof fn law_a_finished_run_is_served_and_a_failed_one_is_not(ran: Ran, after: Seq<char>)
    ensures
        recorded(ran, Some(after)).servable() <==> ran.health@ is Completed,
        !(ran.health@ is Completed) ==> recorded(ran, Some(after)).output_tree is None,
{
}

/// A run is served, or final, or passing, or nothing is known of it: never two of these.
pub proof fn law_a_record_is_one_thing(r: store::RecordView)
    ensures
        !(r.servable() && r.terminal()),
        !(r.servable() && r.transient()),
        !(r.terminal() && r.transient()),
{
}

/// Another prompt, model, tool or tree is another run: two keys are one only where every part of them
/// is. Nothing else tells runs apart, so that a step of another name with the same prompt against the
/// same tree is the same run.
pub proof fn law_another_prompt_is_another_invocation(one: Key, other: Key)
    ensures
        one.prompt@ != other.prompt@ ==> store::parts(one) != store::parts(other),
        store::parts(one) == store::parts(other) <==> one.tool@ == other.tool@ && one.model@
            == other.model@ && one.before@ == other.before@ && one.prompt@ == other.prompt@,
{
    let a = store::parts(one);
    let b = store::parts(other);
    if a == b {
        assert(a[0] == b[0] && a[1] == b[1] && a[2] == b[2] && a[3] == b[3]);
    }
    if one.tool@ == other.tool@ && one.model@ == other.model@ && one.before@ == other.before@
        && one.prompt@ == other.prompt@ {
        assert(a =~= b);
    }
}

/// What is recorded of a run is what became of it, how long it took and what it cost; the tree it left
/// only where it completed.
pub proof fn law_a_record_holds_what_became_of_the_run(ran: Ran, after: Seq<char>)
    ensures
        ({
            let r = recorded(ran, Some(after));
            &&& r.outcome == ran.health@
            &&& r.wall_secs == ran.wall_secs
            &&& r.cost_usd == store::maybe(ran.cost_usd)
            &&& r.cli == ran.cli@
            &&& r.pin == ran.pin
            &&& ran.health@ is Completed ==> r.output_tree == Some(after)
            &&& !(ran.health@ is Completed) ==> r.output_tree is None
        }),
        recorded(ran, None).output_tree is None,
{
}

} // verus!
