//! What the store of finished runs keeps, and what it is allowed to do.

use crate::bytes;
use crate::cache::ModelId;
use crate::digest;
use crate::domain::health::Health;
use crate::domain::health::HealthView;
use crate::domain::health::PinReport;
use crate::text;
use vstd::prelude::*;
use vstd::string::*;
use vstd::utf8::*;

verus! {

/// Whether a miss may be paid for.
#[derive(Debug, Copy, Clone, PartialEq, Eq, Structural)]
pub enum Mode {
    /// Serve what is stored, and run and store what is not.
    ReadWrite,
    /// Serve what is stored; a miss is an error, and nothing is ever run.
    ReplayOnly,
}

/// What identifies a run: the tool, the model, the tree that it was handed and the prompt. The place
/// of the run in a chain is no part of it.
#[derive(Debug)]
pub struct Key<'a> {
    pub tool: &'a str,
    pub model: &'a ModelId,
    /// The digest of the tree.
    pub before: &'a str,
    /// The prompt, its paths put as tokens.
    pub prompt: &'a str,
}

/// The parts of a key.
pub open spec fn parts(k: Key) -> Seq<Seq<char>> {
    seq![k.tool@, k.model@, k.before@, k.prompt@]
}

/// What is hashed of a key.
pub open spec fn fields(k: Key) -> Seq<Seq<u8>> {
    seq![
        encode_utf8(k.tool@),
        encode_utf8(k.model@),
        encode_utf8(k.before@),
        encode_utf8(k.prompt@),
    ]
}

impl<'a> Key<'a> {
    /// The name that a run is stored under.
    pub fn id(&self) -> (r: String)
        ensures
            r@ == digest::hex(digest::sha256(digest::frames(fields(*self)))),
    {
        let mut all: Vec<Vec<u8>> = Vec::new();
        all.push(bytes::copy(self.tool.as_bytes()));
        all.push(bytes::copy(self.model.as_str().as_bytes()));
        all.push(bytes::copy(self.before.as_bytes()));
        all.push(bytes::copy(self.prompt.as_bytes()));
        assert(bytes::byte_views(all@) =~= fields(*self));
        digest::hex_of(&digest::hash(&digest::frame_all(all.as_slice())))
    }

    /// Whether two keys identify one run.
    pub fn same(&self, other: &Key) -> (r: bool)
        ensures
            r == (parts(*self) == parts(*other)),
    {
        let r = text::same_text(self.tool, other.tool) && text::same_text(
            self.model.as_str(),
            other.model.as_str(),
        ) && text::same_text(self.before, other.before) && text::same_text(
            self.prompt,
            other.prompt,
        );
        proof {
            let a = parts(*self);
            let b = parts(*other);
            if a == b {
                assert(a[0] == b[0] && a[1] == b[1] && a[2] == b[2] && a[3] == b[3]);
            }
            if r {
                assert(a =~= b);
            }
        }
        r
    }
}

/// What is kept of a run.
#[derive(Debug)]
pub struct AgentRecord {
    pub outcome: Health,
    /// The digest of the tree that the run left, where it finished.
    pub output_tree: Option<String>,
    pub wall_secs: u64,
    /// What the run cost, as its transcript writes it.
    pub cost_usd: Option<String>,
    pub cli: String,
    pub pin: PinReport,
}

/// What is kept of a run, mathematically.
pub struct RecordView {
    pub outcome: HealthView,
    pub output_tree: Option<Seq<char>>,
    pub wall_secs: u64,
    pub cost_usd: Option<Seq<char>>,
    pub cli: Seq<char>,
    pub pin: PinReport,
}

/// An optional string.
pub open spec fn maybe(s: Option<String>) -> Option<Seq<char>> {
    match s {
        Some(t) => Some(t@),
        None => None,
    }
}

impl View for AgentRecord {
    type V = RecordView;

    open spec fn view(&self) -> RecordView {
        RecordView {
            outcome: self.outcome@,
            output_tree: maybe(self.output_tree),
            wall_secs: self.wall_secs,
            cost_usd: maybe(self.cost_usd),
            cli: self.cli@,
            pin: self.pin,
        }
    }
}

impl RecordView {
    /// The run finished and left a tree, so that it can be served.
    pub open spec fn servable(self) -> bool {
        self.outcome is Completed && self.output_tree is Some
    }

    /// The tool answered, and the answer is no: it will be no again.
    pub open spec fn terminal(self) -> bool {
        self.outcome.tool_answered_no()
    }

    /// The run was lost to something that passes.
    pub open spec fn transient(self) -> bool {
        self.outcome is Infra
    }
}

impl AgentRecord {
    /// Whether the run can be served.
    pub fn is_servable(&self) -> (r: bool)
        ensures
            r == self@.servable(),
    {
        self.outcome.is_completed() && self.output_tree.is_some()
    }

    /// Whether the tool answered no.
    pub fn is_terminal(&self) -> (r: bool)
        ensures
            r == self@.terminal(),
    {
        self.outcome.is_tool_answer_failure()
    }

    /// Whether the run was lost to something that passes.
    pub fn is_transient(&self) -> (r: bool)
        ensures
            r == self@.transient(),
    {
        self.outcome.is_infra()
    }
}

/// A run is served where it completed and left a tree; it is final where the tool refused or was
/// exhausted, and passing where it was the infrastructure that failed.
pub proof fn law_what_became_of_a_run_decides_its_use(r: RecordView)
    ensures
        r.servable() <==> r.outcome is Completed && r.output_tree is Some,
        r.terminal() <==> r.outcome is Refused || r.outcome is Exhausted,
        r.transient() <==> r.outcome is Infra,
{
}

/// A run is known by its tool, its model, the tree before it and its prompt, in this order.
pub proof fn law_a_run_is_known_by_four_things(k: Key)
    ensures
        parts(k).len() == 4 && fields(k).len() == 4,
        parts(k)[0] == k.tool@ && fields(k)[0] == encode_utf8(k.tool@),
        parts(k)[1] == k.model@ && fields(k)[1] == encode_utf8(k.model@),
        parts(k)[2] == k.before@ && fields(k)[2] == encode_utf8(k.before@),
        parts(k)[3] == k.prompt@ && fields(k)[3] == encode_utf8(k.prompt@),
{
}

} // verus!
