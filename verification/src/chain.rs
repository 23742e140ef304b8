//! The pipeline: a chain of invocations over every case in scope. The steps of a chain differ in
//! their prompts and in nothing else.

use crate::artifact;
use crate::artifact::Entry;
use crate::battery;
use crate::cli::Variant;
use crate::eval;
use crate::eval::Resolved;
use crate::invocation::Produced;
use crate::paths;
use crate::text;
use vstd::prelude::*;
use vstd::string::*;

verus! {

// ---------------------------------------------------------------------------
// Roles
// ---------------------------------------------------------------------------

/// What a step of a chain is for.
#[derive(Debug, Copy, Clone, PartialEq, Eq, Structural)]
pub enum Role {
    Translate,
    Verify,
}

impl Role {
    /// The name of the step in a message.
    pub open spec fn word(self) -> Seq<char> {
        match self {
            Role::Translate => "Translate"@,
            Role::Verify => "Verify"@,
        }
    }

    /// The directory that the step publishes into.
    pub open spec fn place(self) -> Seq<char> {
        match self {
            Role::Translate => artifact::TRANSLATED@,
            Role::Verify => artifact::VERIFIED@,
        }
    }

    /// The transcript of the step.
    pub open spec fn transcript(self) -> Seq<char> {
        match self {
            Role::Translate => "translation.log"@,
            Role::Verify => "verify.log"@,
        }
    }

    /// The name of the step in a message.
    pub fn name(self) -> (r: &'static str)
        ensures
            r@ == self.word(),
    {
        match self {
            Role::Translate => "Translate",
            Role::Verify => "Verify",
        }
    }

    /// The directory that the step publishes into.
    pub fn dir(self) -> (r: &'static str)
        ensures
            r@ == self.place(),
    {
        match self {
            Role::Translate => artifact::TRANSLATED,
            Role::Verify => artifact::VERIFIED,
        }
    }

    /// Where the transcript of the step is, in the directory that it publishes into.
    pub fn log_in(self, dir: &str) -> (r: String)
        ensures
            r@ == paths::joined(paths::joined(dir@, "logs"@), self.transcript()),
    {
        let name = match self {
            Role::Translate => "translation.log",
            Role::Verify => "verify.log",
        };
        paths::join3(dir, "logs", name)
    }
}

/// The steps to run: all of them, or the first few.
pub open spec fn prefix(roles: Seq<Role>, steps: Option<usize>) -> Seq<Role> {
    match steps {
        Some(n) => if n < roles.len() {
            roles.subrange(0, n as int)
        } else {
            roles
        },
        None => roles,
    }
}

/// The steps of a chain, by the prompts that it runs with. A combined prompt does both in one session.
pub open spec fn chain_of(variant: Variant) -> Seq<Role> {
    if variant == Variant::Combined {
        seq![Role::Translate]
    } else {
        seq![Role::Translate, Role::Verify]
    }
}

/// The steps of a chain, by the prompts that it runs with.
pub fn roles_of(variant: Variant) -> (r: Vec<Role>)
    ensures
        r@ == chain_of(variant),
{
    let mut out: Vec<Role> = Vec::new();
    out.push(Role::Translate);
    if variant != Variant::Combined {
        out.push(Role::Verify);
    }
    assert(out@ =~= chain_of(variant));
    out
}

/// The steps to run.
pub fn first_steps(roles: &[Role], steps: Option<usize>) -> (r: Vec<Role>)
    ensures
        r@ == prefix(roles@, steps),
{
    let n: usize = match steps {
        Some(n) => if n < roles.len() {
            n
        } else {
            roles.len()
        },
        None => roles.len(),
    };
    let mut out: Vec<Role> = Vec::new();
    let mut i: usize = 0;
    while i < n
        invariant
            i <= n <= roles.len(),
            out@ == roles@.subrange(0, i as int),
        decreases n - i,
    {
        out.push(roles[i]);
        i = i + 1;
        assert(out@ =~= roles@.subrange(0, i as int));
    }
    assert(roles@.subrange(0, roles.len() as int) =~= roles@);
    out
}

// ---------------------------------------------------------------------------
// Jobs
// ---------------------------------------------------------------------------

/// Which prompt a case is handed.
#[derive(Debug, Copy, Clone, PartialEq, Eq, Structural)]
pub enum Shape {
    Executable,
    Library,
    /// One source for several configurations.
    Shared,
}

impl Shape {
    /// The shape of a case.
    pub fn of(is_lib: bool, shared: bool) -> (r: Shape)
        ensures
            r == (if shared {
                Shape::Shared
            } else if is_lib {
                Shape::Library
            } else {
                Shape::Executable
            }),
    {
        if shared {
            Shape::Shared
        } else if is_lib {
            Shape::Library
        } else {
            Shape::Executable
        }
    }
}

/// What the scorer expects to build: a question of its own, beside the prompt's.
#[derive(Debug)]
pub enum Artifact {
    /// A library that is loaded by name.
    Cdylib { lib_name: String },
    /// A program.
    Driver,
    /// What other configurations are derived from.
    Template { default_features: Vec<String>, needs_driver: bool },
}

/// Everything that a chain needs about one case.
#[derive(Debug)]
pub struct Job {
    pub name: String,
    /// The root of the case in the corpus.
    pub case_inputs: String,
    /// The C of the case.
    pub corpus: String,
    /// Where each step publishes.
    pub case_dir: String,
    pub shape: Shape,
    pub artifact: Artifact,
    pub followers: Vec<Follower>,
}

/// Another configuration of a job's one translation.
#[derive(Debug)]
pub struct Follower {
    pub cfg: battery::Config,
    pub case_inputs: String,
    pub corpus: String,
    pub case_dir: String,
}

/// What an `Artifact` says.
pub enum ArtifactView {
    Cdylib { lib_name: Seq<char> },
    Driver,
    Template { default_features: Seq<Seq<char>>, needs_driver: bool },
}

/// What a `Follower` says.
pub struct FollowerView {
    pub cfg: battery::ConfigView,
    pub case_inputs: Seq<char>,
    pub corpus: Seq<char>,
    pub case_dir: Seq<char>,
}

/// What a `Job` says.
pub struct JobView {
    pub name: Seq<char>,
    pub case_inputs: Seq<char>,
    pub corpus: Seq<char>,
    pub case_dir: Seq<char>,
    pub shape: Shape,
    pub artifact: ArtifactView,
    pub followers: Seq<FollowerView>,
}

impl View for Artifact {
    type V = ArtifactView;

    open spec fn view(&self) -> ArtifactView {
        match *self {
            Artifact::Cdylib { lib_name } => ArtifactView::Cdylib { lib_name: lib_name@ },
            Artifact::Driver => ArtifactView::Driver,
            Artifact::Template { default_features, needs_driver } => ArtifactView::Template {
                default_features: text::views(default_features@),
                needs_driver,
            },
        }
    }
}

impl View for Follower {
    type V = FollowerView;

    open spec fn view(&self) -> FollowerView {
        FollowerView {
            cfg: self.cfg@,
            case_inputs: self.case_inputs@,
            corpus: self.corpus@,
            case_dir: self.case_dir@,
        }
    }
}

impl View for Job {
    type V = JobView;

    open spec fn view(&self) -> JobView {
        JobView {
            name: self.name@,
            case_inputs: self.case_inputs@,
            corpus: self.corpus@,
            case_dir: self.case_dir@,
            shape: self.shape,
            artifact: self.artifact@,
            followers: self.followers@.map_values(|f: Follower| f@),
        }
    }
}

/// The directories of followers.
pub open spec fn follower_dirs(fs: Seq<Follower>) -> Seq<Seq<char>> {
    fs.map_values(|f: Follower| f.case_dir@)
}

/// The directories that a job publishes into: its own, and then those of its followers.
pub open spec fn job_dirs(j: Job) -> Seq<Seq<char>> {
    seq![j.case_dir@] + follower_dirs(j.followers@)
}

/// The directories that jobs publish into.
pub open spec fn all_dirs(jobs: Seq<Job>) -> Seq<Seq<char>>
    decreases jobs.len(),
{
    if jobs.len() == 0 {
        Seq::empty()
    } else {
        all_dirs(jobs.drop_last()) + job_dirs(jobs.last())
    }
}

fn push_dirs(job: &Job, out: &mut Vec<String>)
    ensures
        text::views(final(out)@) == text::views(old(out)@) + job_dirs(*job),
{
    let ghost before = text::views(out@);
    let ghost fs = follower_dirs(job.followers@);
    out.push(text::copy(job.case_dir.as_str()));
    assert(text::views(out@) =~= before + (seq![job.case_dir@] + fs.subrange(0, 0)));
    let mut i: usize = 0;
    while i < job.followers.len()
        invariant
            i <= job.followers.len(),
            fs == follower_dirs(job.followers@),
            text::views(out@) == before + (seq![job.case_dir@] + fs.subrange(0, i as int)),
        decreases job.followers.len() - i,
    {
        broadcast use text::lemma_views_push;

        let ghost so_far = text::views(out@);
        out.push(text::copy(job.followers[i].case_dir.as_str()));
        assert(fs[i as int] == job.followers@[i as int].case_dir@);
        assert(text::views(out@) == so_far.push(fs[i as int]));
        i = i + 1;
        assert(text::views(out@) =~= before + (seq![job.case_dir@] + fs.subrange(0, i as int)));
    }
    assert(fs.subrange(0, job.followers.len() as int) =~= fs);
}

/// Every directory that jobs publish into, their followers' too.
pub fn case_dirs(jobs: &[Job]) -> (r: Vec<String>)
    ensures
        text::views(r@) == all_dirs(jobs@),
{
    let mut out: Vec<String> = Vec::new();
    let mut i: usize = 0;
    assert(text::views(out@) =~= all_dirs(jobs@.subrange(0, 0)));
    while i < jobs.len()
        invariant
            i <= jobs.len(),
            text::views(out@) == all_dirs(jobs@.subrange(0, i as int)),
        decreases jobs.len() - i,
    {
        assert(jobs@.subrange(0, i + 1).drop_last() =~= jobs@.subrange(0, i as int));
        assert(jobs@.subrange(0, i + 1).last() == jobs@[i as int]);
        push_dirs(&jobs[i], &mut out);
        i = i + 1;
    }
    assert(jobs@.subrange(0, jobs.len() as int) =~= jobs@);
    out
}

/// The jobs of a unit, by their places.
pub open spec fn unit_queue(unit: int, n: nat) -> Seq<(int, int)>
    decreases n,
{
    if n == 0 {
        Seq::empty()
    } else {
        unit_queue(unit, (n - 1) as nat).push((unit, n - 1))
    }
}

/// The jobs of all units, one after the other, by their places.
pub open spec fn queue_of(units: Seq<(String, Vec<Job>)>) -> Seq<(int, int)>
    decreases units.len(),
{
    if units.len() == 0 {
        Seq::empty()
    } else {
        queue_of(units.drop_last()) + unit_queue(units.len() - 1, units.last().1@.len())
    }
}

/// Places of jobs.
pub open spec fn places_of(v: Seq<(usize, usize)>) -> Seq<(int, int)> {
    v.map_values(|p: (usize, usize)| (p.0 as int, p.1 as int))
}

/// The jobs of all units as one queue: workers take from it whatever unit a job is of, so that a unit
/// of one case leaves none of them idle.
pub fn queue(units: &[(String, Vec<Job>)]) -> (r: Vec<(usize, usize)>)
    ensures
        places_of(r@) == queue_of(units@),
{
    let mut out: Vec<(usize, usize)> = Vec::new();
    let mut i: usize = 0;
    assert(places_of(out@) =~= queue_of(units@.subrange(0, 0)));
    while i < units.len()
        invariant
            i <= units.len(),
            places_of(out@) == queue_of(units@.subrange(0, i as int)),
        decreases units.len() - i,
    {
        let ghost now = units@.subrange(0, i + 1);
        assert(now.drop_last() =~= units@.subrange(0, i as int));
        assert(now.last() == units@[i as int]);
        let ghost before = places_of(out@);
        let n: usize = units[i].1.len();
        let mut j: usize = 0;
        assert(places_of(out@) =~= before + unit_queue(i as int, 0));
        while j < n
            invariant
                j <= n,
                places_of(out@) == before + unit_queue(i as int, j as nat),
            decreases n - j,
        {
            let ghost o = out@;
            out.push((i, j));
            j = j + 1;
            assert(places_of(out@) =~= places_of(o).push((i as int, j - 1)));
            assert(places_of(out@) =~= before + unit_queue(i as int, j as nat));
        }
        i = i + 1;
    }
    assert(units@.subrange(0, units.len() as int) =~= units@);
    out
}

// ---------------------------------------------------------------------------
// One case along its chain
// ---------------------------------------------------------------------------

/// How often an invocation is tried where the provider fails in passing.
pub const TRANSIENT_ATTEMPTS: u64 = 3;

/// The seconds to wait after the first failure; after the second, twice as many.
pub const BACKOFF_SECS: u64 = 30;

/// What a step came to, as far as the chain is concerned.
#[derive(Debug, Copy, Clone, PartialEq, Eq, Structural)]
pub enum Answer {
    /// There is a tree.
    Done,
    /// The provider failed in passing.
    Transient,
    /// The tool answered no, and will again.
    Declined,
    /// The run did not finish, and nobody can say what it would have come to.
    Incomplete,
    /// Nothing is stored and nothing may be paid for.
    Unavailable,
}

/// What a step came to.
pub open spec fn answered(p: Produced) -> Answer {
    match p {
        Produced::Done { record: _, replayed: _ } => Answer::Done,
        Produced::DidNotComplete(r) => if r@.transient() {
            Answer::Transient
        } else if r@.terminal() {
            Answer::Declined
        } else {
            Answer::Incomplete
        },
        Produced::Unavailable => Answer::Unavailable,
    }
}

/// What a step came to.
pub fn answer_of(p: &Produced) -> (r: Answer)
    ensures
        r == answered(*p),
{
    match p {
        Produced::Done { record: _, replayed: _ } => Answer::Done,
        Produced::DidNotComplete(r) => if r.is_transient() {
            Answer::Transient
        } else if r.is_terminal() {
            Answer::Declined
        } else {
            Answer::Incomplete
        },
        Produced::Unavailable => Answer::Unavailable,
    }
}

/// A case on its way along its chain.
#[derive(Debug)]
pub struct CaseRun {
    name: String,
    roles: Vec<Role>,
    at: usize,
    attempt: u64,
    over: bool,
}

/// A case on its way along its chain, mathematically: the step that it is at, how often that was
/// tried, and whether the chain is over.
pub struct CaseState {
    pub name: Seq<char>,
    pub roles: Seq<Role>,
    pub at: int,
    pub attempt: int,
    pub over: bool,
}

impl CaseState {
    /// A chain that is not over is at one of its steps, and has tries left.
    pub open spec fn well_formed(self) -> bool {
        !self.over ==> 0 <= self.at < self.roles.len() && 1 <= self.attempt <= TRANSIENT_ATTEMPTS
    }

    /// The step that the chain is at.
    pub open spec fn role(self) -> Role {
        self.roles[self.at]
    }

    /// How many invocations are left at most.
    pub open spec fn left(self) -> int {
        if self.over {
            0
        } else {
            (self.roles.len() - self.at) * 3 - (self.attempt - 1)
        }
    }
}

/// What is done next.
#[derive(Debug)]
pub enum Action {
    /// Take a permit and invoke the agent for a step.
    Invoke { role: Role, attempt: u64 },
    /// Say something and wait, holding no permit; then invoke again.
    Wait { secs: u64, note: String },
    /// Publish what a step came to, for the case and for its followers, and go on.
    Publish { role: Role },
    /// Publish an empty translation for a step, say something, and stop: the case is scored as a
    /// failure, and counted as a refusal.
    PublishEmpty { role: Role, note: String, refused: String },
    /// Give the case up.
    Fail(String),
    Finished,
}

/// What is done next, mathematically.
pub enum ActionView {
    Invoke { role: Role, attempt: int },
    Wait { secs: int, note: Seq<char> },
    Publish { role: Role },
    PublishEmpty { role: Role, note: Seq<char>, refused: Seq<char> },
    Fail(Seq<char>),
    Finished,
}

impl View for Action {
    type V = ActionView;

    open spec fn view(&self) -> ActionView {
        match *self {
            Action::Invoke { role, attempt } => ActionView::Invoke { role, attempt: attempt as int },
            Action::Wait { secs, note } => ActionView::Wait { secs: secs as int, note: note@ },
            Action::Publish { role } => ActionView::Publish { role },
            Action::PublishEmpty { role, note, refused } => ActionView::PublishEmpty {
                role,
                note: note@,
                refused: refused@,
            },
            Action::Fail(e) => ActionView::Fail(e@),
            Action::Finished => ActionView::Finished,
        }
    }
}

/// What is said of a try that failed in passing.
pub open spec fn retry_note(name: Seq<char>, role: Role, attempt: int) -> Seq<char> {
    "  ⟳ "@ + name + ": "@ + role.word() + " attempt "@ + text::numeral(attempt as nat) + " of "@
        + text::numeral(TRANSIENT_ATTEMPTS as nat)
        + " hit a transient provider failure, retrying"@
}

/// What is said of a tool that answered no.
pub open spec fn declined_note(name: Seq<char>, role: Role, words: Seq<char>) -> Seq<char> {
    "  🚫 "@ + name + ": "@ + role.word() + " answered no: "@ + words
}

/// The failure of a step that did not finish.
pub open spec fn incomplete(role: Role, words: Seq<char>) -> Seq<char> {
    "the "@ + role.word() + " step did not complete: "@ + words
}

/// The failure of a step that is not stored.
pub open spec fn unavailable(name: Seq<char>, role: Role) -> Seq<char> {
    "--replay-only: no stored entry for the "@ + role.word() + " step of "@ + name
        + ", so nothing here is measured. The store does not cover this case at these inputs -- most often because the prompt or the model moved, and both are key components."@
}

/// The chain before its first step.
pub open spec fn started(name: Seq<char>, roles: Seq<Role>) -> CaseState {
    CaseState { name, roles, at: 0, attempt: 1, over: roles.len() == 0 }
}

/// What is to be done, where nothing has to be heard first.
pub open spec fn due(s: CaseState) -> ActionView {
    if s.over {
        ActionView::Finished
    } else {
        ActionView::Invoke { role: s.role(), attempt: s.attempt }
    }
}

/// What a chain does about an answer, and where it then is.
pub open spec fn heard(s: CaseState, a: Answer, words: Seq<char>) -> (CaseState, ActionView) {
    let stopped = CaseState { over: true, ..s };
    match a {
        Answer::Done => {
            let next = s.at + 1;
            (
                CaseState { at: next, attempt: 1, over: next >= s.roles.len(), ..s },
                ActionView::Publish { role: s.role() },
            )
        },
        Answer::Transient => if s.attempt < TRANSIENT_ATTEMPTS {
            (
                CaseState { attempt: s.attempt + 1, ..s },
                ActionView::Wait {
                    secs: BACKOFF_SECS * s.attempt,
                    note: retry_note(s.name, s.role(), s.attempt),
                },
            )
        } else {
            (stopped, ActionView::Fail(incomplete(s.role(), words)))
        },
        Answer::Incomplete => (stopped, ActionView::Fail(incomplete(s.role(), words))),
        Answer::Declined => (
            stopped,
            ActionView::PublishEmpty {
                role: s.role(),
                note: declined_note(s.name, s.role(), words),
                refused: s.name + "/"@ + s.role().word(),
            },
        ),
        Answer::Unavailable => (stopped, ActionView::Fail(unavailable(s.name, s.role()))),
    }
}

impl View for CaseRun {
    type V = CaseState;

    closed spec fn view(&self) -> CaseState {
        CaseState {
            name: self.name@,
            roles: self.roles@,
            at: self.at as int,
            attempt: self.attempt as int,
            over: self.over,
        }
    }
}

impl CaseRun {
    /// A case before the first step of its chain.
    pub fn start(name: &str, roles: Vec<Role>) -> (r: CaseRun)
        ensures
            r@ == started(name@, roles@),
            r@.well_formed(),
    {
        let over = roles.len() == 0;
        CaseRun { name: text::copy(name), roles, at: 0, attempt: 1, over }
    }

    /// What is to be done, where nothing has to be heard first.
    pub fn next(&self) -> (r: Action)
        requires
            self@.well_formed(),
        ensures
            r@ == due(self@),
    {
        if self.over {
            Action::Finished
        } else {
            Action::Invoke { role: self.roles[self.at], attempt: self.attempt }
        }
    }

    /// What is done about an answer. `words` say what became of a run that did not finish.
    pub fn hear(&mut self, a: Answer, words: &str) -> (r: Action)
        requires
            old(self)@.well_formed(),
            !old(self)@.over,
        ensures
            final(self)@ == heard(old(self)@, a, words@).0,
            r@ == heard(old(self)@, a, words@).1,
            final(self)@.well_formed(),
    {
        let role = self.roles[self.at];
        let steps: usize = self.roles.len();
        match a {
            Answer::Done => {
                self.at = self.at + 1;
                self.attempt = 1;
                self.over = self.at >= steps;
                Action::Publish { role }
            },
            Answer::Transient => {
                if self.attempt < TRANSIENT_ATTEMPTS {
                    let mut note = text::join3("  ⟳ ", self.name.as_str(), ": ");
                    note.append(role.name());
                    note.append(" attempt ");
                    text::push_numeral(&mut note, self.attempt);
                    note.append(" of ");
                    text::push_numeral(&mut note, TRANSIENT_ATTEMPTS);
                    note.append(" hit a transient provider failure, retrying");
                    let secs: u64 = BACKOFF_SECS * self.attempt;
                    self.attempt = self.attempt + 1;
                    Action::Wait { secs, note }
                } else {
                    self.over = true;
                    Action::Fail(incomplete_words(role, words))
                }
            },
            Answer::Incomplete => {
                self.over = true;
                Action::Fail(incomplete_words(role, words))
            },
            Answer::Declined => {
                self.over = true;
                let mut note = text::join3("  🚫 ", self.name.as_str(), ": ");
                note.append(role.name());
                note.append(" answered no: ");
                note.append(words);
                let refused = text::join3(self.name.as_str(), "/", role.name());
                Action::PublishEmpty { role, note, refused }
            },
            Answer::Unavailable => {
                self.over = true;
                let head = text::join3(
                    "--replay-only: no stored entry for the ",
                    role.name(),
                    " step of ",
                );
                let e = text::join3(
                    head.as_str(),
                    self.name.as_str(),
                    ", so nothing here is measured. The store does not cover this case at these inputs -- most often because the prompt or the model moved, and both are key components.",
                );
                Action::Fail(e)
            },
        }
    }
}

fn incomplete_words(role: Role, words: &str) -> (r: String)
    ensures
        r@ == incomplete(role, words@),
{
    let head = text::join3("the ", role.name(), " step did not complete: ");
    text::join2(head.as_str(), words)
}

// ---------------------------------------------------------------------------
// What is published
// ---------------------------------------------------------------------------

/// Directories with a step's directory in each.
pub open spec fn in_each(dirs: Seq<Seq<char>>, role: Role) -> Seq<Seq<char>> {
    dirs.map_values(|d: Seq<char>| paths::joined(d, role.place()))
}

/// Where a step that was declined publishes its empty translation: for the case alone, and for none of
/// its followers.
pub fn declined_places(job: &Job, role: Role) -> (r: Vec<String>)
    ensures
        text::views(r@) == seq![paths::joined(job.case_dir@, role.place())],
{
    let mut out: Vec<String> = Vec::new();
    out.push(paths::join(job.case_dir.as_str(), role.dir()));
    assert(text::views(out@) =~= seq![paths::joined(job.case_dir@, role.place())]);
    out
}

/// Where a step of a job publishes: for the case, and then for its followers, each under its own
/// configuration.
pub fn publish_places(job: &Job, role: Role) -> (r: Vec<String>)
    ensures
        text::views(r@) == in_each(job_dirs(*job), role),
{
    let mut dirs: Vec<String> = Vec::new();
    push_dirs(job, &mut dirs);
    let ghost all = job_dirs(*job);
    assert(text::views(dirs@) =~= all);
    let mut out: Vec<String> = Vec::new();
    let mut i: usize = 0;
    while i < dirs.len()
        invariant
            i <= dirs.len(),
            all == text::views(dirs@),
            out@.len() == i,
            forall|k: int|
                0 <= k < i ==> (#[trigger] out@[k])@ == paths::joined(all[k], role.place()),
        decreases dirs.len() - i,
    {
        assert(all[i as int] == dirs@[i as int]@);
        out.push(paths::join(dirs[i].as_str(), role.dir()));
        i = i + 1;
    }
    assert(text::views(out@) =~= in_each(all, role));
    out
}

/// Where a step publishes. Nothing reads what is in it.
#[derive(Debug)]
pub struct Publish(String);

/// The entries of a directory that a fresh result replaces: all but the transcripts, which were
/// written before it.
pub open spec fn replaced_entries(names: Seq<Seq<char>>) -> Seq<Seq<char>>
    decreases names.len(),
{
    if names.len() == 0 {
        Seq::empty()
    } else if names.last() == "logs"@ {
        replaced_entries(names.drop_last())
    } else {
        replaced_entries(names.drop_last()).push(names.last())
    }
}

impl View for Publish {
    type V = Seq<char>;

    closed spec fn view(&self) -> Seq<char> {
        self.0@
    }
}

impl Publish {
    /// Opens a directory to publish into: the entries to remove, of those that are there.
    pub fn open(dir: &str, names: &[String]) -> (r: (Publish, Vec<String>))
        ensures
            r.0@ == dir@,
            text::views(r.1@) == replaced_entries(text::views(names@)),
    {
        let ghost all = text::views(names@);
        let mut out: Vec<String> = Vec::new();
        let mut i: usize = 0;
        assert(text::views(out@) =~= replaced_entries(all.subrange(0, 0)));
        while i < names.len()
            invariant
                i <= names.len(),
                all == text::views(names@),
                text::views(out@) == replaced_entries(all.subrange(0, i as int)),
            decreases names.len() - i,
        {
            broadcast use text::lemma_views_push;

            assert(all.subrange(0, i + 1).drop_last() =~= all.subrange(0, i as int));
            assert(all.subrange(0, i + 1).last() == names@[i as int]@);
            if !text::same_text(names[i].as_str(), "logs") {
                out.push(text::copy(names[i].as_str()));
            }
            i = i + 1;
        }
        assert(all.subrange(0, names.len() as int) =~= all);
        (Publish(text::copy(dir)), out)
    }

    /// Where the transcript of a step goes.
    pub fn log(&self, role: Role) -> (r: String)
        ensures
            r@ == paths::joined(paths::joined(self@, "logs"@), role.transcript()),
    {
        role.log_in(self.0.as_str())
    }

    /// The directory itself, under which the scorer looks a case up.
    pub fn at(&self) -> (r: &str)
        ensures
            r@ == self@,
    {
        self.0.as_str()
    }
}

/// What the chain of one case came to.
#[derive(Debug)]
pub struct CaseOutcome {
    /// What it published, each tree with the directory that it was published into.
    pub published: Vec<(String, Vec<Entry>)>,
    /// The steps that were declined.
    pub refused: Vec<String>,
}

/// What the chains of all cases came to.
#[derive(Debug)]
pub struct Ran {
    /// What they published.
    pub resolved: Resolved,
    /// The cases that were given up.
    pub failures: Vec<String>,
    /// The steps that were declined: scored as failures, and counted apart.
    pub refused: Vec<String>,
}

fn extend(v: &mut Vec<String>, more: Vec<String>)
    ensures
        text::views(final(v)@) == text::views(old(v)@) + text::views(more@),
{
    let ghost before = text::views(v@);
    let ghost all = text::views(more@);
    let mut i: usize = 0;
    assert(text::views(v@) =~= before + all.subrange(0, 0));
    while i < more.len()
        invariant
            i <= more.len(),
            all == text::views(more@),
            text::views(v@) == before + all.subrange(0, i as int),
        decreases more.len() - i,
    {
        broadcast use text::lemma_views_push;

        let ghost so_far = text::views(v@);
        v.push(text::copy(more[i].as_str()));
        assert(all[i as int] == more@[i as int]@);
        assert(text::views(v@) == so_far.push(all[i as int]));
        i = i + 1;
        assert(text::views(v@) =~= before + all.subrange(0, i as int));
    }
    assert(all.subrange(0, more.len() as int) =~= all);
}

impl Ran {
    /// Nothing was run yet.
    pub fn new() -> (r: Ran)
        ensures
            r.resolved@ == Map::<Seq<char>, Seq<Entry>>::empty(),
            r.failures@.len() == 0,
            r.refused@.len() == 0,
    {
        Ran { resolved: Resolved::new(), failures: Vec::new(), refused: Vec::new() }
    }

    /// Adds what the chain of a case came to: what it published and what was declined, or, where it
    /// was given up, its name. What comes back is the line to print.
    pub fn collect(&mut self, unit: &str, name: &str, outcome: Result<CaseOutcome, String>) -> (r:
        Option<String>)
        ensures
            match outcome {
                Ok(done) => {
                    &&& r is None
                    &&& final(self).resolved@ == old(self).resolved@.union_prefer_right(
                        eval::trees_in(done.published@),
                    )
                    &&& text::views(final(self).refused@) == text::views(old(self).refused@)
                        + text::views(done.refused@)
                    &&& final(self).failures@ == old(self).failures@
                },
                Err(e) => {
                    &&& r matches Some(line) && line@ == "  ❌ "@ + unit@ + "/"@ + name@ + ": "@
                        + e@
                    &&& text::views(final(self).failures@) == text::views(
                        old(self).failures@,
                    ).push(name@)
                    &&& final(self).resolved@ == old(self).resolved@
                    &&& final(self).refused@ == old(self).refused@
                },
            },
    {
        match outcome {
            Ok(done) => {
                self.resolved.extend(done.published);
                extend(&mut self.refused, done.refused);
                None
            },
            Err(e) => {
                broadcast use text::lemma_views_push;

                self.failures.push(text::copy(name));
                let mut line = text::join3("  ❌ ", unit, "/");
                line.append(name);
                line.append(": ");
                line.append(e.as_str());
                Some(line)
            },
        }
    }
}

// ---------------------------------------------------------------------------
// Laws
// ---------------------------------------------------------------------------

/// A chain ends: whatever it hears, fewer invocations are left, so that a case is invoked three times
/// for each of its steps at most.
pub proof fn law_a_chain_ends(s: CaseState, a: Answer, words: Seq<char>)
    requires
        s.well_formed(),
        !s.over,
    ensures
        heard(s, a, words).0.well_formed(),
        0 <= heard(s, a, words).0.left() < s.left(),
        started(s.name, s.roles).left() == s.roles.len() * 3,
{
}

/// The steps of a chain are published in their order, each once: a step is published only where it is
/// done, and then the chain is at the next one.
pub proof fn law_steps_are_published_in_their_order(s: CaseState, a: Answer, words: Seq<char>)
    requires
        s.well_formed(),
        !s.over,
    ensures
        heard(s, a, words).1 is Publish <==> a == Answer::Done,
        a == Answer::Done ==> heard(s, a, words).1 == (ActionView::Publish { role: s.roles[s.at] })
            && heard(s, a, words).0.at == s.at + 1,
        a != Answer::Done ==> heard(s, a, words).0.at == s.at,
        heard(s, a, words).0.roles == s.roles,
{
}

/// A tool that answered no ends the chain, and so does a run of which nothing can be said: no later
/// step is handed what an earlier one did not make.
pub proof fn law_no_step_follows_a_failure(s: CaseState, a: Answer, words: Seq<char>)
    requires
        s.well_formed(),
        !s.over,
        a == Answer::Declined || a == Answer::Incomplete || a == Answer::Unavailable,
    ensures
        heard(s, a, words).0.over,
        due(heard(s, a, words).0) is Finished,
{
}

/// The number of directories that jobs publish into.
pub open spec fn dir_count(jobs: Seq<Job>) -> nat
    decreases jobs.len(),
{
    if jobs.len() == 0 {
        0
    } else {
        dir_count(jobs.drop_last()) + 1 + jobs.last().followers@.len()
    }
}

/// Every case and every follower has its directory.
pub proof fn law_followers_are_counted(jobs: Seq<Job>)
    ensures
        all_dirs(jobs).len() == dir_count(jobs),
    decreases jobs.len(),
{
    if jobs.len() > 0 {
        law_followers_are_counted(jobs.drop_last());
    }
}

/// The transcripts survive and nothing else does.
pub proof fn law_only_transcripts_survive(names: Seq<Seq<char>>, name: Seq<char>)
    ensures
        replaced_entries(names).contains(name) <==> names.contains(name) && name != "logs"@,
    decreases names.len(),
{
    let r = replaced_entries(names);
    if names.len() > 0 {
        let d = names.drop_last();
        let e = replaced_entries(d);
        law_only_transcripts_survive(d, name);
        if e.contains(name) {
            let i = choose|i: int| 0 <= i < e.len() && e[i] == name;
            assert(r[i] == name);
        }
        if d.contains(name) {
            let i = choose|i: int| 0 <= i < d.len() && d[i] == name;
            assert(names[i] == name);
        }
        if names.contains(name) {
            let i = choose|i: int| 0 <= i < names.len() && names[i] == name;
            if i < d.len() {
                assert(d[i] == name);
            } else if name != "logs"@ {
                assert(r[r.len() - 1] == name);
            }
        }
        if r.contains(name) {
            let i = choose|i: int| 0 <= i < r.len() && r[i] == name;
            if i < e.len() {
                assert(e[i] == name);
            } else {
                assert(names[names.len() - 1] == name);
            }
        }
    }
}

/// Only a tool that answered no has an empty translation published for it, and is counted as a refusal
/// of this step of this case. A case is given up where a run cannot be judged, where nothing is stored
/// that may be served, and where the provider failed in passing for the third time.
pub proof fn law_only_a_refusal_publishes_an_empty_translation(
    s: CaseState,
    a: Answer,
    words: Seq<char>,
)
    requires
        s.well_formed(),
        !s.over,
    ensures
        heard(s, a, words).1 is PublishEmpty <==> a == Answer::Declined,
        heard(s, a, words).1 is Fail <==> {
            ||| a == Answer::Incomplete
            ||| a == Answer::Unavailable
            ||| a == Answer::Transient && s.attempt == 3
        },
        heard(s, a, words).1 is Wait <==> a == Answer::Transient && s.attempt < 3,
        heard(s, a, words).1 matches ActionView::PublishEmpty { role, note, refused } ==> {
            &&& role == s.roles[s.at]
            &&& role == Role::Translate ==> refused == s.name + "/"@ + "Translate"@
            &&& role == Role::Verify ==> refused == s.name + "/"@ + "Verify"@
            &&& text::ends(note, words)
            &&& text::found(note, s.name)
        },
        heard(s, a, words).1 is Publish || heard(s, a, words).1 is Wait || heard(
            s,
            a,
            words,
        ).0.over,
{
    if a == Answer::Declined {
        let note = declined_note(s.name, s.role(), words);
        let head = "  🚫 "@ + s.name + ": "@ + s.role().word() + " answered no: "@;
        assert(note =~= head + words);
        assert(note.subrange(note.len() - words.len(), note.len() as int) =~= words);
        assert(note =~= "  🚫 "@ + s.name + (": "@ + s.role().word() + " answered no: "@ + words));
        text::lemma_found_inside(
            "  🚫 "@,
            s.name,
            ": "@ + s.role().word() + " answered no: "@ + words,
        );
    }
}

/// What a case that is given up says: which step it was and, where the run ended without a result, how
/// it ended. A run that is not stored is told as such.
pub proof fn law_a_case_that_is_given_up_says_why(s: CaseState, a: Answer, words: Seq<char>)
    requires
        s.well_formed(),
        !s.over,
    ensures
        heard(s, a, words).1 matches ActionView::Fail(e) ==> {
            &&& a != Answer::Unavailable ==> e == "the "@ + (if s.roles[s.at] == Role::Translate {
                "Translate"@
            } else {
                "Verify"@
            }) + " step did not complete: "@ + words
            &&& a == Answer::Unavailable ==> text::begins(
                e,
                "--replay-only: no stored entry for the "@ + (if s.roles[s.at] == Role::Translate {
                    "Translate"@
                } else {
                    "Verify"@
                }) + " step of "@ + s.name,
            )
        },
{
    if a == Answer::Unavailable {
        let head = "--replay-only: no stored entry for the "@ + s.role().word() + " step of "@
            + s.name;
        let e = unavailable(s.name, s.role());
        assert(e.subrange(0, head.len() as int) =~= head);
    }
}

/// A provider that failed in passing is waited for, half a minute longer each time; the step and the
/// case stay as they are, and the same step is then tried again.
pub proof fn law_a_passing_failure_is_waited_out(s: CaseState, words: Seq<char>)
    requires
        s.well_formed(),
        !s.over,
        s.attempt < 3,
    ensures
        heard(s, Answer::Transient, words).1 matches ActionView::Wait { secs, note } && secs == 30
            * s.attempt,
        due(heard(s, Answer::Transient, words).0) == (ActionView::Invoke {
            role: s.roles[s.at],
            attempt: s.attempt + 1,
        }),
{
}

/// A step that is done is followed by a first try of the next one, and the last by nothing.
pub proof fn law_the_next_step_is_tried_afresh(s: CaseState, words: Seq<char>)
    requires
        s.well_formed(),
        !s.over,
    ensures
        s.at + 1 < s.roles.len() ==> due(heard(s, Answer::Done, words).0) == (ActionView::Invoke {
            role: s.roles[s.at + 1],
            attempt: 1,
        }),
        s.at + 1 == s.roles.len() ==> due(heard(s, Answer::Done, words).0) is Finished,
        s.roles.len() > 0 ==> due(started(s.name, s.roles)) == (ActionView::Invoke {
            role: s.roles[0],
            attempt: 1,
        }),
{
}

/// What a run that did not finish means for its case: infrastructure is tried again, a refusal and a
/// spent budget are the tool's answer, and of anything else nobody can say what it would have come to.
pub proof fn law_what_became_of_a_run_decides_its_case(
    r: crate::store::AgentRecord,
    replayed: bool,
)
    ensures
        answered(Produced::DidNotComplete(r)) == Answer::Transient <==> r.outcome is Infra,
        answered(Produced::DidNotComplete(r)) == Answer::Declined <==> r.outcome is Refused
            || r.outcome is Exhausted,
        answered(Produced::DidNotComplete(r)) == Answer::Incomplete <==> r.outcome is Unknown
            || r.outcome is Completed,
        answered(Produced::Done { record: r, replayed }) == Answer::Done,
        answered(Produced::Unavailable) == Answer::Unavailable,
{
}

/// A run of the first few steps is a beginning of the chain: as many as were asked for, or all.
pub proof fn law_a_shortened_chain_is_a_beginning(roles: Seq<Role>, steps: Option<usize>, i: int)
    ensures
        prefix(roles, steps).len() <= roles.len(),
        steps is None ==> prefix(roles, steps).len() == roles.len(),
        steps matches Some(n) ==> prefix(roles, steps).len() == if n < roles.len() {
            n as nat
        } else {
            roles.len()
        },
        0 <= i < prefix(roles, steps).len() ==> prefix(roles, steps)[i] == roles[i],
{
}

/// Every chain begins with a translation and runs no step twice; it verifies in a step of its own
/// unless one prompt does both.
pub proof fn law_a_chain_translates_first(variant: Variant)
    ensures
        chain_of(variant).len() > 0,
        chain_of(variant)[0] == Role::Translate,
        chain_of(variant).no_duplicates(),
        chain_of(variant).contains(Role::Verify) <==> variant != Variant::Combined,
{
    if variant != Variant::Combined {
        assert(chain_of(variant)[1] == Role::Verify);
    }
}

/// A job publishes for its own case first and then for each follower, in their order.
pub proof fn law_a_job_publishes_for_itself_and_each_follower(j: Job, role: Role, i: int)
    ensures
        job_dirs(j).len() == 1 + j.followers@.len(),
        job_dirs(j)[0] == j.case_dir@,
        0 <= i < j.followers@.len() ==> job_dirs(j)[i + 1] == j.followers@[i].case_dir@,
        in_each(job_dirs(j), role).len() == job_dirs(j).len(),
        0 <= i < job_dirs(j).len() ==> in_each(job_dirs(j), role)[i] == paths::joined(
            job_dirs(j)[i],
            if role == Role::Translate {
                "translated"@
            } else {
                "verified"@
            },
        ),
        role.transcript() == if role == Role::Translate {
            "translation.log"@
        } else {
            "verify.log"@
        },
{
}

/// Every directory that a job publishes into is among those of all jobs, and there is no other.
pub proof fn law_all_directories_are_those_of_the_jobs(jobs: Seq<Job>, d: Seq<char>)
    ensures
        all_dirs(jobs).contains(d) <==> exists|k: int|
            0 <= k < jobs.len() && #[trigger] job_dirs(jobs[k]).contains(d),
    decreases jobs.len(),
{
    let all = all_dirs(jobs);
    if jobs.len() > 0 {
        let before = all_dirs(jobs.drop_last());
        let last = job_dirs(jobs.last());
        law_all_directories_are_those_of_the_jobs(jobs.drop_last(), d);
        if all.contains(d) {
            let i = choose|i: int| 0 <= i < all.len() && all[i] == d;
            if i < before.len() {
                assert(before[i] == d);
                let k = choose|k: int|
                    0 <= k < jobs.drop_last().len() && #[trigger] job_dirs(
                        jobs.drop_last()[k],
                    ).contains(d);
                assert(job_dirs(jobs[k]).contains(d));
            } else {
                assert(last[i - before.len()] == d);
                assert(job_dirs(jobs[jobs.len() - 1]).contains(d));
            }
        }
        if exists|k: int| 0 <= k < jobs.len() && #[trigger] job_dirs(jobs[k]).contains(d) {
            let k = choose|k: int| 0 <= k < jobs.len() && #[trigger] job_dirs(jobs[k]).contains(d);
            if k < jobs.len() - 1 {
                assert(job_dirs(jobs.drop_last()[k]).contains(d));
                let i = choose|i: int| 0 <= i < before.len() && before[i] == d;
                assert(all[i] == d);
            } else {
                let i = choose|i: int| 0 <= i < last.len() && last[i] == d;
                assert(all[before.len() + i] == d);
            }
        }
    }
}

proof fn lemma_unit_queue(unit: int, n: nat, i: int)
    ensures
        unit_queue(unit, n).len() == n,
        0 <= i < n ==> unit_queue(unit, n)[i] == (unit, i),
    decreases n,
{
    if n > 0 {
        lemma_unit_queue(unit, (n - 1) as nat, i);
    }
}

/// How many jobs units have together.
pub open spec fn job_count(units: Seq<(String, Vec<Job>)>) -> nat
    decreases units.len(),
{
    if units.len() == 0 {
        0
    } else {
        job_count(units.drop_last()) + units.last().1@.len()
    }
}

/// The queue holds every job of every unit, and nothing that is none; it is as long as there are jobs,
/// so that each stands in it once.
pub proof fn law_every_job_is_queued_once(units: Seq<(String, Vec<Job>)>, p: (int, int))
    ensures
        queue_of(units).contains(p) <==> 0 <= p.0 < units.len() && 0 <= p.1
            < units[p.0].1@.len(),
        queue_of(units).len() == job_count(units),
    decreases units.len(),
{
    let q = queue_of(units);
    if units.len() > 0 {
        let before = queue_of(units.drop_last());
        let n = units.last().1@.len();
        let u = units.len() - 1;
        let last = unit_queue(u, n);
        law_every_job_is_queued_once(units.drop_last(), p);
        lemma_unit_queue(u, n, p.1);
        assert(q == before + last);
        if q.contains(p) {
            let i = choose|i: int| 0 <= i < q.len() && q[i] == p;
            if i < before.len() {
                assert(before[i] == p);
            } else {
                lemma_unit_queue(u, n, i - before.len());
                assert(last[i - before.len()] == p);
            }
        }
        if 0 <= p.0 < units.len() && 0 <= p.1 < units[p.0].1@.len() {
            if p.0 < u {
                assert(before.contains(p));
                let i = choose|i: int| 0 <= i < before.len() && before[i] == p;
                assert(q[i] == p);
            } else {
                assert(last[p.1] == p);
                assert(q[before.len() + p.1] == p);
            }
        }
    }
}

/// What is said of a step names its case, its role and what became of it.
pub proof fn law_a_step_is_told_by_its_case_and_its_role(
    name: Seq<char>,
    role: Role,
    words: Seq<char>,
    attempt: nat,
)
    ensures
        retry_note(name, role, attempt as int) == "  ⟳ "@ + name + ": "@ + role.word()
            + " attempt "@ + text::numeral(attempt) + " of "@ + text::numeral(
            TRANSIENT_ATTEMPTS as nat,
        ) + " hit a transient provider failure, retrying"@,
        declined_note(name, role, words) == "  🚫 "@ + name + ": "@ + role.word()
            + " answered no: "@ + words,
        incomplete(role, words) == "the "@ + role.word() + " step did not complete: "@ + words,
        Role::Translate.word() == "Translate"@,
        Role::Verify.word() == "Verify"@,
        TRANSIENT_ATTEMPTS == 3,
{
}

} // verus!
