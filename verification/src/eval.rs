//! The tree that a score is taken from: made empty for every run, filled with what that run resolved,
//! and removed afterwards.

use crate::artifact;
use crate::artifact::Entry;
use crate::names;
use crate::names::Names;
use crate::paths;
use crate::text;
use vstd::prelude::*;
use vstd::string::*;

verus! {

/// The directory of all evaluation trees.
pub const EVAL_DIR: &'static str = ".eval";

// ---------------------------------------------------------------------------
// What is scored
// ---------------------------------------------------------------------------

/// Trees by the directories that they were published into: the last one for a directory counts.
pub open spec fn trees_in(s: Seq<(String, Vec<Entry>)>) -> Map<Seq<char>, Seq<Entry>>
    decreases s.len(),
{
    if s.len() == 0 {
        Map::empty()
    } else {
        trees_in(s.drop_last()).insert(s.last().0@, s.last().1@)
    }
}

/// What a score is taken from: the trees that this run resolved, by the directories that they were
/// published into, and nothing else.
#[derive(Debug)]
pub struct Resolved {
    trees: Vec<(String, Vec<Entry>)>,
}

impl View for Resolved {
    type V = Map<Seq<char>, Seq<Entry>>;

    closed spec fn view(&self) -> Map<Seq<char>, Seq<Entry>> {
        trees_in(self.trees@)
    }
}

proof fn lemma_trees_added(s: Seq<(String, Vec<Entry>)>, more: Seq<(String, Vec<Entry>)>)
    ensures
        trees_in(s + more) == trees_in(s).union_prefer_right(trees_in(more)),
    decreases more.len(),
{
    if more.len() == 0 {
        assert(s + more =~= s);
    } else {
        assert((s + more).drop_last() =~= s + more.drop_last());
        lemma_trees_added(s, more.drop_last());
    }
    assert(trees_in(s + more) =~= trees_in(s).union_prefer_right(trees_in(more)));
}

proof fn lemma_tree_is_there(s: Seq<(String, Vec<Entry>)>, i: int)
    requires
        0 <= i < s.len(),
    ensures
        trees_in(s).dom().contains(s[i].0@),
    decreases s.len(),
{
    if i < s.len() - 1 {
        assert(s.drop_last()[i] == s[i]);
        lemma_tree_is_there(s.drop_last(), i);
    }
}

proof fn lemma_tree_has_a_place(s: Seq<(String, Vec<Entry>)>, place: Seq<char>) -> (i: int)
    requires
        trees_in(s).dom().contains(place),
    ensures
        0 <= i < s.len(),
        s[i].0@ == place,
    decreases s.len(),
{
    if s.last().0@ == place {
        s.len() - 1
    } else {
        lemma_tree_has_a_place(s.drop_last(), place)
    }
}

impl Resolved {
    /// Nothing was resolved yet.
    pub fn new() -> (r: Resolved)
        ensures
            r@ == Map::<Seq<char>, Seq<Entry>>::empty(),
    {
        Resolved { trees: Vec::new() }
    }

    /// Adds trees. One for a directory that has one already takes its place.
    pub fn extend(&mut self, more: Vec<(String, Vec<Entry>)>)
        ensures
            final(self)@ == old(self)@.union_prefer_right(trees_in(more@)),
    {
        let ghost before = self.trees@;
        let mut more = more;
        let ghost added = more@;
        self.trees.append(&mut more);
        proof {
            lemma_trees_added(before, added);
        }
    }

    /// The tree that was published into exactly this directory.
    pub fn get(&self, place: &str) -> (r: Option<&Vec<Entry>>)
        ensures
            r is Some <==> self@.dom().contains(place@),
            r matches Some(t) ==> t@ == self@[place@],
    {
        let ghost all = self.trees@;
        let mut n: usize = self.trees.len();
        assert(all.subrange(0, n as int) =~= all);
        while n > 0
            invariant
                n <= self.trees.len(),
                all == self.trees@,
                trees_in(all).dom().contains(place@) == trees_in(
                    all.subrange(0, n as int),
                ).dom().contains(place@),
                trees_in(all)[place@] == trees_in(all.subrange(0, n as int))[place@],
            decreases n,
        {
            assert(all.subrange(0, n as int).drop_last() =~= all.subrange(0, n - 1));
            assert(all.subrange(0, n as int).last() == all[n - 1]);
            if text::same_text(self.trees[n - 1].0.as_str(), place) {
                return Some(&self.trees[n - 1].1);
            }
            n = n - 1;
        }
        None
    }

    /// Whether something was published into a directory or below it.
    pub fn serves(&self, dir: &str) -> (r: bool)
        ensures
            r == exists|p: Seq<char>| #[trigger]
                self@.dom().contains(p) && paths::within(p, dir@),
    {
        let ghost all = self.trees@;
        let mut i: usize = 0;
        while i < self.trees.len()
            invariant
                i <= self.trees.len(),
                all == self.trees@,
                forall|k: int| 0 <= k < i ==> !paths::within((#[trigger] all[k]).0@, dir@),
            decreases self.trees.len() - i,
        {
            if paths::is_within(self.trees[i].0.as_str(), dir) {
                proof {
                    lemma_tree_is_there(all, i as int);
                    assert(self@.dom().contains(all[i as int].0@));
                }
                return true;
            }
            i = i + 1;
        }
        proof {
            assert forall|p: Seq<char>| #[trigger] self@.dom().contains(p) implies !paths::within(
                p,
                dir@,
            ) by {
                let k = lemma_tree_has_a_place(all, p);
                assert(!paths::within(all[k].0@, dir@));
            }
        }
        false
    }
}

// ---------------------------------------------------------------------------
// Where it is scored
// ---------------------------------------------------------------------------

/// What becomes of the tree after the score.
#[derive(Copy, Clone, Debug, PartialEq, Eq, Structural)]
pub enum Keep {
    Discard,
    ForPostMortem,
}

impl Keep {
    /// What the flag `--keep-eval-tree` asks for.
    pub fn from_keep_eval_tree_flag(flag: bool) -> (r: Keep)
        ensures
            r == (if flag {
                Keep::ForPostMortem
            } else {
                Keep::Discard
            }),
    {
        if flag {
            Keep::ForPostMortem
        } else {
            Keep::Discard
        }
    }
}

// ---------------------------------------------------------------------------
// Where the tree is
// ---------------------------------------------------------------------------

/// The last three names of a results directory: the tool, the model and the variant. Nothing where it
/// has fewer.
pub open spec fn results_tail(results_dir: Seq<char>) -> Seq<char> {
    let p = paths::parts(results_dir);
    if p.len() < 3 {
        ""@
    } else {
        p[p.len() - 3] + "/"@ + p[p.len() - 2] + "/"@ + p[p.len() - 1]
    }
}

/// The place of the evaluation tree of a target: one of its own for every tool, model, variant and
/// target, so that two runs do not remove each other's. A target that names a case is one level, not
/// two.
pub open spec fn tree_place(repo_root: Seq<char>, results_dir: Seq<char>, target: Seq<char>) -> Seq<
    char,
> {
    paths::joined(
        paths::joined(paths::joined(repo_root, EVAL_DIR@), results_tail(results_dir)),
        text::exchanged(target, '/', '~'),
    )
}

/// The directories above a place, up to and without another, nearest first.
pub open spec fn above(place: Seq<char>, top: Seq<char>) -> Seq<Seq<char>>
    decreases place.len(),
{
    match paths::parent_in(place) {
        Some(d) => if d == top || d.len() >= place.len() {
            Seq::empty()
        } else {
            seq![d] + above(d, top)
        },
        None => Seq::empty(),
    }
}

/// An evaluation tree.
#[derive(Debug)]
pub struct EvalTree {
    root: String,
    eval_root: String,
    keep: Keep,
}

impl EvalTree {
    /// Where the tree is.
    pub closed spec fn place(&self) -> Seq<char> {
        self.root@
    }

    /// The directory of all evaluation trees.
    pub closed spec fn top(&self) -> Seq<char> {
        self.eval_root@
    }

    /// What becomes of the tree.
    pub closed spec fn fate(&self) -> Keep {
        self.keep
    }

    /// The tree of a target, which is to be made empty.
    pub fn create_empty(repo_root: &str, results_dir: &str, target: &str, keep: Keep) -> (r: EvalTree)
        ensures
            r.place() == tree_place(repo_root@, results_dir@, target@),
            r.top() == paths::joined(repo_root@, EVAL_DIR@),
            r.fate() == keep,
    {
        let eval_root = paths::join(repo_root, EVAL_DIR);
        let p = paths::parts_of(results_dir);
        let ghost all = paths::parts(results_dir@);
        assert(all.len() == p@.len());
        let n: usize = p.len();
        let tail = if n < 3 {
            text::copy("")
        } else {
            assert(all[n - 3] == p@[n - 3]@);
            assert(all[n - 2] == p@[n - 2]@);
            assert(all[n - 1] == p@[n - 1]@);
            let head = text::join3(p[n - 3].as_str(), "/", p[n - 2].as_str());
            text::join3(head.as_str(), "/", p[n - 1].as_str())
        };
        let flat = text::string_of(&text::exchange(&text::chars_of(target), '/', '~'));
        let root = paths::join3(eval_root.as_str(), tail.as_str(), flat.as_str());
        EvalTree { root, eval_root, keep }
    }

    /// Where the tree is.
    pub fn root(&self) -> (r: &str)
        ensures
            r@ == self.place(),
    {
        self.root.as_str()
    }

    /// The part of the tree for a name; the whole tree where the name is empty.
    pub fn scope(&self, name: &str) -> (r: Scope)
        ensures
            r.place() == (if name@.len() == 0 {
                self.place()
            } else {
                paths::joined(self.place(), name@)
            }),
            r.listed() == Seq::<CaseView>::empty(),
    {
        let cases: Vec<Case> = Vec::new();
        assert(case_views(cases@) =~= Seq::empty());
        if name.is_empty() {
            Scope { root: text::copy(self.root.as_str()), cases }
        } else {
            Scope { root: paths::join(self.root.as_str(), name), cases }
        }
    }

    /// What is said of the tree when it is kept.
    pub fn kept_note(&self) -> (r: String)
        ensures
            r@ == "  evaluation tree kept for post-mortem at "@ + self.place(),
    {
        text::join2("  evaluation tree kept for post-mortem at ", self.root.as_str())
    }

    /// The directories that go with the tree, nearest first, as long as each is left empty: none where
    /// the tree is kept, and otherwise those above it.
    pub fn leftovers(&self) -> (r: Option<Vec<String>>)
        ensures
            r is None <==> self.fate() == Keep::ForPostMortem,
            r matches Some(v) ==> text::views(v@) == above(self.place(), self.top()),
    {
        match self.keep {
            Keep::ForPostMortem => None,
            Keep::Discard => Some(dirs_above(self.root.as_str(), self.eval_root.as_str())),
        }
    }
}

proof fn lemma_above_prepends(done: Seq<Seq<char>>, d: Seq<char>, top: Seq<char>)
    ensures
        done + (seq![d] + above(d, top)) == done.push(d) + above(d, top),
{
    assert(done + (seq![d] + above(d, top)) =~= done.push(d) + above(d, top));
}

fn dirs_above(place: &str, top: &str) -> (r: Vec<String>)
    ensures
        text::views(r@) == above(place@, top@),
{
    let mut out: Vec<String> = Vec::new();
    let mut here = text::copy(place);
    assert(text::views(out@) + above(place@, top@) =~= above(place@, top@));
    loop
        invariant
            text::views(out@) + above(here@, top@) == above(place@, top@),
        ensures
            text::views(out@) == above(place@, top@),
        decreases here@.len(),
    {
        broadcast use text::lemma_views_push;

        let up = match paths::parent(here.as_str()) {
            Some(d) => d,
            None => {
                assert(text::views(out@) + above(here@, top@) =~= text::views(out@));
                break;
            },
        };
        let shorter = text::chars_of(up.as_str()).len() < text::chars_of(here.as_str()).len();
        if text::same_text(up.as_str(), top) || !shorter {
            assert(text::views(out@) + above(here@, top@) =~= text::views(out@));
            break;
        }
        proof {
            lemma_above_prepends(text::views(out@), up@, top@);
        }
        out.push(text::copy(up.as_str()));
        here = up;
    }
    out
}

// ---------------------------------------------------------------------------
// The cases in it
// ---------------------------------------------------------------------------

/// A case in the tree, and where its result goes.
#[derive(Debug)]
pub struct Case {
    pub name: String,
    pub record_into: String,
    pub case_dir: String,
}

/// A case in the tree, mathematically.
pub struct CaseView {
    pub name: Seq<char>,
    pub record_into: Seq<char>,
    pub case_dir: Seq<char>,
}

impl View for Case {
    type V = CaseView;

    open spec fn view(&self) -> CaseView {
        CaseView { name: self.name@, record_into: self.record_into@, case_dir: self.case_dir@ }
    }
}

/// Cases in the tree.
pub open spec fn case_views(s: Seq<Case>) -> Seq<CaseView> {
    s.map_values(|c: Case| c@)
}

/// The names of cases.
pub open spec fn names_of(s: Seq<CaseView>) -> Seq<Seq<char>> {
    s.map_values(|c: CaseView| c.name)
}

/// A part of the tree that is being filled.
#[derive(Debug)]
pub struct Scope {
    root: String,
    cases: Vec<Case>,
}

/// The case that a result goes to: the directory above it.
pub open spec fn case_of(name: Seq<char>, record_into: Seq<char>) -> CaseView {
    CaseView {
        name,
        record_into,
        case_dir: match paths::parent_in(record_into) {
            Some(d) => d,
            None => record_into,
        },
    }
}

/// The members of the workspace: the runners of those cases that have one.
pub open spec fn members_of(cases: Seq<CaseView>, runner: Seq<bool>) -> Seq<Seq<char>>
    decreases cases.len(),
{
    if cases.len() == 0 || runner.len() != cases.len() {
        Seq::empty()
    } else if runner.last() {
        members_of(cases.drop_last(), runner.drop_last()).push(
            "    \""@ + cases.last().name + "/runner\""@,
        )
    } else {
        members_of(cases.drop_last(), runner.drop_last())
    }
}

/// The manifest of the workspace.
pub open spec fn workspace_text(members: Seq<Seq<char>>) -> Seq<char> {
    "[workspace]\nmembers = [\n"@ + text::joined(text::in_order(members), ",\n"@)
        + ",\n]\nresolver = \"2\"\n"@
}

impl Scope {
    /// Where this part is.
    pub closed spec fn place(&self) -> Seq<char> {
        self.root@
    }

    /// The cases in it.
    pub closed spec fn listed(&self) -> Seq<CaseView> {
        case_views(self.cases@)
    }

    /// Adds a case, whose result goes to `record_into`: where it is to be assembled.
    pub fn materialise(&mut self, name: &str, record_into: &str) -> (r: String)
        ensures
            r@ == paths::joined(old(self).place(), name@),
            final(self).place() == old(self).place(),
            final(self).listed() == old(self).listed().push(case_of(name@, record_into@)),
    {
        let case_dir = match paths::parent(record_into) {
            Some(d) => d,
            None => text::copy(record_into),
        };
        let ghost before = self.cases@;
        self.cases.push(
            Case { name: text::copy(name), record_into: text::copy(record_into), case_dir },
        );
        assert(case_views(self.cases@) =~= case_views(before).push(case_of(name@, record_into@)));
        paths::join(self.root.as_str(), name)
    }

    /// Where the manifest of a case's runner would be.
    pub fn runner_manifest(&self, i: usize) -> (r: String)
        requires
            i < self.listed().len(),
        ensures
            r@ == paths::joined(
                paths::joined(self.place(), self.listed()[i as int].name),
                "runner/Cargo.toml"@,
            ),
    {
        assert(self.listed()[i as int] == self.cases@[i as int]@);
        paths::join3(self.root.as_str(), self.cases[i].name.as_str(), "runner/Cargo.toml")
    }

    /// How many cases there are.
    pub fn len(&self) -> (r: usize)
        ensures
            r == self.listed().len(),
    {
        assert(self.listed().len() == self.cases@.len());
        self.cases.len()
    }

    /// Closes this part: its cases, and the file of the workspace that their runners make, where
    /// there are some. `runner` says of each case whether it has one.
    pub fn finish(self, runner: &[bool]) -> (r: (Materialised, Option<(String, String)>))
        requires
            runner@.len() == self.listed().len(),
        ensures
            r.0.place() == self.place(),
            r.0.listed() == self.listed(),
            r.1 is None <==> members_of(self.listed(), runner@).len() == 0,
            r.1 matches Some(w) ==> w.0@ == paths::joined(self.place(), "Cargo.toml"@) && w.1@
                == workspace_text(members_of(self.listed(), runner@)),
    {
        let ghost all = self.listed();
        assert(all.len() == self.cases@.len());
        let mut members: Vec<String> = Vec::new();
        let mut i: usize = 0;
        assert(text::views(members@) =~= members_of(all.subrange(0, 0), runner@.subrange(0, 0)));
        while i < self.cases.len()
            invariant
                i <= self.cases.len(),
                all == case_views(self.cases@),
                runner@.len() == self.cases@.len(),
                text::views(members@) == members_of(
                    all.subrange(0, i as int),
                    runner@.subrange(0, i as int),
                ),
            decreases self.cases.len() - i,
        {
            broadcast use text::lemma_views_push;

            assert(all.subrange(0, i + 1).drop_last() =~= all.subrange(0, i as int));
            assert(all.subrange(0, i + 1).last() == self.cases@[i as int]@);
            assert(runner@.subrange(0, i + 1).drop_last() =~= runner@.subrange(0, i as int));
            assert(runner@.subrange(0, i + 1).last() == runner@[i as int]);
            if runner[i] {
                members.push(text::join3("    \"", self.cases[i].name.as_str(), "/runner\""));
            }
            i = i + 1;
        }
        assert(all.subrange(0, self.cases.len() as int) =~= all);
        assert(runner@.subrange(0, runner@.len() as int) =~= runner@);
        assert(text::views(members@).len() == members@.len());
        let manifest = if members.len() == 0 {
            None
        } else {
            let sorted = text::sort_texts(members.as_slice());
            let body = text::join_all(sorted.as_slice(), ",\n");
            Some(
                (
                    paths::join(self.root.as_str(), "Cargo.toml"),
                    text::join3(
                        "[workspace]\nmembers = [\n",
                        body.as_str(),
                        ",\n]\nresolver = \"2\"\n",
                    ),
                ),
            )
        };
        (Materialised { root: self.root, cases: self.cases }, manifest)
    }
}

/// A part of the tree that is filled.
#[derive(Debug)]
pub struct Materialised {
    root: String,
    cases: Vec<Case>,
}

/// The score covers exactly the cases that were materialised.
pub open spec fn reconciled(
    materialised: Set<Seq<char>>,
    discovered: nat,
    scored: Set<Seq<char>>,
) -> bool {
    discovered == materialised.len() && scored == materialised
}

/// The refusal of a score that covers other cases than were materialised.
pub open spec fn mismatch(
    discovered: nat,
    materialised: nat,
    root: Seq<char>,
    missing: Seq<Seq<char>>,
    extra: Seq<Seq<char>>,
) -> Seq<char> {
    "the score covers "@ + text::numeral(discovered) + " case(s) but "@ + text::numeral(
        materialised,
    ) + " were materialised at "@ + root + ".\n  materialised yet unscored: "@ + text::list_form(
        missing,
    ) + "\n  scored yet not materialised: "@ + text::list_form(extra)
        + "\nA case the oracle did not discover is a smaller denominator nobody asked for, so this is a refusal and not a warning."@
}

impl Materialised {
    /// Where this part is.
    pub closed spec fn place(&self) -> Seq<char> {
        self.root@
    }

    /// The cases in it.
    pub closed spec fn listed(&self) -> Seq<CaseView> {
        case_views(self.cases@)
    }

    /// Where this part is.
    pub fn root(&self) -> (r: &str)
        ensures
            r@ == self.place(),
    {
        self.root.as_str()
    }

    /// The cases in it.
    pub fn cases(&self) -> (r: &[Case])
        ensures
            case_views(r@) == self.listed(),
    {
        self.cases.as_slice()
    }

    /// The crate of a case.
    pub fn crate_root(&self, case: &str) -> (r: String)
        ensures
            r@ == paths::joined(
                paths::joined(self.place(), case@),
                artifact::TRANSLATED_RUST@,
            ),
    {
        paths::join3(self.root.as_str(), case, artifact::TRANSLATED_RUST)
    }

    fn case_names(&self) -> (r: Names)
        ensures
            r@ == names_of(self.listed()).to_set(),
            names::ascending(r.listed()),
    {
        let mut v: Vec<String> = Vec::new();
        let mut i: usize = 0;
        while i < self.cases.len()
            invariant
                i <= self.cases.len(),
                v@.len() == i,
                forall|k: int| 0 <= k < i ==> (#[trigger] v@[k])@ == self.cases@[k].name@,
            decreases self.cases.len() - i,
        {
            v.push(text::copy(self.cases[i].name.as_str()));
            i = i + 1;
        }
        assert(text::views(v@) =~= names_of(self.listed()));
        Names::new(v.as_slice())
    }

    /// Refuses a score that does not cover exactly the cases that were materialised: a case that was
    /// not discovered would make the denominator smaller.
    pub fn reconcile(&self, discovered: usize, scored: &Names) -> (r: Result<(), String>)
        ensures
            r is Ok <==> reconciled(
                names_of(self.listed()).to_set(),
                discovered as nat,
                scored@,
            ),
            r matches Err(e) ==> exists|missing: Seq<Seq<char>>, extra: Seq<Seq<char>>|
                names::ascending(missing) && names::ascending(extra) && missing.to_set()
                    == names_of(self.listed()).to_set().difference(scored@) && extra.to_set()
                    == scored@.difference(names_of(self.listed()).to_set()) && e@
                    == #[trigger] mismatch(
                    discovered as nat,
                    names_of(self.listed()).to_set().len(),
                    self.place(),
                    missing,
                    extra,
                ),
    {
        let materialised = self.case_names();
        let missing = materialised.difference(scored);
        let extra = scored.difference(&materialised);
        let missing_n: usize = missing.len();
        let extra_n: usize = extra.len();
        let n: usize = materialised.len();
        proof {
            let m = materialised@;
            if missing_n == 0 && extra_n == 0 {
                assert(missing.listed().len() == 0);
                assert forall|s: Seq<char>| m.contains(s) <==> scored@.contains(s) by {
                    if m.contains(s) && !scored@.contains(s) {
                        assert(missing@.contains(s));
                    }
                    if scored@.contains(s) && !m.contains(s) {
                        assert(extra@.contains(s));
                    }
                }
                assert(m =~= scored@);
            }
            if scored@ == m {
                assert(missing@ =~= Set::empty());
                assert(extra@ =~= Set::empty());
            }
        }
        if discovered == n && missing_n == 0 && extra_n == 0 {
            return Ok(());
        }
        let mut e = text::copy("the score covers ");
        text::push_numeral(&mut e, discovered as u64);
        e.append(" case(s) but ");
        text::push_numeral(&mut e, n as u64);
        e.append(" were materialised at ");
        e.append(self.root.as_str());
        e.append(".\n  materialised yet unscored: ");
        e.append(text::quoted_list(missing.as_slice()).as_str());
        e.append("\n  scored yet not materialised: ");
        e.append(text::quoted_list(extra.as_slice()).as_str());
        e.append(
            "\nA case the oracle did not discover is a smaller denominator nobody asked for, so this is a refusal and not a warning.",
        );
        assert(e@ =~= mismatch(
            discovered as nat,
            names_of(self.listed()).to_set().len(),
            self.place(),
            missing.listed(),
            extra.listed(),
        ));
        Err(e)
    }
}

// ---------------------------------------------------------------------------
// Laws
// ---------------------------------------------------------------------------

/// Two targets of one run have trees of their own, where neither target names the other's by its
/// separators: to be emptied for the one never removes the other.
pub proof fn law_each_target_has_its_own_tree(
    repo_root: Seq<char>,
    results_dir: Seq<char>,
    a: Seq<char>,
    b: Seq<char>,
)
    requires
        text::exchanged(a, '/', '~') != text::exchanged(b, '/', '~'),
        a.len() > 0,
        b.len() > 0,
    ensures
        tree_place(repo_root, results_dir, a) != tree_place(repo_root, results_dir, b),
{
    reveal_strlit("/");
    let dir = paths::joined(paths::joined(repo_root, EVAL_DIR@), results_tail(results_dir));
    let x = text::exchanged(a, '/', '~');
    let y = text::exchanged(b, '/', '~');
    assert(x[0] != '/');
    assert(y[0] != '/');
    let p = paths::joined(dir, x);
    let q = paths::joined(dir, y);
    if p == q {
        assert(p.len() - x.len() == q.len() - y.len());
        assert(x =~= p.subrange(p.len() - x.len(), p.len() as int));
        assert(y =~= q.subrange(q.len() - y.len(), q.len() as int));
    }
}

/// What was published last into a directory is what is there.
pub proof fn law_the_last_tree_of_a_directory_counts(
    s: Seq<(String, Vec<Entry>)>,
    dir: String,
    tree: Vec<Entry>,
    other: Seq<char>,
)
    ensures
        trees_in(s.push((dir, tree))).dom().contains(dir@),
        trees_in(s.push((dir, tree)))[dir@] == tree@,
        other != dir@ ==> (trees_in(s.push((dir, tree))).dom().contains(other) <==> trees_in(
            s,
        ).dom().contains(other)),
        other != dir@ && trees_in(s).dom().contains(other) ==> trees_in(s.push((dir, tree)))[other]
            == trees_in(s)[other],
        trees_in(Seq::empty()) == Map::<Seq<char>, Seq<Entry>>::empty(),
{
    assert(s.push((dir, tree)).drop_last() =~= s);
}

/// A score is taken only where it covers the cases that were laid out, each of them and no other: one
/// that was not scored, or was scored without being laid out, is a refusal.
pub proof fn law_a_score_covers_what_was_laid_out(
    materialised: Set<Seq<char>>,
    discovered: nat,
    scored: Set<Seq<char>>,
    name: Seq<char>,
)
    ensures
        materialised.contains(name) && !scored.contains(name) ==> !reconciled(
            materialised,
            discovered,
            scored,
        ),
        scored.contains(name) && !materialised.contains(name) ==> !reconciled(
            materialised,
            discovered,
            scored,
        ),
        discovered != materialised.len() ==> !reconciled(materialised, discovered, scored),
        reconciled(materialised, materialised.len(), materialised),
{
}

/// What is said of a score that does not cover its cases: how many it covers and how many there are,
/// and which are missing and which are too many.
pub proof fn law_a_mismatch_names_both_sides(
    discovered: nat,
    materialised: nat,
    root: Seq<char>,
    missing: Seq<Seq<char>>,
    extra: Seq<Seq<char>>,
)
    ensures
        ({
            let m = mismatch(discovered, materialised, root, missing, extra);
            &&& text::begins(
                m,
                "the score covers "@ + text::numeral(discovered) + " case(s) but "@
                    + text::numeral(materialised) + " were materialised at "@ + root,
            )
            &&& text::found(
                m,
                "\n  materialised yet unscored: "@ + text::list_form(missing)
                    + "\n  scored yet not materialised: "@ + text::list_form(extra),
            )
        }),
{
    let m = mismatch(discovered, materialised, root, missing, extra);
    let a = "the score covers "@ + text::numeral(discovered) + " case(s) but "@ + text::numeral(
        materialised,
    ) + " were materialised at "@ + root;
    let cut = ".\n  materialised yet unscored: "@;
    reveal_strlit(".\n  materialised yet unscored: ");
    reveal_strlit("\n  materialised yet unscored: ");
    reveal_strlit(".");
    assert(cut =~= "."@ + "\n  materialised yet unscored: "@);
    let b = "\n  materialised yet unscored: "@ + text::list_form(missing)
        + "\n  scored yet not materialised: "@ + text::list_form(extra);
    let e =
        "\nA case the oracle did not discover is a smaller denominator nobody asked for, so this is a refusal and not a warning."@;
    assert(m =~= a + "."@ + b + e);
    text::lemma_found_inside(a + "."@, b, e);
    assert(m.subrange(0, a.len() as int) =~= a);
}

/// A case is scored under the directory above the one that its result goes into.
pub proof fn law_a_case_is_scored_above_its_record(name: Seq<char>, record_into: Seq<char>)
    ensures
        case_of(name, record_into).name == name,
        case_of(name, record_into).record_into == record_into,
        paths::parent_in(record_into) matches Some(d) ==> case_of(name, record_into).case_dir == d,
        paths::parent_in(record_into) is None ==> case_of(name, record_into).case_dir
            == record_into,
{
}

/// The workspace has a member for each case with a runner, in order, and none for another.
pub proof fn law_every_runner_is_a_member(
    cases: Seq<CaseView>,
    runner: Seq<bool>,
    c: CaseView,
    members: Seq<Seq<char>>,
)
    requires
        runner.len() == cases.len(),
    ensures
        members_of(cases.push(c), runner.push(true)) == members_of(cases, runner).push(
            "    \""@ + c.name + "/runner\""@,
        ),
        members_of(cases.push(c), runner.push(false)) == members_of(cases, runner),
        members_of(Seq::empty(), Seq::empty()).len() == 0,
        text::found(workspace_text(members), text::joined(text::in_order(members), ",\n"@)),
        text::begins(workspace_text(members), "[workspace]\nmembers = [\n"@),
        text::ends(workspace_text(members), ",\n]\nresolver = \"2\"\n"@),
{
    assert(cases.push(c).drop_last() =~= cases);
    assert(runner.push(true).drop_last() =~= runner);
    assert(runner.push(false).drop_last() =~= runner);
    let a = "[workspace]\nmembers = [\n"@;
    let m = text::joined(text::in_order(members), ",\n"@);
    let e = ",\n]\nresolver = \"2\"\n"@;
    let w = workspace_text(members);
    text::lemma_found_inside(a, m, e);
    assert(w.subrange(0, a.len() as int) =~= a);
    assert(w.subrange(w.len() - e.len(), w.len() as int) =~= e);
}

/// The tree of a target lies below the directory of all evaluation trees, under the last three names of
/// its results, and its target is one name.
pub proof fn law_a_tree_lies_under_its_results(
    repo_root: Seq<char>,
    results_dir: Seq<char>,
    target: Seq<char>,
)
    ensures
        ({
            let p = paths::parts(results_dir);
            p.len() >= 3 ==> tree_place(repo_root, results_dir, target) == paths::joined(
                paths::joined(
                    paths::joined(repo_root, EVAL_DIR@),
                    p[p.len() - 3] + "/"@ + p[p.len() - 2] + "/"@ + p[p.len() - 1],
                ),
                text::exchanged(target, '/', '~'),
            )
        }),
        !text::exchanged(target, '/', '~').contains('/'),
{
    let t = text::exchanged(target, '/', '~');
    assert forall|i: int| 0 <= i < t.len() implies t[i] != '/' by {}
}

/// The directories that go with a tree are those above it, nearest first, up to that of all trees.
pub proof fn law_the_directories_above_go_with_a_tree(place: Seq<char>, top: Seq<char>)
    ensures
        paths::parent_in(place) == Some(top) ==> above(place, top).len() == 0,
        paths::parent_in(place) is None ==> above(place, top).len() == 0,
        paths::parent_in(place) matches Some(d) ==> (d != top && d.len() < place.len() ==> above(
            place,
            top,
        ) == seq![d] + above(d, top)),
        !above(place, top).contains(top),
    decreases place.len(),
{
    if let Some(d) = paths::parent_in(place) {
        if d != top && d.len() < place.len() {
            law_the_directories_above_go_with_a_tree(d, top);
            let a = above(place, top);
            let b = above(d, top);
            if a.contains(top) {
                let i = choose|i: int| 0 <= i < a.len() && a[i] == top;
                if i > 0 {
                    assert(b[i - 1] == top);
                }
            }
        }
    }
}

/// Results are known by their last three names, and by none where there are fewer.
pub proof fn law_results_are_known_by_their_last_three_names(results_dir: Seq<char>)
    ensures
        ({
            let p = paths::parts(results_dir);
            &&& p.len() >= 3 ==> results_tail(results_dir) == p[p.len() - 3] + "/"@ + p[p.len() - 2]
                + "/"@ + p[p.len() - 1]
            &&& p.len() < 3 ==> results_tail(results_dir) == ""@
        }),
{
}

} // verus!
