//! What differs between datasets: what must be there before a run, which units there are, when a
//! unit may be published, and where its cases lie.

use crate::battery;
use crate::battery::CaseEntry;
use crate::battery::Case;
use crate::battery::Config;
use crate::chain;
use crate::chain::Artifact;
use crate::chain::Follower;
use crate::chain::Job;
use crate::chain::Shape;
use crate::cli::Dataset;
use crate::eval::Resolved;
use crate::json;
use crate::paths;
use crate::text;
use vstd::prelude::*;
use vstd::string::*;

verus! {

// ---------------------------------------------------------------------------
// What may be published
// ---------------------------------------------------------------------------

/// Something was published in a directory or below it.
pub open spec fn served(dir: Seq<char>, resolved: Set<Seq<char>>) -> bool {
    exists|p: Seq<char>| #[trigger] resolved.contains(p) && paths::within(p, dir)
}

/// How many directories nothing was published in.
pub open spec fn unserved(dirs: Seq<Seq<char>>, resolved: Set<Seq<char>>) -> nat
    decreases dirs.len(),
{
    if dirs.len() == 0 {
        0
    } else if served(dirs.last(), resolved) {
        unserved(dirs.drop_last(), resolved)
    } else {
        unserved(dirs.drop_last(), resolved) + 1
    }
}

/// Why a unit may not be published; nothing where it may. Every case must have been served, and
/// there must be one.
pub open spec fn shortfall(dirs: Seq<Seq<char>>, resolved: Set<Seq<char>>) -> Option<Seq<char>> {
    if dirs.len() == 0 {
        Some("it has no case at all, so there is nothing for the store to serve"@)
    } else if unserved(dirs, resolved) > 0 {
        Some(
            "the store serves "@ + text::numeral((dirs.len() - unserved(dirs, resolved)) as nat)
                + " of its "@ + text::numeral(dirs.len()) + " case(s), "@ + text::numeral(
                unserved(dirs, resolved),
            ) + " unresolved"@,
        )
    } else {
        None
    }
}

proof fn lemma_unserved_bound(dirs: Seq<Seq<char>>, resolved: Set<Seq<char>>)
    ensures
        unserved(dirs, resolved) <= dirs.len(),
    decreases dirs.len(),
{
    if dirs.len() > 0 {
        lemma_unserved_bound(dirs.drop_last(), resolved);
    }
}

/// Whether the number of a unit may be published: only where every case that its jobs publish was
/// served by what the run resolved.
pub fn attests(jobs: &[Job], resolved: &Resolved) -> (r: Result<(), String>)
    ensures
        match shortfall(chain::all_dirs(jobs@), resolved@.dom()) {
            None => r is Ok,
            Some(why) => r matches Err(e) && e@ == why,
        },
{
    let dirs = chain::case_dirs(jobs);
    let ghost all = chain::all_dirs(jobs@);
    let ghost there = resolved@.dom();
    assert(all.len() == dirs@.len());
    if dirs.len() == 0 {
        return Err(
            text::copy("it has no case at all, so there is nothing for the store to serve"),
        );
    }
    let mut missing: usize = 0;
    let mut i: usize = 0;
    while i < dirs.len()
        invariant
            i <= dirs.len(),
            all == text::views(dirs@),
            there == resolved@.dom(),
            missing <= i,
            missing == unserved(all.subrange(0, i as int), there),
        decreases dirs.len() - i,
    {
        assert(all.subrange(0, i + 1).drop_last() =~= all.subrange(0, i as int));
        assert(all.subrange(0, i + 1).last() == dirs@[i as int]@);
        if !resolved.serves(dirs[i].as_str()) {
            missing = missing + 1;
        }
        i = i + 1;
    }
    assert(all.subrange(0, dirs.len() as int) =~= all);
    if missing > 0 {
        let mut e = text::copy("the store serves ");
        text::push_numeral(&mut e, (dirs.len() - missing) as u64);
        e.append(" of its ");
        text::push_numeral(&mut e, dirs.len() as u64);
        e.append(" case(s), ");
        text::push_numeral(&mut e, missing as u64);
        e.append(" unresolved");
        return Err(e);
    }
    Ok(())
}

/// The units that a run may publish.
#[derive(Debug)]
pub struct InScope(Vec<String>);

/// The units that may be published, in their order.
pub open spec fn publishable(
    units: Seq<(String, Vec<Job>)>,
    resolved: Set<Seq<char>>,
) -> Seq<Seq<char>>
    decreases units.len(),
{
    if units.len() == 0 {
        Seq::empty()
    } else if shortfall(chain::all_dirs(units.last().1@), resolved) is None {
        publishable(units.drop_last(), resolved).push(units.last().0@)
    } else {
        publishable(units.drop_last(), resolved)
    }
}

/// What is said of the units that may not be published, in their order.
pub open spec fn left_out(
    units: Seq<(String, Vec<Job>)>,
    resolved: Set<Seq<char>>,
) -> Seq<Seq<char>>
    decreases units.len(),
{
    if units.len() == 0 {
        Seq::empty()
    } else {
        let before = left_out(units.drop_last(), resolved);
        match shortfall(chain::all_dirs(units.last().1@), resolved) {
            None => before,
            Some(why) => before.push(
                "⏭️  "@ + units.last().0@ + ": out of scope — "@ + why,
            ),
        }
    }
}

/// The names of units.
pub open spec fn unit_names(units: Seq<(String, Vec<Job>)>) -> Seq<Seq<char>> {
    units.map_values(|u: (String, Vec<Job>)| u.0@)
}

/// The refusal of a run that can publish nothing.
pub open spec fn nothing_to_publish(units: Seq<(String, Vec<Job>)>) -> Seq<char> {
    "the store serves no unit of "@ + text::joined(unit_names(units), ", "@)
        + " in full, so this run can publish nothing"@
}

impl InScope {
    /// The units that may be published.
    pub closed spec fn listed(&self) -> Seq<Seq<char>> {
        text::views(self.0@)
    }

    /// The units that a run may publish, by what it resolved, and a line for each that
    /// it may not. A run that can publish nothing is refused.
    pub fn derive(units: &[(String, Vec<Job>)], resolved: &Resolved) -> (r: (
        Result<InScope, String>,
        Vec<String>,
    ))
        ensures
            r.0 is Ok <==> publishable(units@, resolved@.dom()).len() > 0,
            r.0 matches Ok(s) ==> s.listed() == publishable(units@, resolved@.dom()),
            r.0 matches Err(e) ==> e@ == nothing_to_publish(units@),
            text::views(r.1@) == left_out(units@, resolved@.dom()),
    {
        let ghost there = resolved@.dom();
        let mut fit: Vec<String> = Vec::new();
        let mut notes: Vec<String> = Vec::new();
        let mut all_names: Vec<String> = Vec::new();
        let mut i: usize = 0;
        assert(text::views(fit@) =~= publishable(units@.subrange(0, 0), there));
        assert(text::views(notes@) =~= left_out(units@.subrange(0, 0), there));
        while i < units.len()
            invariant
                i <= units.len(),
                there == resolved@.dom(),
                text::views(fit@) == publishable(units@.subrange(0, i as int), there),
                text::views(notes@) == left_out(units@.subrange(0, i as int), there),
                all_names@.len() == i,
                forall|k: int| 0 <= k < i ==> (#[trigger] all_names@[k])@ == units@[k].0@,
            decreases units.len() - i,
        {
            broadcast use text::lemma_views_push;

            assert(units@.subrange(0, i + 1).drop_last() =~= units@.subrange(0, i as int));
            assert(units@.subrange(0, i + 1).last() == units@[i as int]);
            all_names.push(text::copy(units[i].0.as_str()));
            match attests(units[i].1.as_slice(), resolved) {
                Ok(_) => {
                    fit.push(text::copy(units[i].0.as_str()));
                },
                Err(why) => {
                    let head = text::join3("⏭️  ", units[i].0.as_str(), ": out of scope — ");
                    notes.push(text::join2(head.as_str(), why.as_str()));
                },
            }
            i = i + 1;
        }
        assert(units@.subrange(0, units.len() as int) =~= units@);
        assert(text::views(fit@).len() == fit@.len());
        if fit.len() == 0 {
            assert(text::views(all_names@) =~= unit_names(units@));
            let listed = text::join_all(all_names.as_slice(), ", ");
            let e = text::join3(
                "the store serves no unit of ",
                listed.as_str(),
                " in full, so this run can publish nothing",
            );
            return (Err(e), notes);
        }
        (Ok(InScope(fit)), notes)
    }

    /// The units that may be published.
    pub fn units(&self) -> (r: &[String])
        ensures
            text::views(r@) == self.listed(),
    {
        self.0.as_slice()
    }
}

// ---------------------------------------------------------------------------
// What must be there before a run
// ---------------------------------------------------------------------------

/// The version of CMake that the suites need.
pub const CMAKE_MIN_MAJOR: u32 = 3;

/// The version of CMake that the suites need.
pub const CMAKE_MIN_MINOR: u32 = 24;

/// The number that a text is, where it is one that fits. A plus sign may stand before it.
pub open spec fn number_of(s: Seq<char>) -> Option<u32> {
    let d = if s.len() > 0 && s[0] == '+' {
        s.subrange(1, s.len() as int)
    } else {
        s
    };
    if d.len() > 0 && text::all_digits(d) && text::numeral_value(d) <= u32::MAX {
        Some(text::numeral_value(d) as u32)
    } else {
        None
    }
}

/// The first word that begins with a digit.
pub open spec fn first_numbered(words: Seq<Seq<char>>) -> Option<Seq<char>>
    decreases words.len(),
{
    if words.len() == 0 {
        None
    } else {
        match first_numbered(words.drop_last()) {
            Some(w) => Some(w),
            None => if words.last().len() > 0 && text::is_digit(words.last()[0]) {
                Some(words.last())
            } else {
                None
            },
        }
    }
}

/// The version that a text names: the first two numbers of the first word that begins with a digit.
pub open spec fn version_in(t: Seq<char>) -> Option<(u32, u32)> {
    match first_numbered(text::words(t)) {
        None => None,
        Some(w) => {
            let p = text::split(w, '.');
            match number_of(p[0]) {
                None => None,
                Some(major) => Some(
                    (
                        major,
                        if p.len() > 1 {
                            match number_of(p[1]) {
                                Some(minor) => minor,
                                None => 0,
                            }
                        } else {
                            0
                        },
                    ),
                ),
            }
        },
    }
}

/// A version is no older than another.
pub open spec fn no_older(v: (u32, u32), min: (u32, u32)) -> bool {
    v.0 > min.0 || (v.0 == min.0 && v.1 >= min.1)
}

fn read_number(s: &Vec<char>) -> (r: Option<u32>)
    ensures
        r == number_of(s@),
{
    let from: usize = if s.len() > 0 && s[0] == '+' {
        1
    } else {
        0
    };
    let d = text::cut(s, from, s.len());
    assert(from == 0 ==> d@ =~= s@);
    match text::read_digits(&d) {
        Some(n) => if n <= u32::MAX as u64 {
            Some(n as u32)
        } else {
            None
        },
        None => None,
    }
}

/// The version that `cmake --version` prints.
pub fn cmake_version(t: &str) -> (r: Option<(u32, u32)>)
    ensures
        r == version_in(t@),
{
    let words = text::words_of(&text::chars_of(t));
    let ghost all = text::char_views(words@);
    let mut i: usize = 0;
    let mut found: Option<usize> = None;
    while i < words.len()
        invariant
            i <= words.len(),
            all == text::char_views(words@),
            found is Some <==> first_numbered(all.subrange(0, i as int)) is Some,
            found matches Some(k) ==> k < i && first_numbered(all.subrange(0, i as int)) == Some(
                words@[k as int]@,
            ),
        decreases words.len() - i,
    {
        assert(all.subrange(0, i + 1).drop_last() =~= all.subrange(0, i as int));
        assert(all.subrange(0, i + 1).last() == words@[i as int]@);
        if found.is_none() && words[i].len() > 0 && text::digit(words[i][0]) {
            found = Some(i);
        }
        i = i + 1;
    }
    assert(all.subrange(0, words.len() as int) =~= all);
    let at: usize = match found {
        Some(k) => k,
        None => {
            return None;
        },
    };
    let pieces = text::split_on(&words[at], '.');
    let ghost p = text::split(words@[at as int]@, '.');
    assert(p.len() == pieces@.len());
    assert(p[0] == pieces@[0]@);
    let major: u32 = match read_number(&pieces[0]) {
        Some(n) => n,
        None => {
            return None;
        },
    };
    let minor: u32 = if pieces.len() > 1 {
        assert(p[1] == pieces@[1]@);
        match read_number(&pieces[1]) {
            Some(n) => n,
            None => 0,
        }
    } else {
        0
    };
    Some((major, minor))
}

/// The refusal of a CMake that is too old.
pub open spec fn too_old(found: (u32, u32), min: (u32, u32)) -> Seq<char> {
    "cmake "@ + text::numeral(found.0 as nat) + "."@ + text::numeral(found.1 as nat)
        + " is too old to configure the harvest-bench gtest suites, which need "@ + text::numeral(
        min.0 as nat,
    ) + "."@ + text::numeral(min.1 as nat)
        + ". Every project would report a failed build for a crate that compiled. Put a newer cmake first on PATH."@
}

/// The refusal of a CMake that names no version.
pub open spec fn no_version(t: Seq<char>) -> Seq<char> {
    "`cmake --version` printed no version this can read: "@ + text::quoted_form(t)
}

/// Refuses a CMake that the suites cannot be configured with. One that names no version is refused
/// too.
pub fn accept_cmake(version_text: &str, min: (u32, u32)) -> (r: Result<(), String>)
    ensures
        match version_in(version_text@) {
            None => r matches Err(e) && e@ == no_version(version_text@),
            Some(v) => if no_older(v, min) {
                r is Ok
            } else {
                r matches Err(e) && e@ == too_old(v, min)
            },
        },
{
    let found = match cmake_version(version_text) {
        Some(v) => v,
        None => {
            return Err(
                text::join2(
                    "`cmake --version` printed no version this can read: ",
                    text::quoted(version_text).as_str(),
                ),
            );
        },
    };
    if found.0 > min.0 || (found.0 == min.0 && found.1 >= min.1) {
        return Ok(());
    }
    let mut e = text::copy("cmake ");
    text::push_numeral(&mut e, found.0 as u64);
    e.append(".");
    text::push_numeral(&mut e, found.1 as u64);
    e.append(" is too old to configure the harvest-bench gtest suites, which need ");
    text::push_numeral(&mut e, min.0 as u64);
    e.append(".");
    text::push_numeral(&mut e, min.1 as u64);
    e.append(
        ". Every project would report a failed build for a crate that compiled. Put a newer cmake first on PATH.",
    );
    Err(e)
}

/// What was found before a run.
#[derive(Debug)]
pub struct Probe<'a> {
    /// The corpus is there.
    pub corpus_is_dir: bool,
    /// What became of asking `python3` whether it is new enough: its answer, or why it was not asked.
    pub python: Result<bool, String>,
    /// Why the runner of the suites cannot be used, where it cannot.
    pub runner: Option<String>,
    /// What `cmake --version` printed, or why it was not asked.
    pub cmake: Result<&'a str, String>,
}

/// Where a run reads and writes.
#[derive(Debug)]
pub struct Roots {
    pub corpus_dir: String,
    pub results_dir: String,
}

/// Where a run reads and writes, once what it needs was found there.
#[derive(Debug)]
pub struct Preflighted(Roots);

impl Preflighted {
    /// Where the run reads and writes.
    pub closed spec fn vouched(&self) -> Roots {
        self.0
    }

    /// Where the run reads and writes.
    pub fn paths(&self) -> (r: &Roots)
        ensures
            *r == self.vouched(),
    {
        &self.0
    }
}

/// What a dataset is, to a run.
#[derive(Debug, Copy, Clone, PartialEq, Eq, Structural)]
pub enum Benchmark {
    TestCorpus,
    HarvestBench,
}

/// What a run of a dataset lacks; nothing where it lacks nothing.
pub open spec fn lacking(b: Benchmark, corpus_dir: Seq<char>, p: Probe) -> Option<Seq<char>> {
    match b {
        Benchmark::TestCorpus => if !p.corpus_is_dir {
            Some(
                "the test-corpus submodule is absent at "@ + corpus_dir
                    + " -- run: git submodule update --init test-corpus"@,
            )
        } else {
            match p.python {
                Err(e) => Some(
                    "python3 is not runnable ("@ + e@ + "), and scoring goes through it"@,
                ),
                Ok(ok) => if ok {
                    None
                } else {
                    Some("python3 is older than 3.10, which MIT runtests needs"@)
                },
            }
        },
        Benchmark::HarvestBench => if !p.corpus_is_dir {
            Some(
                "harvest-bench/tests is absent at "@ + corpus_dir
                    + " -- run: git submodule update --init harvest-bench"@,
            )
        } else {
            match p.runner {
                Some(e) => Some(e@),
                None => match p.cmake {
                    Err(e) => Some(
                        "cmake is not runnable ("@ + e@
                            + "), and the gtest suites are configured with it"@,
                    ),
                    Ok(t) => match version_in(t@) {
                        None => Some(no_version(t@)),
                        Some(v) => if no_older(v, (CMAKE_MIN_MAJOR, CMAKE_MIN_MINOR)) {
                            None
                        } else {
                            Some(too_old(v, (CMAKE_MIN_MAJOR, CMAKE_MIN_MINOR)))
                        },
                    },
                },
            }
        },
    }
}

/// The dataset, to a run.
pub fn for_dataset(d: Dataset) -> (r: Benchmark)
    ensures
        r == (match d {
            Dataset::TestCorpus => Benchmark::TestCorpus,
            Dataset::HarvestBench => Benchmark::HarvestBench,
        }),
{
    match d {
        Dataset::TestCorpus => Benchmark::TestCorpus,
        Dataset::HarvestBench => Benchmark::HarvestBench,
    }
}

impl Benchmark {
    /// The name of the dataset.
    pub fn name(self) -> (r: &'static str)
        ensures
            r@ == (match self {
                Benchmark::TestCorpus => "test-corpus"@,
                Benchmark::HarvestBench => "harvest-bench"@,
            }),
    {
        match self {
            Benchmark::TestCorpus => "test-corpus",
            Benchmark::HarvestBench => "harvest-bench",
        }
    }

    /// Vouches that everything is there that a run needs, hours before it needs it.
    pub fn preflight(self, paths: Roots, probe: &Probe) -> (r: Result<Preflighted, String>)
        ensures
            match lacking(self, paths.corpus_dir@, *probe) {
                None => r matches Ok(p) && p.vouched() == paths,
                Some(why) => r matches Err(e) && e@ == why,
            },
    {
        match self {
            Benchmark::TestCorpus => {
                if !probe.corpus_is_dir {
                    return Err(
                        text::join3(
                            "the test-corpus submodule is absent at ",
                            paths.corpus_dir.as_str(),
                            " -- run: git submodule update --init test-corpus",
                        ),
                    );
                }
                match &probe.python {
                    Err(e) => Err(
                        text::join3(
                            "python3 is not runnable (",
                            e.as_str(),
                            "), and scoring goes through it",
                        ),
                    ),
                    Ok(ok) => if *ok {
                        Ok(Preflighted(paths))
                    } else {
                        Err(text::copy("python3 is older than 3.10, which MIT runtests needs"))
                    },
                }
            },
            Benchmark::HarvestBench => {
                if !probe.corpus_is_dir {
                    return Err(
                        text::join3(
                            "harvest-bench/tests is absent at ",
                            paths.corpus_dir.as_str(),
                            " -- run: git submodule update --init harvest-bench",
                        ),
                    );
                }
                if let Some(e) = &probe.runner {
                    return Err(text::copy(e.as_str()));
                }
                match &probe.cmake {
                    Err(e) => Err(
                        text::join3(
                            "cmake is not runnable (",
                            e.as_str(),
                            "), and the gtest suites are configured with it",
                        ),
                    ),
                    Ok(t) => match accept_cmake(t, (CMAKE_MIN_MAJOR, CMAKE_MIN_MINOR)) {
                        Ok(_) => Ok(Preflighted(paths)),
                        Err(e) => Err(e),
                    },
                }
            },
        }
    }
}

// ---------------------------------------------------------------------------
// What a run covers
// ---------------------------------------------------------------------------

/// An optional text.
pub open spec fn maybe(s: Option<&str>) -> Option<Seq<char>> {
    match s {
        Some(t) => Some(t@),
        None => None,
    }
}

/// An optional string.
pub open spec fn maybe_owned(s: Option<String>) -> Option<Seq<char>> {
    match s {
        Some(t) => Some(t@),
        None => None,
    }
}

/// The battery that a target names.
pub open spec fn battery_in(target: Seq<char>) -> Seq<char> {
    text::before_char(target, '/')
}

/// The expression for the case that a target names, where it names one: anchored at its end, so that
/// a case does not select those whose names begin like its own.
pub open spec fn case_in(target: Seq<char>) -> Option<Seq<char>> {
    match text::first_place(target, '/') {
        Some(i) => Some(target.subrange(i + 1, target.len() as int) + "$"@),
        None => None,
    }
}

/// Takes a target apart: the battery, and the expression for a case where it names one.
pub fn parse_target(target: &str) -> (r: (String, Option<String>))
    ensures
        r.0@ == battery_in(target@),
        maybe_owned(r.1) == case_in(target@),
{
    let v = text::chars_of(target);
    match text::find_char(&v, '/') {
        Some(i) => {
            let case = text::string_of(&text::cut(&v, i + 1, v.len()));
            (text::string_of(&text::cut(&v, 0, i)), Some(text::join2(case.as_str(), "$")))
        },
        None => (text::copy(target), None),
    }
}

/// The refusal of a case list with two filters.
pub open spec fn two_filters(t: Seq<char>, f: Seq<char>) -> Seq<char> {
    "the target names a case ("@ + t + ") and --include-regex was also given ("@ + f
        + "); both filter the same list and only one can apply, so pass one or the other"@
}

/// The one filter of a case list, from the two places that can name one. Where both do, neither is
/// dropped: that is refused.
pub fn one_filter(from_target: Option<String>, from_flag: Option<&str>) -> (r: Result<
    Option<String>,
    String,
>)
    ensures
        r is Err <==> from_target is Some && from_flag is Some,
        r matches Err(e) ==> e@ == two_filters(from_target->0@, from_flag->0@),
        r matches Ok(f) ==> maybe_owned(f) == (match from_target {
            Some(t) => Some(t@),
            None => maybe(from_flag),
        }),
{
    match (from_target, from_flag) {
        (Some(t), Some(f)) => {
            let head = text::join3(
                "the target names a case (",
                t.as_str(),
                ") and --include-regex was also given (",
            );
            Err(
                text::join3(
                    head.as_str(),
                    f,
                    "); both filter the same list and only one can apply, so pass one or the other",
                ),
            )
        },
        (Some(t), None) => Ok(Some(t)),
        (None, Some(f)) => Ok(Some(text::copy(f))),
        (None, None) => Ok(None),
    }
}

/// The refusal of a filter that nothing honours.
pub open spec fn useless_filter(f: Seq<char>) -> Seq<char> {
    "--include-regex ("@ + f
        + ") does not apply to harvest-bench: its unit is a project, and nothing under it filters by case. Name the project in the target instead"@
}

/// Refuses a filter for a dataset whose units hold one case each.
pub fn no_filter_here(from_flag: Option<&str>) -> (r: Result<(), String>)
    ensures
        r is Ok <==> from_flag is None,
        r matches Err(e) ==> e@ == useless_filter(from_flag->0@),
{
    match from_flag {
        None => Ok(()),
        Some(f) => Err(
            text::join3(
                "--include-regex (",
                f,
                ") does not apply to harvest-bench: its unit is a project, and nothing under it filters by case. Name the project in the target instead",
            ),
        ),
    }
}

/// Which cases of a unit a score may claim.
#[derive(Debug)]
pub enum Covers<'a> {
    WholeBattery,
    Subset(&'a str),
}

/// What a run covers: its units, and which of their cases. One value for the chain, for the check of
/// what may be published, and for the score.
#[derive(Debug)]
pub struct Scope {
    units: Vec<String>,
    filter: Option<String>,
}

/// A target that stands for every unit of its dataset.
pub open spec fn names_all(b: Benchmark, target: Seq<char>) -> bool {
    target == "all"@ || (b == Benchmark::HarvestBench && text::lowered(target) == "hb"@)
}

/// The units that a target names.
pub open spec fn units_of(b: Benchmark, target: Seq<char>, all: Seq<Seq<char>>) -> Seq<Seq<char>> {
    let unit = match b {
        Benchmark::TestCorpus => battery_in(target),
        Benchmark::HarvestBench => target,
    };
    if names_all(b, unit) {
        all
    } else {
        seq![unit]
    }
}

/// Why a target and a filter cannot be run together; nothing where they can.
pub open spec fn unscopable(b: Benchmark, target: Seq<char>, wanted: Option<&str>) -> Option<
    Seq<char>,
> {
    match wanted {
        None => None,
        Some(f) => match b {
            Benchmark::TestCorpus => match case_in(target) {
                Some(t) => Some(two_filters(t, f@)),
                None => None,
            },
            Benchmark::HarvestBench => Some(useless_filter(f@)),
        },
    }
}

/// The filter of a run.
pub open spec fn filter_of(b: Benchmark, target: Seq<char>, wanted: Option<&str>) -> Option<
    Seq<char>,
> {
    match b {
        Benchmark::TestCorpus => match case_in(target) {
            Some(t) => Some(t),
            None => maybe(wanted),
        },
        Benchmark::HarvestBench => None,
    }
}

impl Benchmark {
    /// The units that a target names: one, or all of them. `all` are those of the corpus.
    pub fn batteries(self, target: &str, all: &[String]) -> (r: Vec<String>)
        ensures
            text::views(r@) == (if names_all(self, target@) {
                text::views(all@)
            } else {
                seq![target@]
            }),
    {
        let hb = match self {
            Benchmark::TestCorpus => false,
            Benchmark::HarvestBench => text::same(
                &text::to_lower(&text::chars_of(target)),
                &text::chars_of("hb"),
            ),
        };
        if text::same_text(target, "all") || hb {
            text::copies(all)
        } else {
            let mut v: Vec<String> = Vec::new();
            v.push(text::copy(target));
            assert(text::views(v@) =~= seq![target@]);
            v
        }
    }
}

impl Scope {
    /// The units of the run.
    pub closed spec fn listed(&self) -> Seq<Seq<char>> {
        text::views(self.units@)
    }

    /// The filter of their cases.
    pub closed spec fn narrowed(&self) -> Option<Seq<char>> {
        maybe_owned(self.filter)
    }

    /// What a run of a target covers. `all` are the units of the corpus.
    pub fn resolve(b: Benchmark, target: &str, wanted: Option<&str>, all: &[String]) -> (r: Result<
        Scope,
        String,
    >)
        ensures
            match unscopable(b, target@, wanted) {
                Some(why) => r matches Err(e) && e@ == why,
                None => r matches Ok(s) && s.listed() == units_of(
                    b,
                    target@,
                    text::views(all@),
                ) && s.narrowed() == filter_of(b, target@, wanted),
            },
    {
        match b {
            Benchmark::TestCorpus => {
                let (unit, from_target) = parse_target(target);
                match one_filter(from_target, wanted) {
                    Err(e) => Err(e),
                    Ok(filter) => Ok(Scope { units: b.batteries(unit.as_str(), all), filter }),
                }
            },
            Benchmark::HarvestBench => match no_filter_here(wanted) {
                Err(e) => Err(e),
                Ok(_) => Ok(Scope { units: b.batteries(target, all), filter: None }),
            },
        }
    }

    /// The units of the run.
    pub fn units(&self) -> (r: &[String])
        ensures
            text::views(r@) == self.listed(),
    {
        self.units.as_slice()
    }

    /// The filter of their cases.
    pub fn filter(&self) -> (r: Option<&str>)
        ensures
            maybe(r) == self.narrowed(),
    {
        match &self.filter {
            Some(f) => Some(f.as_str()),
            None => None,
        }
    }

    /// Which cases of a unit the score may claim: those of the filter, wherever it came from.
    pub fn covers(&self) -> (r: Covers<'_>)
        ensures
            match self.narrowed() {
                None => r is WholeBattery,
                Some(f) => r matches Covers::Subset(s) && s@ == f,
            },
    {
        match &self.filter {
            Some(f) => Covers::Subset(f.as_str()),
            None => Covers::WholeBattery,
        }
    }
}

/// A run covers every case of its dataset, and so may write its tables anew.
pub open spec fn covers_all(b: Benchmark, inner: Seq<char>, filtered: bool) -> bool {
    !filtered && inner == (match b {
        Benchmark::TestCorpus => "all"@,
        Benchmark::HarvestBench => "HB"@,
    })
}

impl Benchmark {
    /// Whether a run of a target covers every case of the dataset: only such a run may write its
    /// tables anew, or a part of it would blank the rest.
    pub fn whole_scope(self, inner: &str, filter: Option<&str>) -> (r: bool)
        ensures
            r == covers_all(self, inner@, filter is Some),
    {
        let all = match self {
            Benchmark::TestCorpus => "all",
            Benchmark::HarvestBench => "HB",
        };
        filter.is_none() && text::same_text(inner, all)
    }
}

/// What is said of the answers that a provider declined to give, nothing where there are none.
pub open spec fn refusals(tool: Seq<char>, refused: Seq<Seq<char>>) -> Option<Seq<char>> {
    if refused.len() == 0 {
        None
    } else {
        Some(
            tool + " 🚫 provider refusals: "@ + text::numeral(refused.len()) + " ("@ + text::joined(
                refused,
                ", "@,
            ) + ")"@,
        )
    }
}

/// What is said of the answers that a provider declined to give, apart from the failures.
pub fn refusals_line(tool: &str, refused: &[String]) -> (r: Option<String>)
    ensures
        maybe_owned(r) == refusals(tool@, text::views(refused@)),
{
    if refused.len() == 0 {
        return None;
    }
    assert(text::views(refused@).len() == refused@.len());
    let mut s = text::join2(tool, " 🚫 provider refusals: ");
    text::push_numeral(&mut s, refused.len() as u64);
    s.append(" (");
    s.append(text::join_all(refused, ", ").as_str());
    s.append(")");
    Some(s)
}

/// A directory above the current one, with whether it holds `test-corpus` and `results`.
#[derive(Debug)]
pub struct Above {
    pub dir: String,
    pub corpus: bool,
    pub results: bool,
}

/// The first directory that holds both.
pub open spec fn root_among(dirs: Seq<Above>) -> Option<Seq<char>>
    decreases dirs.len(),
{
    if dirs.len() == 0 {
        None
    } else {
        match root_among(dirs.drop_last()) {
            Some(d) => Some(d),
            None => if dirs.last().corpus && dirs.last().results {
                Some(dirs.last().dir@)
            } else {
                None
            },
        }
    }
}

proof fn lemma_root_stays(dirs: Seq<Above>, n: int)
    requires
        0 <= n <= dirs.len(),
        root_among(dirs.subrange(0, n)) is Some,
    ensures
        root_among(dirs) == root_among(dirs.subrange(0, n)),
    decreases dirs.len() - n,
{
    if n == dirs.len() {
        assert(dirs.subrange(0, n) =~= dirs);
    } else {
        assert(dirs.subrange(0, n + 1).drop_last() =~= dirs.subrange(0, n));
        lemma_root_stays(dirs, n + 1);
    }
}

/// The root of the repository: the nearest directory that holds `test-corpus` and `results`. `dirs`
/// are the current directory and those above it, from the nearest up.
pub fn find_repo_root(dirs: &[Above]) -> (r: Result<String, String>)
    ensures
        match root_among(dirs@) {
            Some(d) => r matches Ok(s) && s@ == d,
            None => r matches Err(e) && e@
                == "Could not find repo root (looking for test-corpus/ and results/)"@,
        },
{
    let mut i: usize = 0;
    while i < dirs.len()
        invariant
            i <= dirs.len(),
            root_among(dirs@.subrange(0, i as int)) is None,
        decreases dirs.len() - i,
    {
        assert(dirs@.subrange(0, i + 1).drop_last() =~= dirs@.subrange(0, i as int));
        assert(dirs@.subrange(0, i + 1).last() == dirs@[i as int]);
        if dirs[i].corpus && dirs[i].results {
            proof {
                lemma_root_stays(dirs@, i + 1);
            }
            return Ok(text::copy(dirs[i].dir.as_str()));
        }
        i = i + 1;
    }
    assert(dirs@.subrange(0, dirs.len() as int) =~= dirs@);
    Err(text::copy("Could not find repo root (looking for test-corpus/ and results/)"))
}

// ---------------------------------------------------------------------------
// The cases of a unit
// ---------------------------------------------------------------------------

/// The directory of a case that holds its C.
pub const CORPUS_C: &'static str = "test_case";

impl Benchmark {
    /// The directory of a unit in the corpus.
    pub open spec fn input_of(self, corpus_dir: Seq<char>, unit: Seq<char>) -> Seq<char> {
        match self {
            Benchmark::TestCorpus => paths::joined(
                paths::joined(corpus_dir, "Public-Tests"@),
                unit,
            ),
            Benchmark::HarvestBench => paths::joined(corpus_dir, unit),
        }
    }

    /// The directory of a unit in the corpus.
    pub fn input_dir(self, roots: &Roots, unit: &str) -> (r: String)
        ensures
            r@ == self.input_of(roots.corpus_dir@, unit@),
    {
        match self {
            Benchmark::TestCorpus => paths::join3(
                roots.corpus_dir.as_str(),
                "Public-Tests",
                unit,
            ),
            Benchmark::HarvestBench => paths::join(roots.corpus_dir.as_str(), unit),
        }
    }
}

impl Roots {
    /// Where a unit is published.
    pub fn output_dir(&self, unit: &str) -> (r: String)
        ensures
            r@ == paths::joined(self.results_dir@, unit@),
    {
        paths::join(self.results_dir.as_str(), unit)
    }

    /// Where a case of a unit is published.
    pub fn case_dir(&self, unit: &str, case: &str) -> (r: String)
        ensures
            r@ == paths::joined(paths::joined(self.results_dir@, unit@), case@),
    {
        paths::join3(self.results_dir.as_str(), unit, case)
    }
}

/// The source of a case's runner, where there is one.
pub open spec fn runner_of(entries: Seq<CaseEntry>, name: Seq<char>) -> Option<String> {
    match battery::position(entries, name) {
        Some(i) => entries[i].runner_main,
        None => None,
    }
}

/// The presets of a case, where there are some.
pub open spec fn presets_of(entries: Seq<CaseEntry>, name: Seq<char>) -> Option<Seq<char>> {
    match battery::position(entries, name) {
        Some(i) => maybe_owned(entries[i].presets),
        None => None,
    }
}

/// The features that presets select; nothing where they cannot be read.
pub open spec fn features_in(presets: Option<Seq<char>>) -> Option<Seq<Seq<char>>> {
    match presets {
        None => Some(Seq::empty()),
        Some(t) => match json::read(t) {
            Some(j) => Some(battery::preset_features(j)),
            None => None,
        },
    }
}

/// Where a case reads and publishes: its root in the corpus, its C, and its directory in the results.
pub open spec fn spots(input: Seq<char>, output: Seq<char>, name: Seq<char>) -> (
    Seq<char>,
    Seq<char>,
    Seq<char>,
) {
    (
        paths::joined(input, name),
        paths::joined(paths::joined(input, name), CORPUS_C@),
        paths::joined(output, name),
    )
}

/// Another configuration, where it reads and publishes.
pub open spec fn follower_of(
    input: Seq<char>,
    output: Seq<char>,
    c: battery::ConfigView,
) -> chain::FollowerView {
    let at = spots(input, output, c.name);
    chain::FollowerView { cfg: c, case_inputs: at.0, corpus: at.1, case_dir: at.2 }
}

/// Why a case has no job.
pub enum NoJobView {
    /// There is no C at this place.
    NoCorpus(Seq<char>),
    /// Its presets cannot be read.
    Unreadable,
}

/// What is said where there is no C.
pub open spec fn no_corpus(place: Seq<char>) -> Seq<char> {
    "no C corpus at "@ + place + ": an absent input would otherwise be keyed as a real one"@
}

/// The first of the configurations whose C is not there, by the place of its C.
pub open spec fn first_without_c(
    input: Seq<char>,
    output: Seq<char>,
    configs: Seq<battery::ConfigView>,
    there: Seq<Seq<char>>,
) -> Option<Seq<char>>
    decreases configs.len(),
{
    if configs.len() == 0 {
        None
    } else {
        match first_without_c(input, output, configs.drop_last(), there) {
            Some(p) => Some(p),
            None => {
                let c = spots(input, output, configs.last().name).1;
                if there.contains(c) {
                    None
                } else {
                    Some(c)
                }
            },
        }
    }
}

/// The job of a case. A case of its own is a library, by the name that its runner loads or else by
/// its own, or a program. One with followers is the template that they are derived from. There is none
/// where the C of the case, or of a follower, is not among the places where C is.
pub open spec fn job_of(
    input: Seq<char>,
    output: Seq<char>,
    case: battery::CaseView,
    entries: Seq<CaseEntry>,
    there: Seq<Seq<char>>,
) -> Result<chain::JobView, NoJobView> {
    match case {
        battery::CaseView::Independent { name, is_lib } => {
            let at = spots(input, output, name);
            if !there.contains(at.1) {
                Err(NoJobView::NoCorpus(at.1))
            } else {
                Ok(
                    chain::JobView {
                        name,
                        case_inputs: at.0,
                        corpus: at.1,
                        case_dir: at.2,
                        shape: if is_lib {
                            Shape::Library
                        } else {
                            Shape::Executable
                        },
                        artifact: if is_lib {
                            chain::ArtifactView::Cdylib {
                                lib_name: match battery::library_named(runner_of(entries, name)) {
                                    Some(l) => l,
                                    None => name,
                                },
                            }
                        } else {
                            chain::ArtifactView::Driver
                        },
                        followers: Seq::empty(),
                    },
                )
            }
        },
        battery::CaseView::SharedSource { real_case, configs } => {
            let at = spots(input, output, real_case);
            if !there.contains(at.1) {
                Err(NoJobView::NoCorpus(at.1))
            } else {
                match features_in(presets_of(entries, real_case)) {
                    None => Err(NoJobView::Unreadable),
                    Some(features) => match first_without_c(input, output, configs, there) {
                        Some(p) => Err(NoJobView::NoCorpus(p)),
                        None => Ok(
                            chain::JobView {
                                name: real_case,
                                case_inputs: at.0,
                                corpus: at.1,
                                case_dir: at.2,
                                shape: Shape::Shared,
                                artifact: chain::ArtifactView::Template {
                                    default_features: features,
                                    needs_driver: !battery::named_lib(real_case),
                                },
                                followers: configs.map_values(
                                    |c: battery::ConfigView| follower_of(input, output, c),
                                ),
                            },
                        ),
                    },
                }
            }
        },
    }
}

fn copy_config(c: &Config) -> (r: Config)
    ensures
        r@ == c@,
{
    let lib_name = match &c.lib_name {
        Some(l) => Some(text::copy(l.as_str())),
        None => None,
    };
    Config {
        name: text::copy(c.name.as_str()),
        features: text::copies(c.features.as_slice()),
        is_lib: c.is_lib,
        lib_name,
    }
}

proof fn lemma_without_c_stays(
    input: Seq<char>,
    output: Seq<char>,
    configs: Seq<battery::ConfigView>,
    there: Seq<Seq<char>>,
    n: int,
)
    requires
        0 <= n <= configs.len(),
        first_without_c(input, output, configs.subrange(0, n), there) is Some,
    ensures
        first_without_c(input, output, configs, there) == first_without_c(
            input,
            output,
            configs.subrange(0, n),
            there,
        ),
    decreases configs.len() - n,
{
    if n == configs.len() {
        assert(configs.subrange(0, n) =~= configs);
    } else {
        assert(configs.subrange(0, n + 1).drop_last() =~= configs.subrange(0, n));
        lemma_without_c_stays(input, output, configs, there, n + 1);
    }
}

/// The followers of configurations, or the first place where their C is not.
fn followers_of(input: &str, output: &str, configs: &Vec<Config>, there: &[String]) -> (r: Result<
    Vec<Follower>,
    String,
>)
    ensures
        match first_without_c(
            input@,
            output@,
            battery::config_views(configs@),
            text::views(there@),
        ) {
            Some(p) => r matches Err(e) && e@ == p,
            None => r matches Ok(v) && v@.map_values(|f: Follower| f@) == battery::config_views(
                configs@,
            ).map_values(|c: battery::ConfigView| follower_of(input@, output@, c)),
        },
{
    let ghost all = battery::config_views(configs@);
    let ghost places = text::views(there@);
    let mut out: Vec<Follower> = Vec::new();
    let mut i: usize = 0;
    while i < configs.len()
        invariant
            i <= configs.len(),
            all == battery::config_views(configs@),
            places == text::views(there@),
            out@.len() == i,
            first_without_c(input@, output@, all.subrange(0, i as int), places) is None,
            forall|k: int|
                0 <= k < i ==> (#[trigger] out@[k])@ == follower_of(
                    input@,
                    output@,
                    configs@[k]@,
                ),
        decreases configs.len() - i,
    {
        let name = configs[i].name.as_str();
        let corpus = paths::join3(input, name, CORPUS_C);
        proof {
            assert(all.subrange(0, i + 1).drop_last() =~= all.subrange(0, i as int));
            assert(all.subrange(0, i + 1).last() == configs@[i as int]@);
            assert(corpus@ == spots(input@, output@, name@).1);
        }
        if !battery::holds(there, corpus.as_str()) {
            proof {
                lemma_without_c_stays(input@, output@, all, places, i + 1);
            }
            return Err(corpus);
        }
        let f = Follower {
            case_inputs: paths::join(input, name),
            corpus,
            case_dir: paths::join(output, name),
            cfg: copy_config(&configs[i]),
        };
        assert(f@ == follower_of(input@, output@, configs@[i as int]@));
        out.push(f);
        i = i + 1;
    }
    assert(all.subrange(0, configs.len() as int) =~= all);
    assert(out@.map_values(|f: Follower| f@) =~= battery::config_views(configs@).map_values(
        |c: battery::ConfigView| follower_of(input@, output@, c),
    ));
    Ok(out)
}

/// Why a unit has no jobs.
#[derive(Debug)]
pub enum NoJobs {
    /// Its cases were not found.
    Undiscovered(battery::DiscoverError),
    /// The C of a case is not there.
    NoCorpus(String),
    /// The presets of a case cannot be read.
    Unreadable(String),
}

/// The refusal says why a case has no job.
pub open spec fn tells(e: NoJobs, why: NoJobView) -> bool {
    match why {
        NoJobView::NoCorpus(p) => e matches NoJobs::NoCorpus(m) && m@ == no_corpus(p),
        NoJobView::Unreadable => e matches NoJobs::Unreadable(m) && m@
            == "parsing CMakePresets.json"@,
    }
}

fn refuse_corpus(place: &str) -> (r: String)
    ensures
        r@ == no_corpus(place@),
{
    text::join3(
        "no C corpus at ",
        place,
        ": an absent input would otherwise be keyed as a real one",
    )
}

/// The job of one case of the test corpus. `input` is the directory of its battery in the corpus,
/// `output` that in the results, `entries` the directories of the battery, and `there` the places where
/// C is.
pub fn test_corpus_job(
    input: &str,
    output: &str,
    case: &Case,
    entries: &[CaseEntry],
    there: &[String],
) -> (r: Result<Job, NoJobs>)
    ensures
        match job_of(input@, output@, case@, entries@, text::views(there@)) {
            Ok(j) => r matches Ok(job) && job@ == j,
            Err(why) => r matches Err(e) && tells(e, why),
        },
{
    match case {
        Case::Independent(c) => {
            let name = c.name.as_str();
            let corpus = paths::join3(input, name, CORPUS_C);
            if !battery::holds(there, corpus.as_str()) {
                return Err(NoJobs::NoCorpus(refuse_corpus(corpus.as_str())));
            }
            let artifact = if c.is_lib {
                let found = match battery::place_of(entries, name) {
                    Some(i) => battery::extract_lib_name(&entries[i].runner_main),
                    None => None,
                };
                Artifact::Cdylib {
                    lib_name: match found {
                        Some(l) => l,
                        None => text::copy(name),
                    },
                }
            } else {
                Artifact::Driver
            };
            let job = Job {
                name: text::copy(name),
                case_inputs: paths::join(input, name),
                corpus,
                case_dir: paths::join(output, name),
                shape: Shape::of(c.is_lib, false),
                artifact,
                followers: Vec::new(),
            };
            assert(job@.followers =~= Seq::<chain::FollowerView>::empty());
            Ok(job)
        },
        Case::SharedSource(g) => {
            let name = g.real_case.as_str();
            let corpus = paths::join3(input, name, CORPUS_C);
            if !battery::holds(there, corpus.as_str()) {
                return Err(NoJobs::NoCorpus(refuse_corpus(corpus.as_str())));
            }
            let presets: Option<&str> = match battery::place_of(entries, name) {
                Some(i) => match &entries[i].presets {
                    Some(t) => Some(t.as_str()),
                    None => None,
                },
                None => None,
            };
            assert(maybe(presets) == presets_of(entries@, name@));
            let default_features = match battery::extract_features_from_path(presets) {
                Ok(f) => f,
                Err(e) => {
                    return Err(NoJobs::Unreadable(e));
                },
            };
            let followers = match followers_of(input, output, &g.configs, there) {
                Ok(v) => v,
                Err(place) => {
                    return Err(NoJobs::NoCorpus(refuse_corpus(place.as_str())));
                },
            };
            let is_lib = text::ends_with(&text::chars_of(name), &text::chars_of("_lib"));
            let job = Job {
                name: text::copy(name),
                case_inputs: paths::join(input, name),
                corpus,
                case_dir: paths::join(output, name),
                shape: Shape::Shared,
                artifact: Artifact::Template { default_features, needs_driver: !is_lib },
                followers,
            };
            Ok(job)
        },
    }
}

/// The jobs of cases, in their order, or why the first that has none has none.
pub open spec fn jobs_of(
    input: Seq<char>,
    output: Seq<char>,
    cases: Seq<battery::CaseView>,
    entries: Seq<CaseEntry>,
    there: Seq<Seq<char>>,
) -> Result<Seq<chain::JobView>, NoJobView>
    decreases cases.len(),
{
    if cases.len() == 0 {
        Ok(Seq::empty())
    } else {
        match jobs_of(input, output, cases.drop_last(), entries, there) {
            Err(why) => Err(why),
            Ok(before) => match job_of(input, output, cases.last(), entries, there) {
                Err(why) => Err(why),
                Ok(j) => Ok(before.push(j)),
            },
        }
    }
}

proof fn lemma_no_job_stays(
    input: Seq<char>,
    output: Seq<char>,
    cases: Seq<battery::CaseView>,
    entries: Seq<CaseEntry>,
    there: Seq<Seq<char>>,
    n: int,
)
    requires
        0 <= n <= cases.len(),
        jobs_of(input, output, cases.subrange(0, n), entries, there) is Err,
    ensures
        jobs_of(input, output, cases, entries, there) == jobs_of(
            input,
            output,
            cases.subrange(0, n),
            entries,
            there,
        ),
    decreases cases.len() - n,
{
    if n == cases.len() {
        assert(cases.subrange(0, n) =~= cases);
    } else {
        assert(cases.subrange(0, n + 1).drop_last() =~= cases.subrange(0, n));
        lemma_no_job_stays(input, output, cases, entries, there, n + 1);
    }
}

/// What jobs say.
pub open spec fn job_views(jobs: Seq<Job>) -> Seq<chain::JobView> {
    jobs.map_values(|j: Job| j@)
}

/// The jobs of a battery of the test corpus, from the directories in it. `there` are the places where C
/// is.
pub fn test_corpus_jobs(
    roots: &Roots,
    unit: &str,
    is_dir: bool,
    entries: &[CaseEntry],
    there: &[String],
    filter: Option<&str>,
) -> (r: Result<Vec<Job>, NoJobs>)
    ensures
        r is Ok <==> {
            &&& is_dir
            &&& battery::is_pattern(maybe(filter))
            &&& battery::first_fault(
                battery::chosen(entries@, maybe(filter)),
                entries@,
            ) is None
            &&& jobs_of(
                Benchmark::TestCorpus.input_of(roots.corpus_dir@, unit@),
                paths::joined(roots.results_dir@, unit@),
                battery::cases_in(entries@, maybe(filter)),
                entries@,
                text::views(there@),
            ) is Ok
        },
        r matches Ok(jobs) ==> jobs_of(
            Benchmark::TestCorpus.input_of(roots.corpus_dir@, unit@),
            paths::joined(roots.results_dir@, unit@),
            battery::cases_in(entries@, maybe(filter)),
            entries@,
            text::views(there@),
        ) == Ok::<Seq<chain::JobView>, NoJobView>(job_views(jobs@)),
        r matches Err(NoJobs::Undiscovered(e)) ==> match e {
            battery::DiscoverError::NoBattery(m) => !is_dir && m@ == "Battery not found: "@
                + Benchmark::TestCorpus.input_of(roots.corpus_dir@, unit@),
            battery::DiscoverError::BadFilter(f) => is_dir && !battery::is_pattern(maybe(filter))
                && maybe(filter) == Some(f@),
            battery::DiscoverError::BadLink(m) => {
                &&& is_dir
                &&& battery::is_pattern(maybe(filter))
                &&& battery::first_fault(
                    battery::chosen(entries@, maybe(filter)),
                    entries@,
                ) == Some(m@)
            },
        },
        r matches Err(e) ==> !(e is Undiscovered) ==> {
            &&& is_dir
            &&& battery::is_pattern(maybe(filter))
            &&& battery::first_fault(
                battery::chosen(entries@, maybe(filter)),
                entries@,
            ) is None
            &&& jobs_of(
                Benchmark::TestCorpus.input_of(roots.corpus_dir@, unit@),
                paths::joined(roots.results_dir@, unit@),
                battery::cases_in(entries@, maybe(filter)),
                entries@,
                text::views(there@),
            ) matches Err(why) && tells(e, why)
        },
{
    let input = Benchmark::TestCorpus.input_dir(roots, unit);
    let output = roots.output_dir(unit);
    assert(battery::maybe_str(filter) == maybe(filter));
    let found = match battery::discover(input.as_str(), is_dir, unit, entries, filter) {
        Ok(b) => b,
        Err(e) => {
            return Err(NoJobs::Undiscovered(e));
        },
    };
    let ghost all = battery::case_views(found.cases@);
    let mut out: Vec<Job> = Vec::new();
    let mut i: usize = 0;
    assert(job_views(out@) =~= Seq::<chain::JobView>::empty());
    while i < found.cases.len()
        invariant
            i <= found.cases.len(),
            all == battery::case_views(found.cases@),
            all == battery::cases_in(entries@, maybe(filter)),
            is_dir,
            battery::is_pattern(maybe(filter)),
            battery::first_fault(battery::chosen(entries@, maybe(filter)), entries@) is None,
            input@ == Benchmark::TestCorpus.input_of(roots.corpus_dir@, unit@),
            output@ == paths::joined(roots.results_dir@, unit@),
            jobs_of(input@, output@, all.subrange(0, i as int), entries@, text::views(there@))
                == Ok::<Seq<chain::JobView>, NoJobView>(job_views(out@)),
        decreases found.cases.len() - i,
    {
        assert(all.subrange(0, i + 1).drop_last() =~= all.subrange(0, i as int));
        assert(all.subrange(0, i + 1).last() == found.cases@[i as int]@);
        let ghost before = job_views(out@);
        match test_corpus_job(input.as_str(), output.as_str(), &found.cases[i], entries, there) {
            Ok(j) => {
                let ghost v = j@;
                out.push(j);
                assert(job_views(out@) =~= before.push(v));
            },
            Err(e) => {
                proof {
                    lemma_no_job_stays(
                        input@,
                        output@,
                        all,
                        entries@,
                        text::views(there@),
                        i + 1,
                    );
                }
                return Err(e);
            },
        }
        i = i + 1;
    }
    assert(all.subrange(0, found.cases.len() as int) =~= all);
    Ok(out)
}

/// The job of a project: one case and its own unit. Its suite links the library by the name of the
/// project.
pub open spec fn project_job(roots: Roots, project: Seq<char>) -> chain::JobView {
    let input = paths::joined(roots.corpus_dir@, project);
    chain::JobView {
        name: project,
        case_inputs: input,
        corpus: paths::joined(input, CORPUS_C@),
        case_dir: paths::joined(roots.results_dir@, project),
        shape: Shape::Library,
        artifact: chain::ArtifactView::Cdylib { lib_name: project },
        followers: Seq::empty(),
    }
}

/// The one job of a project of harvest-bench. `there` says whether its C is there.
pub fn harvest_bench_jobs(
    roots: &Roots,
    project: &str,
    there: bool,
    filter: Option<&str>,
) -> (r: Result<Vec<Job>, String>)
    ensures
        r is Ok <==> filter is None && there,
        r matches Ok(jobs) ==> job_views(jobs@) == seq![project_job(*roots, project@)],
        r matches Err(e) ==> e@ == (match filter {
            Some(f) => useless_filter(f@),
            None => no_corpus(project_job(*roots, project@).corpus),
        }),
{
    match no_filter_here(filter) {
        Err(e) => {
            return Err(e);
        },
        Ok(_) => {},
    }
    let case_inputs = Benchmark::HarvestBench.input_dir(roots, project);
    let corpus = paths::join(case_inputs.as_str(), CORPUS_C);
    if !there {
        return Err(refuse_corpus(corpus.as_str()));
    }
    let job = Job {
        name: text::copy(project),
        corpus,
        case_inputs,
        case_dir: roots.output_dir(project),
        shape: Shape::Library,
        artifact: Artifact::Cdylib { lib_name: text::copy(project) },
        followers: Vec::new(),
    };
    assert(job@.followers =~= Seq::<chain::FollowerView>::empty());
    let ghost v = job@;
    let mut out: Vec<Job> = Vec::new();
    out.push(job);
    assert(job_views(out@) =~= seq![v]);
    Ok(out)
}

// ---------------------------------------------------------------------------
// Laws
// ---------------------------------------------------------------------------

/// The directories of cases in the results.
pub open spec fn dirs_for(output: Seq<char>, names: Seq<Seq<char>>) -> Seq<Seq<char>> {
    names.map_values(|n: Seq<char>| paths::joined(output, n))
}

proof fn lemma_job_dirs(
    input: Seq<char>,
    output: Seq<char>,
    case: battery::CaseView,
    entries: Seq<CaseEntry>,
    there: Seq<Seq<char>>,
    job: Job,
)
    requires
        job_of(input, output, case, entries, there) == Ok::<chain::JobView, NoJobView>(job@),
    ensures
        chain::job_dirs(job) == dirs_for(output, battery::names_of(case)),
{
    let want = dirs_for(output, battery::names_of(case));
    match case {
        battery::CaseView::Independent { name, is_lib: _ } => {
            assert(job@.followers.len() == job.followers@.len());
            assert(chain::job_dirs(job) =~= want);
        },
        battery::CaseView::SharedSource { real_case, configs } => {
            assert(job@.followers.len() == job.followers@.len());
            assert forall|k: int| 0 <= k < configs.len() implies (#[trigger] job.followers@[k]).case_dir@
                == paths::joined(output, configs[k].name) by {
                assert(job@.followers[k] == job.followers@[k]@);
                assert(job@.followers[k] == follower_of(input, output, configs[k]));
            }
            assert(chain::job_dirs(job) =~= want);
        },
    }
}

/// Every case is covered once, the followers too: the directories that the jobs of cases publish into
/// are those of the cases' names, in their order.
pub proof fn law_every_case_is_covered_once(
    input: Seq<char>,
    output: Seq<char>,
    cases: Seq<battery::CaseView>,
    entries: Seq<CaseEntry>,
    there: Seq<Seq<char>>,
    jobs: Seq<Job>,
)
    requires
        jobs_of(input, output, cases, entries, there) == Ok::<Seq<chain::JobView>, NoJobView>(
            job_views(jobs),
        ),
    ensures
        chain::all_dirs(jobs) == dirs_for(output, battery::names_of_all(cases)),
    decreases cases.len(),
{
    if cases.len() == 0 {
        assert(job_views(jobs).len() == jobs.len());
        assert(chain::all_dirs(jobs) =~= dirs_for(output, battery::names_of_all(cases)));
    } else {
        let before = jobs_of(input, output, cases.drop_last(), entries, there)->Ok_0;
        let last = job_of(input, output, cases.last(), entries, there)->Ok_0;
        assert(job_views(jobs) == before.push(last));
        assert(jobs.len() == before.len() + 1);
        assert(job_views(jobs.drop_last()) =~= before) by {
            assert(job_views(jobs.drop_last()) =~= job_views(jobs).drop_last());
            assert(before.push(last).drop_last() =~= before);
        }
        assert(job_views(jobs).last() == jobs.last()@);
        law_every_case_is_covered_once(
            input,
            output,
            cases.drop_last(),
            entries,
            there,
            jobs.drop_last(),
        );
        lemma_job_dirs(input, output, cases.last(), entries, there, jobs.last());
        assert(chain::all_dirs(jobs) =~= dirs_for(output, battery::names_of_all(cases)));
    }
}

proof fn lemma_all_served(dirs: Seq<Seq<char>>, resolved: Set<Seq<char>>)
    ensures
        unserved(dirs, resolved) == 0 <==> forall|i: int|
            0 <= i < dirs.len() ==> served(#[trigger] dirs[i], resolved),
    decreases dirs.len(),
{
    if dirs.len() > 0 {
        let d = dirs.drop_last();
        lemma_all_served(d, resolved);
        lemma_unserved_bound(d, resolved);
        if unserved(dirs, resolved) == 0 {
            assert forall|i: int| 0 <= i < dirs.len() implies served(
                #[trigger] dirs[i],
                resolved,
            ) by {
                if i < d.len() {
                    assert(dirs[i] == d[i]);
                }
            }
        }
        if forall|i: int| 0 <= i < dirs.len() ==> served(#[trigger] dirs[i], resolved) {
            assert forall|i: int| 0 <= i < d.len() implies served(#[trigger] d[i], resolved) by {
                assert(dirs[i] == d[i]);
            }
            assert(served(dirs[dirs.len() - 1], resolved));
        }
    }
}

/// A unit may be published only where it has a case and every directory that it publishes into was
/// served.
pub proof fn law_a_number_is_published_only_in_full(jobs: Seq<Job>, resolved: Set<Seq<char>>)
    ensures
        shortfall(chain::all_dirs(jobs), resolved) is None <==> {
            &&& chain::all_dirs(jobs).len() > 0
            &&& forall|i: int|
                0 <= i < chain::all_dirs(jobs).len() ==> served(
                    #[trigger] chain::all_dirs(jobs)[i],
                    resolved,
                )
        },
{
    lemma_all_served(chain::all_dirs(jobs), resolved);
}

/// Serving more never takes a unit out of scope.
pub proof fn law_more_served_publishes_no_less(
    jobs: Seq<Job>,
    resolved: Set<Seq<char>>,
    more: Set<Seq<char>>,
)
    requires
        shortfall(chain::all_dirs(jobs), resolved) is None,
    ensures
        shortfall(chain::all_dirs(jobs), resolved.union(more)) is None,
{
    let dirs = chain::all_dirs(jobs);
    lemma_all_served(dirs, resolved);
    lemma_all_served(dirs, resolved.union(more));
    assert forall|i: int| 0 <= i < dirs.len() implies served(#[trigger] dirs[i], resolved.union(more)) by {
        let p = choose|p: Seq<char>| #[trigger]
            resolved.contains(p) && paths::within(p, dirs[i]);
        assert(resolved.union(more).contains(p));
    }
}

/// The unit and the score read one scope: a case that a target names narrows the score to itself and
/// leaves the unit the battery.
pub proof fn law_a_named_case_narrows_the_score(target: Seq<char>, all: Seq<Seq<char>>)
    requires
        target.contains('/'),
        battery_in(target) != "all"@,
    ensures
        units_of(Benchmark::TestCorpus, target, all) == seq![battery_in(target)],
        filter_of(Benchmark::TestCorpus, target, None) is Some,
        filter_of(Benchmark::TestCorpus, target, None) == case_in(target),
{
    text::lemma_first_place(target, '/');
}

/// A case that stands alone is built as a library exactly where it is one, and otherwise as a program;
/// so it is handed the prompt for programs exactly where a program is built. A case that others are
/// derived from is their template, and a program is built from it too unless it is a library by its
/// name.
pub proof fn law_what_is_built_is_what_the_case_is(
    input: Seq<char>,
    output: Seq<char>,
    case: battery::CaseView,
    entries: Seq<CaseEntry>,
    there: Seq<Seq<char>>,
)
    requires
        job_of(input, output, case, entries, there) is Ok,
    ensures
        ({
            let job = job_of(input, output, case, entries, there)->Ok_0;
            match case {
                battery::CaseView::Independent { name, is_lib } => {
                    &&& job.artifact is Cdylib <==> is_lib
                    &&& job.artifact is Driver <==> !is_lib
                    &&& job.shape == Shape::Executable <==> job.artifact is Driver
                    &&& job.shape == Shape::Library <==> job.artifact is Cdylib
                    &&& job.name == name
                    &&& job.followers.len() == 0
                },
                battery::CaseView::SharedSource { real_case, configs } => {
                    &&& job.artifact matches chain::ArtifactView::Template {
                        default_features,
                        needs_driver,
                    } && needs_driver == !text::ends(real_case, "_lib"@)
                    &&& job.shape == Shape::Shared
                    &&& job.name == real_case
                    &&& job.followers.len() == configs.len()
                },
            }
        }),
{
}

/// A library is loaded by the name that its runner gives, and by the name of its case where the runner
/// gives none.
pub proof fn law_a_library_is_loaded_by_its_runners_name(
    input: Seq<char>,
    output: Seq<char>,
    name: Seq<char>,
    entries: Seq<CaseEntry>,
    there: Seq<Seq<char>>,
    k: int,
)
    requires
        there.contains(paths::joined(paths::joined(input, name), "test_case"@)),
        0 <= k < entries.len(),
        entries[k].name@ == name,
        forall|j: int| 0 <= j < k ==> (#[trigger] entries[j]).name@ != name,
    ensures
        job_of(
            input,
            output,
            battery::CaseView::Independent { name, is_lib: true },
            entries,
            there,
        ) matches Ok(job) && job.artifact == (chain::ArtifactView::Cdylib {
            lib_name: match battery::library_named(entries[k].runner_main) {
                Some(l) => l,
                None => name,
            },
        }),
{
    lemma_position(entries, name, k);
}

proof fn lemma_position(entries: Seq<CaseEntry>, name: Seq<char>, k: int)
    requires
        0 <= k < entries.len(),
        entries[k].name@ == name,
        forall|j: int| 0 <= j < k ==> (#[trigger] entries[j]).name@ != name,
    ensures
        battery::position(entries, name) == Some(k),
    decreases entries.len(),
{
    let d = entries.drop_last();
    if k < d.len() {
        assert(d[k] == entries[k]);
        assert forall|j: int| 0 <= j < k implies (#[trigger] d[j]).name@ != name by {
            assert(d[j] == entries[j]);
        }
        lemma_position(d, name, k);
    } else {
        assert forall|j: int| 0 <= j < d.len() implies (#[trigger] d[j]).name@ != name by {
            assert(d[j] == entries[j]);
        }
        lemma_no_position(d, name);
    }
}

proof fn lemma_no_position(entries: Seq<CaseEntry>, name: Seq<char>)
    requires
        forall|j: int| 0 <= j < entries.len() ==> (#[trigger] entries[j]).name@ != name,
    ensures
        battery::position(entries, name) is None,
    decreases entries.len(),
{
    if entries.len() > 0 {
        let d = entries.drop_last();
        assert forall|j: int| 0 <= j < d.len() implies (#[trigger] d[j]).name@ != name by {
            assert(d[j] == entries[j]);
        }
        lemma_no_position(d, name);
        assert(entries[entries.len() - 1].name@ != name);
    }
}

/// Every case reads its C from its own directory in the corpus and is published under its own name in
/// the results, its followers too.
pub proof fn law_a_case_reads_and_publishes_under_its_own_name(
    input: Seq<char>,
    output: Seq<char>,
    case: battery::CaseView,
    entries: Seq<CaseEntry>,
    there: Seq<Seq<char>>,
    i: int,
)
    requires
        job_of(input, output, case, entries, there) is Ok,
    ensures
        ({
            let job = job_of(input, output, case, entries, there)->Ok_0;
            &&& job.case_inputs == paths::joined(input, job.name)
            &&& job.corpus == paths::joined(job.case_inputs, "test_case"@)
            &&& job.case_dir == paths::joined(output, job.name)
            &&& 0 <= i < job.followers.len() ==> {
                let f = job.followers[i];
                &&& f.case_inputs == paths::joined(input, f.cfg.name)
                &&& f.corpus == paths::joined(f.case_inputs, "test_case"@)
                &&& f.case_dir == paths::joined(output, f.cfg.name)
                &&& case matches battery::CaseView::SharedSource { real_case, configs }
                &&& f.cfg == configs[i]
            }
        }),
{
}

proof fn lemma_c_is_there(
    input: Seq<char>,
    output: Seq<char>,
    configs: Seq<battery::ConfigView>,
    there: Seq<Seq<char>>,
)
    ensures
        match first_without_c(input, output, configs, there) {
            Some(p) => !there.contains(p) && exists|k: int|
                0 <= k < configs.len() && p == paths::joined(
                    paths::joined(input, (#[trigger] configs[k]).name),
                    "test_case"@,
                ),
            None => forall|k: int|
                0 <= k < configs.len() ==> there.contains(
                    paths::joined(
                        paths::joined(input, (#[trigger] configs[k]).name),
                        "test_case"@,
                    ),
                ),
        },
    decreases configs.len(),
{
    if configs.len() > 0 {
        let d = configs.drop_last();
        lemma_c_is_there(input, output, d, there);
        match first_without_c(input, output, d, there) {
            Some(p) => {
                let k = choose|k: int|
                    0 <= k < d.len() && p == paths::joined(
                        paths::joined(input, (#[trigger] d[k]).name),
                        "test_case"@,
                    );
                assert(configs[k] == d[k]);
            },
            None => {
                assert forall|k: int| 0 <= k < d.len() implies there.contains(
                    paths::joined(
                        paths::joined(input, (#[trigger] configs[k]).name),
                        "test_case"@,
                    ),
                ) by {
                    assert(configs[k] == d[k]);
                }
                assert(configs[configs.len() - 1] == configs.last());
            },
        }
    }
}

/// There is a job only where the C of the case and of each follower is there; a case that is refused
/// for its C names a place where there is none.
pub proof fn law_there_is_no_job_without_its_c(
    input: Seq<char>,
    output: Seq<char>,
    case: battery::CaseView,
    entries: Seq<CaseEntry>,
    there: Seq<Seq<char>>,
    i: int,
)
    ensures
        match job_of(input, output, case, entries, there) {
            Ok(job) => {
                &&& there.contains(job.corpus)
                &&& 0 <= i < job.followers.len() ==> there.contains(job.followers[i].corpus)
            },
            Err(NoJobView::NoCorpus(p)) => !there.contains(p),
            Err(NoJobView::Unreadable) => case is SharedSource,
        },
        case matches battery::CaseView::Independent { name, is_lib } ==> (job_of(
            input,
            output,
            case,
            entries,
            there,
        ) is Ok <==> there.contains(paths::joined(paths::joined(input, name), "test_case"@))),
{
    if let battery::CaseView::SharedSource { real_case, configs } = case {
        lemma_c_is_there(input, output, configs, there);
        if let Ok(job) = job_of(input, output, case, entries, there) {
            if 0 <= i < job.followers.len() {
                assert(job.followers[i] == follower_of(input, output, configs[i]));
            }
        }
    }
}

/// What is said of a unit that may not be published adds up: those that were served and those that
/// were not are its cases.
pub proof fn law_a_shortfall_counts_every_case(dirs: Seq<Seq<char>>, resolved: Set<Seq<char>>)
    requires
        dirs.len() > 0,
    ensures
        ({
            let missing = dirs.filter(|d: Seq<char>| !served(d, resolved)).len();
            let got = dirs.filter(|d: Seq<char>| served(d, resolved)).len();
            &&& got + missing == dirs.len()
            &&& shortfall(dirs, resolved) is None <==> missing == 0
            &&& shortfall(dirs, resolved) matches Some(why) ==> why == "the store serves "@
                + text::numeral(got) + " of its "@ + text::numeral(dirs.len()) + " case(s), "@
                + text::numeral(missing) + " unresolved"@
        }),
{
    lemma_unserved_is_filtered(dirs, resolved);
}

proof fn lemma_unserved_is_filtered(dirs: Seq<Seq<char>>, resolved: Set<Seq<char>>)
    ensures
        unserved(dirs, resolved) == dirs.filter(|d: Seq<char>| !served(d, resolved)).len(),
        unserved(dirs, resolved) + dirs.filter(|d: Seq<char>| served(d, resolved)).len()
            == dirs.len(),
    decreases dirs.len(),
{
    reveal(Seq::filter);
    if dirs.len() > 0 {
        lemma_unserved_is_filtered(dirs.drop_last(), resolved);
    }
}

/// A case is served by what was published in its directory or below it, and by nothing that was
/// published elsewhere.
pub proof fn law_a_case_is_served_from_its_own_directory(dir: Seq<char>, resolved: Set<Seq<char>>)
    ensures
        resolved.contains(dir) ==> served(dir, resolved),
        served(dir, resolved) ==> exists|p: Seq<char>| #[trigger]
            resolved.contains(p) && paths::steps(dir).len() <= paths::steps(p).len() && forall|
                i: int,
            |
                0 <= i < paths::steps(dir).len() ==> #[trigger] paths::steps(p)[i] == paths::steps(
                    dir,
                )[i],
{
    if resolved.contains(dir) {
        assert(paths::steps(dir).subrange(0, paths::steps(dir).len() as int) =~= paths::steps(dir));
        assert(paths::within(dir, dir));
    }
    if served(dir, resolved) {
        let p = choose|p: Seq<char>| #[trigger] resolved.contains(p) && paths::within(p, dir);
        let n = paths::steps(dir).len() as int;
        assert forall|i: int| 0 <= i < n implies #[trigger] paths::steps(p)[i] == paths::steps(
            dir,
        )[i] by {
            assert(paths::steps(p).subrange(0, n)[i] == paths::steps(p)[i]);
        }
    }
}

/// Every unit is published or said to be left out, one or the other.
pub proof fn law_every_unit_is_published_or_left_out(
    units: Seq<(String, Vec<Job>)>,
    resolved: Set<Seq<char>>,
    name: Seq<char>,
)
    ensures
        publishable(units, resolved).len() + left_out(units, resolved).len() == units.len(),
        publishable(units, resolved).contains(name) <==> exists|k: int|
            0 <= k < units.len() && (#[trigger] units[k]).0@ == name && shortfall(
                chain::all_dirs(units[k].1@),
                resolved,
            ) is None,
    decreases units.len(),
{
    let all = publishable(units, resolved);
    if units.len() > 0 {
        let d = units.drop_last();
        let before = publishable(d, resolved);
        law_every_unit_is_published_or_left_out(d, resolved, name);
        if all.contains(name) {
            let i = choose|i: int| 0 <= i < all.len() && all[i] == name;
            if i < before.len() {
                assert(before[i] == name);
                let k = choose|k: int|
                    0 <= k < d.len() && (#[trigger] d[k]).0@ == name && shortfall(
                        chain::all_dirs(d[k].1@),
                        resolved,
                    ) is None;
                assert(units[k] == d[k]);
            } else {
                assert(units[units.len() - 1].0@ == name);
            }
        }
        if exists|k: int|
            0 <= k < units.len() && (#[trigger] units[k]).0@ == name && shortfall(
                chain::all_dirs(units[k].1@),
                resolved,
            ) is None {
            let k = choose|k: int|
                0 <= k < units.len() && (#[trigger] units[k]).0@ == name && shortfall(
                    chain::all_dirs(units[k].1@),
                    resolved,
                ) is None;
            if k < d.len() {
                assert(d[k] == units[k]);
                let i = choose|i: int| 0 <= i < before.len() && before[i] == name;
                assert(all[i] == name);
            } else {
                assert(all[all.len() - 1] == name);
            }
        }
    }
}

/// A run of the test corpus needs its corpus and a new enough `python3`, and nothing else; one of
/// harvest-bench needs its corpus, its runner and a CMake of 3.24 or later.
pub proof fn law_a_run_starts_only_where_all_it_needs_is_there(corpus_dir: Seq<char>, p: Probe)
    ensures
        lacking(Benchmark::TestCorpus, corpus_dir, p) is None <==> p.corpus_is_dir && p.python == Ok::<
            bool,
            String,
        >(true),
        lacking(Benchmark::HarvestBench, corpus_dir, p) is None <==> {
            &&& p.corpus_is_dir
            &&& p.runner is None
            &&& p.cmake matches Ok(t)
            &&& version_in(t@) matches Some(v)
            &&& v.0 > 3 || (v.0 == 3 && v.1 >= 24)
        },
        p.corpus_is_dir && p.runner is Some ==> lacking(Benchmark::HarvestBench, corpus_dir, p)
            == Some(p.runner->0@),
{
}

/// What a run lacks is named: the corpus by the place where it was looked for, and a program by why it
/// was not asked.
pub proof fn law_what_a_run_lacks_is_named(b: Benchmark, corpus_dir: Seq<char>, p: Probe)
    ensures
        !p.corpus_is_dir ==> (lacking(b, corpus_dir, p) matches Some(why) && text::found(
            why,
            corpus_dir,
        )),
        b == Benchmark::TestCorpus && p.corpus_is_dir && p.python is Err ==> (lacking(
            b,
            corpus_dir,
            p,
        ) matches Some(why) && text::found(why, p.python->Err_0@)),
        b == Benchmark::HarvestBench && p.corpus_is_dir && p.runner is None && p.cmake is Err ==> (
        lacking(b, corpus_dir, p) matches Some(why) && text::found(why, p.cmake->Err_0@)),
{
    if !p.corpus_is_dir {
        text::lemma_found_inside(
            "the test-corpus submodule is absent at "@,
            corpus_dir,
            " -- run: git submodule update --init test-corpus"@,
        );
        text::lemma_found_inside(
            "harvest-bench/tests is absent at "@,
            corpus_dir,
            " -- run: git submodule update --init harvest-bench"@,
        );
    } else {
        if let Err(e) = p.python {
            text::lemma_found_inside(
                "python3 is not runnable ("@,
                e@,
                "), and scoring goes through it"@,
            );
        }
        if let Err(e) = p.cmake {
            text::lemma_found_inside(
                "cmake is not runnable ("@,
                e@,
                "), and the gtest suites are configured with it"@,
            );
        }
    }
}

/// A version is read from the first word that begins with a digit, whatever words stand around it: its
/// first number, and its second or nought.
pub proof fn law_a_version_is_the_first_numbered_word(words: Seq<Seq<char>>, k: int)
    requires
        0 <= k < words.len(),
        words[k].len() > 0,
        '0' <= words[k][0] <= '9',
        forall|j: int|
            0 <= j < k ==> (#[trigger] words[j]).len() == 0 || !('0' <= words[j][0] <= '9'),
    ensures
        first_numbered(words) == Some(words[k]),
    decreases words.len(),
{
    let d = words.drop_last();
    if k < d.len() {
        assert(d[k] == words[k]);
        assert forall|j: int| 0 <= j < k implies (#[trigger] d[j]).len() == 0 || !('0' <= d[j][0]
            <= '9') by {
            assert(d[j] == words[j]);
        }
        law_a_version_is_the_first_numbered_word(d, k);
    } else {
        assert forall|j: int| 0 <= j < d.len() implies (#[trigger] d[j]).len() == 0 || !('0'
            <= d[j][0] <= '9') by {
            assert(d[j] == words[j]);
        }
        lemma_no_numbered_word(d);
    }
}

proof fn lemma_no_numbered_word(words: Seq<Seq<char>>)
    requires
        forall|j: int|
            0 <= j < words.len() ==> (#[trigger] words[j]).len() == 0 || !('0' <= words[j][0]
                <= '9'),
    ensures
        first_numbered(words) is None,
    decreases words.len(),
{
    if words.len() > 0 {
        let d = words.drop_last();
        assert forall|j: int| 0 <= j < d.len() implies (#[trigger] d[j]).len() == 0 || !('0'
            <= d[j][0] <= '9') by {
            assert(d[j] == words[j]);
        }
        lemma_no_numbered_word(d);
        assert(words[words.len() - 1] == words.last());
    }
}

/// The numbers of a version are read back from how they are written, and a version without a second
/// number has nought there.
pub proof fn law_a_version_is_read_as_it_is_written(t: Seq<char>, major: u32, minor: u32)
    ensures
        number_of(text::numeral(major as nat)) == Some(major),
        first_numbered(text::words(t)) matches Some(w) && text::split(w, '.').len() > 1
            && text::split(w, '.')[0] == text::numeral(major as nat) && text::split(w, '.')[1]
            == text::numeral(minor as nat) ==> version_in(t) == Some((major, minor)),
        first_numbered(text::words(t)) matches Some(w) && text::split(w, '.').len() == 1
            && text::split(w, '.')[0] == text::numeral(major as nat) ==> version_in(t) == Some(
            (major, 0u32),
        ),
        first_numbered(text::words(t)) is None ==> version_in(t) is None,
{
    lemma_number_of(major);
    lemma_number_of(minor);
}

proof fn lemma_number_of(n: u32)
    ensures
        number_of(text::numeral(n as nat)) == Some(n),
{
    text::lemma_numeral_value(n as nat);
    let s = text::numeral(n as nat);
    assert(s.len() > 0);
    assert(text::is_digit(s[0]));
}

/// Versions are ordered by their first number and then by their second: each is no older than itself,
/// and of two one is no older.
pub proof fn law_versions_are_ordered(a: (u32, u32), b: (u32, u32), c: (u32, u32))
    ensures
        no_older(a, a),
        no_older(a, b) || no_older(b, a),
        no_older(a, b) && no_older(b, a) ==> a == b,
        no_older(a, b) && no_older(b, c) ==> no_older(a, c),
        a.0 > b.0 ==> !no_older(b, a),
        a.0 == b.0 && a.1 > b.1 ==> !no_older(b, a),
{
}

/// A target is a battery, and behind a slash the end of the names of its cases. Without a slash it is a
/// battery whole.
pub proof fn law_a_target_is_a_battery_and_a_case(battery: Seq<char>, case: Seq<char>)
    requires
        !battery.contains('/'),
    ensures
        battery_in(battery + "/"@ + case) == battery,
        case_in(battery + "/"@ + case) == Some(case + "$"@),
        battery_in(battery) == battery,
        case_in(battery) is None,
{
    reveal_strlit("/");
    let t = battery + "/"@ + case;
    let i = battery.len() as int;
    assert(t[i] == '/');
    assert forall|j: int| 0 <= j < i implies t[j] != '/' by {
        assert(t[j] == battery[j]);
    }
    text::lemma_first_place_is(t, '/', i);
    assert(t.subrange(0, i) =~= battery);
    assert(t.subrange(i + 1, t.len() as int) =~= case);
    text::lemma_first_place(battery, '/');
}

/// A target that names all stands for every unit of its dataset, and any other for itself alone. All of
/// harvest-bench is also named by its two letters, in any case.
pub proof fn law_a_target_stands_for_its_units(target: Seq<char>, all: Seq<Seq<char>>)
    ensures
        units_of(Benchmark::TestCorpus, "all"@, all) == all,
        units_of(Benchmark::HarvestBench, "all"@, all) == all,
        text::lowered(target) == "hb"@ ==> units_of(Benchmark::HarvestBench, target, all) == all,
        target != "all"@ && text::lowered(target) != "hb"@ ==> units_of(
            Benchmark::HarvestBench,
            target,
            all,
        ) == seq![target],
        target != "all"@ && !target.contains('/') ==> units_of(Benchmark::TestCorpus, target, all)
            == seq![target],
{
    reveal_strlit("all");
    assert(!"all"@.contains('/')) by {
        assert("all"@[0] != '/' && "all"@[1] != '/' && "all"@[2] != '/');
    }
    text::lemma_first_place("all"@, '/');
    text::lemma_first_place(target, '/');
}

/// A filter is applied or the run is refused: none is dropped. Only the test corpus is filtered, and by
/// one of the two places that can name a filter.
pub proof fn law_no_filter_is_dropped(b: Benchmark, target: Seq<char>, wanted: &str)
    ensures
        unscopable(b, target, None) is None,
        unscopable(b, target, Some(wanted)) is None ==> filter_of(b, target, Some(wanted)) == Some(
            wanted@,
        ),
        unscopable(b, target, Some(wanted)) is None <==> b == Benchmark::TestCorpus
            && !target.contains('/'),
        b == Benchmark::HarvestBench ==> filter_of(b, target, None) is None,
        b == Benchmark::TestCorpus && !target.contains('/') ==> filter_of(b, target, None) is None,
{
    text::lemma_first_place(target, '/');
}

/// Only an unfiltered run of everything may write the tables anew.
pub proof fn law_only_a_whole_run_writes_the_tables(b: Benchmark, inner: Seq<char>)
    ensures
        !covers_all(b, inner, true),
        covers_all(Benchmark::TestCorpus, inner, false) <==> inner == "all"@,
        covers_all(Benchmark::HarvestBench, inner, false) <==> inner == "HB"@,
{
}

/// Refusals are told by their number and each by its name, and where there are none nothing is said.
pub proof fn law_refusals_are_told_by_number_and_name(tool: Seq<char>, refused: Seq<Seq<char>>)
    ensures
        refusals(tool, refused) is None <==> refused.len() == 0,
        refusals(tool, refused) matches Some(line) ==> {
            &&& text::begins(line, tool)
            &&& text::found(line, ": "@ + text::numeral(refused.len()) + " ("@)
            &&& text::ends(line, text::joined(refused, ", "@) + ")"@)
        },
{
    if let Some(line) = refusals(tool, refused) {
        reveal_strlit(" 🚫 provider refusals: ");
        reveal_strlit(" 🚫 provider refusals");
        reveal_strlit(": ");
        assert(" 🚫 provider refusals: "@ =~= " 🚫 provider refusals"@ + ": "@);
        let n = ": "@ + text::numeral(refused.len()) + " ("@;
        let end = text::joined(refused, ", "@) + ")"@;
        assert(line =~= tool + " 🚫 provider refusals"@ + n + end);
        text::lemma_found_inside(tool + " 🚫 provider refusals"@, n, end);
        assert(line.subrange(0, tool.len() as int) =~= tool);
        assert(line.subrange(line.len() - end.len(), line.len() as int) =~= end);
    }
}

/// The root of the repository is the nearest directory that holds both the corpus and the results.
pub proof fn law_the_root_is_the_nearest_that_holds_both(dirs: Seq<Above>)
    ensures
        match root_among(dirs) {
            Some(d) => exists|k: int|
                0 <= k < dirs.len() && (#[trigger] dirs[k]).dir@ == d && dirs[k].corpus
                    && dirs[k].results && forall|j: int|
                    0 <= j < k ==> !((#[trigger] dirs[j]).corpus && dirs[j].results),
            None => forall|j: int|
                0 <= j < dirs.len() ==> !((#[trigger] dirs[j]).corpus && dirs[j].results),
        },
    decreases dirs.len(),
{
    if dirs.len() > 0 {
        let b = dirs.drop_last();
        law_the_root_is_the_nearest_that_holds_both(b);
        match root_among(b) {
            Some(d) => {
                let k = choose|k: int|
                    0 <= k < b.len() && (#[trigger] b[k]).dir@ == d && b[k].corpus && b[k].results
                        && forall|j: int|
                        0 <= j < k ==> !((#[trigger] b[j]).corpus && b[j].results);
                assert(dirs[k] == b[k]);
                assert forall|j: int| 0 <= j < k implies !((#[trigger] dirs[j]).corpus
                    && dirs[j].results) by {
                    assert(dirs[j] == b[j]);
                }
            },
            None => {
                assert forall|j: int| 0 <= j < b.len() implies !((#[trigger] dirs[j]).corpus
                    && dirs[j].results) by {
                    assert(dirs[j] == b[j]);
                }
                assert(dirs[dirs.len() - 1] == dirs.last());
            },
        }
    }
}

/// The units of the test corpus lie below its public tests, and the projects of harvest-bench right in
/// its directory. A project is one case: a library of its own name, without followers.
pub proof fn law_a_project_is_one_library(roots: Roots, project: Seq<char>)
    ensures
        Benchmark::TestCorpus.input_of(roots.corpus_dir@, project) == paths::joined(
            paths::joined(roots.corpus_dir@, "Public-Tests"@),
            project,
        ),
        project_job(roots, project).case_inputs == Benchmark::HarvestBench.input_of(
            roots.corpus_dir@,
            project,
        ),
        project_job(roots, project).case_inputs == paths::joined(roots.corpus_dir@, project),
        project_job(roots, project).corpus == paths::joined(
            project_job(roots, project).case_inputs,
            "test_case"@,
        ),
        project_job(roots, project).case_dir == paths::joined(roots.results_dir@, project),
        project_job(roots, project).name == project,
        project_job(roots, project).shape == Shape::Library,
        project_job(roots, project).artifact == (chain::ArtifactView::Cdylib { lib_name: project }),
        project_job(roots, project).followers.len() == 0,
{
}

/// Every directory is served or counted as not served.
pub proof fn law_a_directory_is_served_or_counted(
    dirs: Seq<Seq<char>>,
    dir: Seq<char>,
    resolved: Set<Seq<char>>,
)
    ensures
        served(dir, resolved) ==> unserved(dirs.push(dir), resolved) == unserved(dirs, resolved),
        !served(dir, resolved) ==> unserved(dirs.push(dir), resolved) == unserved(dirs, resolved)
            + 1,
        unserved(Seq::empty(), resolved) == 0,
{
    assert(dirs.push(dir).drop_last() =~= dirs);
}

/// A refusal names what it is about: the units that nothing serves, both versions of a tool that is too
/// old, what could not be read, both filters, the filter that does not apply, the place without C.
pub proof fn law_a_refusal_names_its_cause(
    units: Seq<(String, Vec<Job>)>,
    found: (u32, u32),
    min: (u32, u32),
    t: Seq<char>,
    f: Seq<char>,
    i: int,
)
    ensures
        unit_names(units).len() == units.len(),
        0 <= i < units.len() ==> unit_names(units)[i] == units[i].0@,
        nothing_to_publish(units) == "the store serves no unit of "@ + text::joined(
            unit_names(units),
            ", "@,
        ) + " in full, so this run can publish nothing"@,
        text::begins(
            too_old(found, min),
            "cmake "@ + text::numeral(found.0 as nat) + "."@ + text::numeral(found.1 as nat)
                + " is too old to configure the harvest-bench gtest suites, which need "@
                + text::numeral(min.0 as nat) + "."@ + text::numeral(min.1 as nat),
        ),
        no_version(t) == "`cmake --version` printed no version this can read: "@
            + text::quoted_form(t),
        text::begins(
            two_filters(t, f),
            "the target names a case ("@ + t + ") and --include-regex was also given ("@ + f,
        ),
        text::begins(useless_filter(f), "--include-regex ("@ + f),
        no_corpus(t) == "no C corpus at "@ + t
            + ": an absent input would otherwise be keyed as a real one"@,
{
    let a = "cmake "@ + text::numeral(found.0 as nat) + "."@ + text::numeral(found.1 as nat)
        + " is too old to configure the harvest-bench gtest suites, which need "@ + text::numeral(
        min.0 as nat,
    ) + "."@ + text::numeral(min.1 as nat);
    assert(too_old(found, min).subrange(0, a.len() as int) =~= a);
    let b = "the target names a case ("@ + t + ") and --include-regex was also given ("@ + f;
    assert(two_filters(t, f).subrange(0, b.len() as int) =~= b);
    let c = "--include-regex ("@ + f;
    assert(useless_filter(f).subrange(0, c.len() as int) =~= c);
}

/// A case has the runner and the presets of the first entry of its name, and none without one.
pub proof fn law_a_case_has_what_its_entry_holds(entries: Seq<CaseEntry>, name: Seq<char>)
    ensures
        battery::position(entries, name) matches Some(i) ==> runner_of(entries, name)
            == entries[i].runner_main && presets_of(entries, name) == maybe_owned(
            entries[i].presets,
        ),
        battery::position(entries, name) is None ==> runner_of(entries, name) is None
            && presets_of(entries, name) is None,
{
}

/// A case reads below its own name in the corpus and publishes below it in the results; so does each
/// other configuration of it.
pub proof fn law_a_case_and_its_followers_have_their_own_places(
    input: Seq<char>,
    output: Seq<char>,
    c: battery::ConfigView,
)
    ensures
        spots(input, output, c.name).0 == paths::joined(input, c.name),
        spots(input, output, c.name).1 == paths::joined(
            paths::joined(input, c.name),
            "test_case"@,
        ),
        spots(input, output, c.name).2 == paths::joined(output, c.name),
        follower_of(input, output, c).cfg == c,
        follower_of(input, output, c).case_inputs == paths::joined(input, c.name),
        follower_of(input, output, c).corpus == paths::joined(
            paths::joined(input, c.name),
            "test_case"@,
        ),
        follower_of(input, output, c).case_dir == paths::joined(output, c.name),
{
}

} // verus!
