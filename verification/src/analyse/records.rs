//! What the results tree and the corpus hold, and the rows that the tables are made of.

use crate::json;
use crate::json::Json;
use crate::paths;
use crate::text;
use vstd::prelude::*;
use vstd::string::*;

verus! {

/// The score of a battery.
#[derive(Debug, Copy, Clone, PartialEq, Eq, Structural)]
pub struct Summary {
    pub cases_passed: u32,
    pub cases_tested: u32,
    pub vectors_passed: u32,
    pub vectors_failed: u32,
}

/// The result of a case, read for its size and its build status only.
#[derive(Debug, Clone)]
pub struct CaseResult {
    /// `build failed` where the crate did not compile; any other value means that it did.
    pub error: Option<String>,
    pub loc: Option<u32>,
    pub unsafe_lines: Option<u32>,
}

/// A case directory of a results tree.
#[derive(Debug, Clone)]
pub struct CaseRecord {
    pub name: String,
    /// The verified phase has a `result.json`.
    pub verified_scored: bool,
    /// That result, where it can be read.
    pub verified: Option<CaseResult>,
    /// The result of the translated phase, where it can be read.
    pub translated: Option<CaseResult>,
    /// The corpus has the case's source behind a link.
    pub follower: bool,
}

/// A battery directory of a results tree.
#[derive(Debug, Clone)]
pub struct BatteryRecord {
    pub name: String,
    pub summary: Option<Summary>,
    /// There is a file `summary_translated.json`.
    pub has_translated_summary: bool,
    /// That summary, where it can be read.
    pub translated_summary: Option<Summary>,
    pub cases: Vec<CaseRecord>,
    /// The corpus has the battery.
    pub corpus_present: bool,
}

/// An agent directory of a results tree.
#[derive(Debug, Clone)]
pub struct AgentRecord {
    pub name: String,
    pub batteries: Vec<BatteryRecord>,
}

/// A file of a C source.
#[derive(Debug, Clone)]
pub struct CFile {
    pub path: String,
    /// The text, where it could be read.
    pub text: Option<String>,
}

/// A case directory of the corpus that has a source.
#[derive(Debug, Clone)]
pub struct CorpusCase {
    /// The source, with every link resolved.
    pub source: String,
    pub files: Vec<CFile>,
}

/// A battery directory of the corpus.
#[derive(Debug, Clone)]
pub struct CorpusBattery {
    pub name: String,
    pub cases: Vec<CorpusCase>,
}

/// A row of the tables.
#[derive(Debug, Clone)]
pub struct BatteryRow {
    pub agent: String,
    pub battery: String,
    pub cases_passed: u32,
    pub cases_tested: u32,
    pub cases_built: u32,
    pub vectors_passed: u32,
    pub vectors_total: u32,
    pub c_loc: u32,
    pub total_loc: u32,
    pub unsafe_lines: u32,
}

/// A row of the tables, mathematically.
pub struct Row {
    pub agent: Seq<char>,
    pub battery: Seq<char>,
    pub cases_passed: nat,
    pub cases_tested: nat,
    pub cases_built: nat,
    pub vectors_passed: nat,
    pub vectors_total: nat,
    pub c_loc: nat,
    pub total_loc: nat,
    pub unsafe_lines: nat,
}

impl View for BatteryRow {
    type V = Row;

    open spec fn view(&self) -> Row {
        Row {
            agent: self.agent@,
            battery: self.battery@,
            cases_passed: self.cases_passed as nat,
            cases_tested: self.cases_tested as nat,
            cases_built: self.cases_built as nat,
            vectors_passed: self.vectors_passed as nat,
            vectors_total: self.vectors_total as nat,
            c_loc: self.c_loc as nat,
            total_loc: self.total_loc as nat,
            unsafe_lines: self.unsafe_lines as nat,
        }
    }
}

/// The views of rows.
pub open spec fn row_views(s: Seq<BatteryRow>) -> Seq<Row> {
    s.map_values(|r: BatteryRow| r@)
}

/// A row pushed is its view pushed.
pub broadcast proof fn lemma_row_views_push(s: Seq<BatteryRow>, t: BatteryRow)
    ensures
        #[trigger] row_views(s.push(t)) == row_views(s).push(t@),
{
    assert(row_views(s.push(t)) =~= row_views(s).push(t@));
}

// ---------------------------------------------------------------------------
// Which result of a case counts
// ---------------------------------------------------------------------------

/// The directory of the verified phase.
pub const VERIFIED: &'static str = "verified";

/// The directory of the translated phase.
pub const TRANSLATED: &'static str = "translated";

/// The directory of a case whose result is the score: that of the verified phase where it has one.
pub open spec fn score_dir(case_dir: Seq<char>, verified_scored: bool) -> Seq<char> {
    paths::joined(
        case_dir,
        if verified_scored {
            VERIFIED@
        } else {
            TRANSLATED@
        },
    )
}

/// The directory of a case whose result is the score.
pub fn archived_score(case_dir: &str, verified_scored: bool) -> (r: String)
    ensures
        r@ == score_dir(case_dir@, verified_scored),
{
    if verified_scored {
        paths::join(case_dir, VERIFIED)
    } else {
        paths::join(case_dir, TRANSLATED)
    }
}

/// The result of a case that counts: that of the translated phase where only it is asked for, else
/// the one that is the score.
pub open spec fn result_of(c: CaseRecord, translated_only: bool) -> Option<CaseResult> {
    if !translated_only && c.verified_scored {
        c.verified
    } else {
        c.translated
    }
}

/// The crate of the result compiled.
pub open spec fn compiled(r: CaseResult) -> bool {
    match r.error {
        Some(e) => e@ != "build failed"@,
        None => true,
    }
}

/// Whether the crate of a result compiled.
pub fn is_compiled(r: &CaseResult) -> (b: bool)
    ensures
        b == compiled(*r),
{
    match &r.error {
        Some(e) => !text::same_text(e.as_str(), "build failed"),
        None => true,
    }
}

fn chosen_result<'a>(c: &'a CaseRecord, translated_only: bool) -> (r: Option<&'a CaseResult>)
    ensures
        r is Some <==> result_of(*c, translated_only) is Some,
        r matches Some(x) ==> result_of(*c, translated_only) == Some(*x),
{
    if !translated_only && c.verified_scored {
        c.verified.as_ref()
    } else {
        c.translated.as_ref()
    }
}

// ---------------------------------------------------------------------------
// The totals of a battery
// ---------------------------------------------------------------------------

/// Three totals over the cases of a battery.
#[derive(Debug, Copy, Clone, PartialEq, Eq, Structural)]
pub struct CaseTotals {
    pub total_loc: u32,
    pub unsafe_lines: u32,
    pub cases_built: u32,
}

/// A number that may be missing.
pub open spec fn or_zero(n: Option<u32>) -> nat {
    match n {
        Some(k) => k as nat,
        None => 0,
    }
}

/// The case compiled.
pub open spec fn built(c: CaseRecord, translated_only: bool) -> nat {
    match result_of(c, translated_only) {
        Some(r) => if compiled(r) {
            1
        } else {
            0
        },
        None => 0,
    }
}

/// The lines of a case. A case that shares its source has none of its own where the corpus says so:
/// one translation is counted once.
pub open spec fn loc(c: CaseRecord, corpus: bool, translated_only: bool) -> nat {
    match result_of(c, translated_only) {
        Some(r) => if corpus && c.follower {
            0
        } else {
            or_zero(r.loc)
        },
        None => 0,
    }
}

/// The unsafe lines of a case, counted as its lines are.
pub open spec fn unsafe_loc(c: CaseRecord, corpus: bool, translated_only: bool) -> nat {
    match result_of(c, translated_only) {
        Some(r) => if corpus && c.follower {
            0
        } else {
            or_zero(r.unsafe_lines)
        },
        None => 0,
    }
}

/// How many cases compiled.
pub open spec fn total_built(cs: Seq<CaseRecord>, translated_only: bool) -> nat
    decreases cs.len(),
{
    if cs.len() == 0 {
        0
    } else {
        total_built(cs.drop_last(), translated_only) + built(cs.last(), translated_only)
    }
}

/// The lines of all cases.
pub open spec fn total_loc(cs: Seq<CaseRecord>, corpus: bool, translated_only: bool) -> nat
    decreases cs.len(),
{
    if cs.len() == 0 {
        0
    } else {
        total_loc(cs.drop_last(), corpus, translated_only) + loc(cs.last(), corpus, translated_only)
    }
}

/// The unsafe lines of all cases.
pub open spec fn total_unsafe(cs: Seq<CaseRecord>, corpus: bool, translated_only: bool) -> nat
    decreases cs.len(),
{
    if cs.len() == 0 {
        0
    } else {
        total_unsafe(cs.drop_last(), corpus, translated_only) + unsafe_loc(
            cs.last(),
            corpus,
            translated_only,
        )
    }
}

/// The totals of a battery fit in 32 bits.
pub open spec fn totals_fit(b: BatteryRecord, translated_only: bool) -> bool {
    &&& total_built(b.cases@, translated_only) <= u32::MAX
    &&& total_loc(b.cases@, b.corpus_present, translated_only) <= u32::MAX
    &&& total_unsafe(b.cases@, b.corpus_present, translated_only) <= u32::MAX
}

proof fn lemma_totals_grow(cs: Seq<CaseRecord>, corpus: bool, translated_only: bool, n: int)
    requires
        0 <= n <= cs.len(),
    ensures
        total_built(cs.subrange(0, n), translated_only) <= total_built(cs, translated_only),
        total_loc(cs.subrange(0, n), corpus, translated_only) <= total_loc(
            cs,
            corpus,
            translated_only,
        ),
        total_unsafe(cs.subrange(0, n), corpus, translated_only) <= total_unsafe(
            cs,
            corpus,
            translated_only,
        ),
    decreases cs.len() - n,
{
    if n == cs.len() {
        assert(cs.subrange(0, n) =~= cs);
    } else {
        assert(cs.subrange(0, n + 1).drop_last() =~= cs.subrange(0, n));
        lemma_totals_grow(cs, corpus, translated_only, n + 1);
    }
}

/// The totals of a battery, by the results that are the scores or by those of the translated phase
/// only.
pub fn aggregate_cases_phase(b: &BatteryRecord, translated_only: bool) -> (r: CaseTotals)
    requires
        totals_fit(*b, translated_only),
    ensures
        r.total_loc == total_loc(b.cases@, b.corpus_present, translated_only),
        r.unsafe_lines == total_unsafe(b.cases@, b.corpus_present, translated_only),
        r.cases_built == total_built(b.cases@, translated_only),
{
    let mut t = CaseTotals { total_loc: 0, unsafe_lines: 0, cases_built: 0 };
    let mut i: usize = 0;
    while i < b.cases.len()
        invariant
            i <= b.cases.len(),
            totals_fit(*b, translated_only),
            t.total_loc == total_loc(
                b.cases@.subrange(0, i as int),
                b.corpus_present,
                translated_only,
            ),
            t.unsafe_lines == total_unsafe(
                b.cases@.subrange(0, i as int),
                b.corpus_present,
                translated_only,
            ),
            t.cases_built == total_built(b.cases@.subrange(0, i as int), translated_only),
        decreases b.cases.len() - i,
    {
        proof {
            assert(b.cases@.subrange(0, i + 1).drop_last() =~= b.cases@.subrange(0, i as int));
            lemma_totals_grow(b.cases@, b.corpus_present, translated_only, i + 1);
        }
        let c = &b.cases[i];
        if let Some(r) = chosen_result(c, translated_only) {
            if is_compiled(r) {
                t.cases_built = t.cases_built + 1;
            }
            if !(b.corpus_present && c.follower) {
                let l: u32 = match r.loc {
                    Some(n) => n,
                    None => 0,
                };
                let u: u32 = match r.unsafe_lines {
                    Some(n) => n,
                    None => 0,
                };
                t.total_loc = t.total_loc + l;
                t.unsafe_lines = t.unsafe_lines + u;
            }
        }
        i = i + 1;
    }
    assert(b.cases@.subrange(0, b.cases.len() as int) =~= b.cases@);
    t
}

/// The totals of a battery by the results that are the scores.
pub fn aggregate_cases(b: &BatteryRecord) -> (r: CaseTotals)
    requires
        totals_fit(*b, false),
    ensures
        r.total_loc == total_loc(b.cases@, b.corpus_present, false),
        r.unsafe_lines == total_unsafe(b.cases@, b.corpus_present, false),
        r.cases_built == total_built(b.cases@, false),
{
    aggregate_cases_phase(b, false)
}

// ---------------------------------------------------------------------------
// Lines of C
// ---------------------------------------------------------------------------

/// The line is neither blank nor the first of a comment.
pub open spec fn is_c_code(line: Seq<char>) -> bool {
    let t = text::trimmed(line);
    t.len() > 0 && !text::begins(t, "//"@) && !text::begins(t, "/*"@)
}

/// How many of the lines are code.
pub open spec fn c_code_lines(lines: Seq<Seq<char>>) -> nat
    decreases lines.len(),
{
    if lines.len() == 0 {
        0
    } else {
        c_code_lines(lines.drop_last()) + if is_c_code(lines.last()) {
            1nat
        } else {
            0nat
        }
    }
}

/// The lines of code of one file.
pub open spec fn c_file_loc(f: CFile) -> nat {
    if paths::extension_in(f.path@) == Some("c"@) || paths::extension_in(f.path@) == Some("h"@) {
        match f.text {
            Some(t) => c_code_lines(text::lines(t@)),
            None => 0,
        }
    } else {
        0
    }
}

/// The lines of code of a source.
pub open spec fn c_dir_loc(files: Seq<CFile>) -> nat
    decreases files.len(),
{
    if files.len() == 0 {
        0
    } else {
        c_dir_loc(files.drop_last()) + c_file_loc(files.last())
    }
}

/// How many lines of a C text are code.
pub fn count_c_lines(t: &str) -> (r: usize)
    ensures
        r == c_code_lines(text::lines(t@)),
{
    let lines = text::lines_of(&text::chars_of(t));
    let line_comment = text::chars_of("//");
    let block_comment = text::chars_of("/*");
    let ghost all = text::lines(t@);
    let mut n: usize = 0;
    let mut i: usize = 0;
    while i < lines.len()
        invariant
            i <= lines.len(),
            n <= i,
            line_comment@ == "//"@,
            block_comment@ == "/*"@,
            all == text::char_views(lines@),
            n == c_code_lines(all.subrange(0, i as int)),
        decreases lines.len() - i,
    {
        assert(all.subrange(0, i + 1).drop_last() =~= all.subrange(0, i as int));
        assert(all.subrange(0, i + 1).last() == lines@[i as int]@);
        let t = text::trim(&lines[i]);
        if t.len() > 0 && !text::starts_with(&t, &line_comment) && !text::starts_with(
            &t,
            &block_comment,
        ) {
            n = n + 1;
        }
        i = i + 1;
    }
    assert(all.subrange(0, lines.len() as int) =~= all);
    n
}

proof fn lemma_c_dir_grows(files: Seq<CFile>, n: int)
    requires
        0 <= n <= files.len(),
    ensures
        c_dir_loc(files.subrange(0, n)) <= c_dir_loc(files),
    decreases files.len() - n,
{
    if n == files.len() {
        assert(files.subrange(0, n) =~= files);
    } else {
        assert(files.subrange(0, n + 1).drop_last() =~= files.subrange(0, n));
        lemma_c_dir_grows(files, n + 1);
    }
}

/// The lines of code of a source.
pub fn count_c_loc_dir(files: &[CFile]) -> (r: u32)
    requires
        c_dir_loc(files@) <= u32::MAX,
    ensures
        r == c_dir_loc(files@),
{
    let mut total: u32 = 0;
    let mut i: usize = 0;
    while i < files.len()
        invariant
            i <= files.len(),
            c_dir_loc(files@) <= u32::MAX,
            total == c_dir_loc(files@.subrange(0, i as int)),
        decreases files.len() - i,
    {
        proof {
            assert(files@.subrange(0, i + 1).drop_last() =~= files@.subrange(0, i as int));
            lemma_c_dir_grows(files@, i + 1);
        }
        let path = files[i].path.as_str();
        if paths::has_extension(path, "c") || paths::has_extension(path, "h") {
            if let Some(t) = &files[i].text {
                let n: usize = count_c_lines(t.as_str());
                total = total + n as u32;
            }
        }
        i = i + 1;
    }
    assert(files@.subrange(0, files.len() as int) =~= files@);
    total
}

/// The sources of cases.
pub open spec fn sources(cs: Seq<CorpusCase>) -> Seq<Seq<char>> {
    cs.map_values(|c: CorpusCase| c.source@)
}

/// The lines of each distinct source, in the order of the first case that has it.
pub open spec fn distinct_locs(cs: Seq<CorpusCase>) -> Seq<nat>
    decreases cs.len(),
{
    if cs.len() == 0 {
        Seq::empty()
    } else if sources(cs.drop_last()).contains(cs.last().source@) {
        distinct_locs(cs.drop_last())
    } else {
        distinct_locs(cs.drop_last()).push(c_dir_loc(cs.last().files@))
    }
}

/// The sum.
pub open spec fn sum(s: Seq<nat>) -> nat
    decreases s.len(),
{
    if s.len() == 0 {
        0
    } else {
        sum(s.drop_last()) + s.last()
    }
}

/// The lines of each source fit in 32 bits.
pub open spec fn sources_fit(cs: Seq<CorpusCase>) -> bool {
    forall|i: int| 0 <= i < cs.len() ==> c_dir_loc((#[trigger] cs[i]).files@) <= u32::MAX
}

/// The numbers as mathematical ones.
pub open spec fn nats(v: Seq<u32>) -> Seq<nat> {
    v.map_values(|n: u32| n as nat)
}

fn source_seen(cs: &[CorpusCase], before: usize, source: &str) -> (r: bool)
    requires
        before <= cs.len(),
    ensures
        r == sources(cs@.subrange(0, before as int)).contains(source@),
{
    let ghost s = sources(cs@.subrange(0, before as int));
    let mut i: usize = 0;
    while i < before
        invariant
            i <= before <= cs.len(),
            s == sources(cs@.subrange(0, before as int)),
            forall|j: int| 0 <= j < i ==> s[j] != source@,
        decreases before - i,
    {
        assert(s[i as int] == cs@[i as int].source@);
        if text::same_text(cs[i].source.as_str(), source) {
            return true;
        }
        i = i + 1;
    }
    false
}

/// The lines of each distinct source of a battery: cases behind links to one source count once.
pub fn tractor_battery_c_locs(cs: &[CorpusCase]) -> (r: Vec<u32>)
    requires
        sources_fit(cs@),
    ensures
        nats(r@) == distinct_locs(cs@),
{
    let mut out: Vec<u32> = Vec::new();
    let mut i: usize = 0;
    assert(nats(out@) =~= distinct_locs(cs@.subrange(0, 0)));
    while i < cs.len()
        invariant
            i <= cs.len(),
            sources_fit(cs@),
            nats(out@) == distinct_locs(cs@.subrange(0, i as int)),
        decreases cs.len() - i,
    {
        let ghost before = out@;
        assert(cs@.subrange(0, i + 1).drop_last() =~= cs@.subrange(0, i as int));
        assert(c_dir_loc(cs@[i as int].files@) <= u32::MAX);
        if !source_seen(cs, i, cs[i].source.as_str()) {
            let n: u32 = count_c_loc_dir(cs[i].files.as_slice());
            out.push(n);
            assert(nats(out@) =~= nats(before).push(n as nat));
        }
        i = i + 1;
    }
    assert(cs@.subrange(0, cs.len() as int) =~= cs@);
    out
}

/// The battery of the corpus with a name.
pub open spec fn corpus_cases(corpus: Seq<CorpusBattery>, name: Seq<char>) -> Seq<CorpusCase>
    decreases corpus.len(),
{
    if corpus.len() == 0 {
        Seq::empty()
    } else if corpus.last().name@ == name {
        corpus.last().cases@
    } else {
        corpus_cases(corpus.drop_last(), name)
    }
}

/// The corpus has a battery with a name.
pub open spec fn has_battery(corpus: Seq<CorpusBattery>, name: Seq<char>) -> bool {
    exists|i: int| 0 <= i < corpus.len() && (#[trigger] corpus[i]).name@ == name
}

/// The battery of the corpus with a name.
pub fn find_battery<'a>(corpus: &'a [CorpusBattery], name: &str) -> (r: Option<&'a CorpusBattery>)
    ensures
        r is Some <==> has_battery(corpus@, name@),
        r matches Some(b) ==> b.cases@ == corpus_cases(corpus@, name@) && b.name@ == name@,
        r is None ==> corpus_cases(corpus@, name@) == Seq::<CorpusCase>::empty(),
{
    let mut i: usize = corpus.len();
    assert(corpus@.subrange(0, i as int) =~= corpus@);
    while i > 0
        invariant
            i <= corpus.len(),
            corpus_cases(corpus@, name@) == corpus_cases(corpus@.subrange(0, i as int), name@),
            forall|j: int| i <= j < corpus.len() ==> (#[trigger] corpus@[j]).name@ != name@,
        decreases i,
    {
        assert(corpus@.subrange(0, i as int).drop_last() =~= corpus@.subrange(0, i - 1));
        if text::same_text(corpus[i - 1].name.as_str(), name) {
            assert(corpus@[i - 1].name@ == name@);
            return Some(&corpus[i - 1]);
        }
        i = i - 1;
    }
    None
}

/// Every source of the corpus, and the sources of each battery together, fit in 32 bits.
pub open spec fn corpus_fits(corpus: Seq<CorpusBattery>) -> bool {
    forall|name: Seq<char>|
        {
            &&& sources_fit(#[trigger] corpus_cases(corpus, name))
            &&& sum(distinct_locs(corpus_cases(corpus, name))) <= u32::MAX
        }
}

proof fn lemma_sum_grows(s: Seq<nat>, n: int)
    requires
        0 <= n <= s.len(),
    ensures
        sum(s.subrange(0, n)) <= sum(s),
    decreases s.len() - n,
{
    if n == s.len() {
        assert(s.subrange(0, n) =~= s);
    } else {
        assert(s.subrange(0, n + 1).drop_last() =~= s.subrange(0, n));
        lemma_sum_grows(s, n + 1);
    }
}

/// The sum.
pub fn add_up(v: &[u32]) -> (r: u32)
    requires
        sum(nats(v@)) <= u32::MAX,
    ensures
        r == sum(nats(v@)),
{
    let ghost all = nats(v@);
    let mut total: u32 = 0;
    let mut i: usize = 0;
    while i < v.len()
        invariant
            i <= v.len(),
            all == nats(v@),
            sum(all) <= u32::MAX,
            total == sum(all.subrange(0, i as int)),
        decreases v.len() - i,
    {
        proof {
            assert(all.subrange(0, i + 1).drop_last() =~= all.subrange(0, i as int));
            assert(all.subrange(0, i + 1).last() == v@[i as int]);
            lemma_sum_grows(all, i + 1);
        }
        total = total + v[i];
        i = i + 1;
    }
    assert(all.subrange(0, v.len() as int) =~= all);
    total
}

/// The lines of C of a battery.
pub fn count_c_loc_battery(corpus: &[CorpusBattery], battery: &str) -> (r: u32)
    requires
        corpus_fits(corpus@),
    ensures
        r == sum(distinct_locs(corpus_cases(corpus@, battery@))),
{
    assert(sources_fit(corpus_cases(corpus@, battery@)));
    match find_battery(corpus, battery) {
        Some(b) => {
            let locs = tractor_battery_c_locs(b.cases.as_slice());
            add_up(locs.as_slice())
        },
        None => 0,
    }
}

// ---------------------------------------------------------------------------
// Rows
// ---------------------------------------------------------------------------

/// The row of a battery by one of its summaries.
pub open spec fn row_of(
    agent: Seq<char>,
    b: BatteryRecord,
    s: Summary,
    translated_only: bool,
    c_loc: nat,
) -> Row {
    Row {
        agent,
        battery: b.name@,
        cases_passed: s.cases_passed as nat,
        cases_tested: s.cases_tested as nat,
        cases_built: total_built(b.cases@, translated_only),
        vectors_passed: s.vectors_passed as nat,
        vectors_total: (s.vectors_passed + s.vectors_failed) as nat,
        c_loc,
        total_loc: total_loc(b.cases@, b.corpus_present, translated_only),
        unsafe_lines: total_unsafe(b.cases@, b.corpus_present, translated_only),
    }
}

/// The rows of a battery: that of its score, and for kiro a second one of what stood before the
/// verification, under a name of its own.
pub open spec fn rows_of_battery(
    agent: Seq<char>,
    b: BatteryRecord,
    corpus: Seq<CorpusBattery>,
) -> Seq<Row> {
    let c_loc = sum(distinct_locs(corpus_cases(corpus, b.name@)));
    match b.summary {
        None => Seq::empty(),
        Some(s) => {
            let first = seq![row_of(agent, b, s, false, c_loc)];
            if agent == "kiro"@ {
                match b.translated_summary {
                    Some(t) => first.push(row_of("kiro-translate"@, b, t, true, c_loc)),
                    None => first,
                }
            } else {
                first
            }
        },
    }
}

/// The rows of an agent.
pub open spec fn rows_of_agent(
    agent: Seq<char>,
    bs: Seq<BatteryRecord>,
    corpus: Seq<CorpusBattery>,
) -> Seq<Row>
    decreases bs.len(),
{
    if bs.len() == 0 {
        Seq::empty()
    } else {
        rows_of_agent(agent, bs.drop_last(), corpus) + rows_of_battery(agent, bs.last(), corpus)
    }
}

/// The rows of all agents.
pub open spec fn rows_of_all(agents: Seq<AgentRecord>, corpus: Seq<CorpusBattery>) -> Seq<Row>
    decreases agents.len(),
{
    if agents.len() == 0 {
        Seq::empty()
    } else {
        rows_of_all(agents.drop_last(), corpus) + rows_of_agent(
            agents.last().name@,
            agents.last().batteries@,
            corpus,
        )
    }
}

/// The numbers of a summary fit together.
pub open spec fn summary_fits(s: Option<Summary>) -> bool {
    s matches Some(x) ==> x.vectors_passed + x.vectors_failed <= u32::MAX
}

/// Every total of a battery fits in 32 bits.
pub open spec fn battery_fits(b: BatteryRecord) -> bool {
    &&& totals_fit(b, false)
    &&& totals_fit(b, true)
    &&& summary_fits(b.summary)
    &&& summary_fits(b.translated_summary)
}

/// Every total of every battery fits in 32 bits.
pub open spec fn agents_fit(agents: Seq<AgentRecord>) -> bool {
    forall|i: int, j: int|
        0 <= i < agents.len() && 0 <= j < agents[i].batteries@.len() ==> battery_fits(
            #[trigger] agents[i].batteries@[j],
        )
}

fn make_row(
    agent: &str,
    b: &BatteryRecord,
    s: Summary,
    translated_only: bool,
    c_loc: u32,
) -> (r: BatteryRow)
    requires
        totals_fit(*b, translated_only),
        s.vectors_passed + s.vectors_failed <= u32::MAX,
    ensures
        r@ == row_of(agent@, *b, s, translated_only, c_loc as nat),
{
    let t = aggregate_cases_phase(b, translated_only);
    BatteryRow {
        agent: text::copy(agent),
        battery: text::copy(b.name.as_str()),
        cases_passed: s.cases_passed,
        cases_tested: s.cases_tested,
        cases_built: t.cases_built,
        vectors_passed: s.vectors_passed,
        vectors_total: s.vectors_passed + s.vectors_failed,
        c_loc,
        total_loc: t.total_loc,
        unsafe_lines: t.unsafe_lines,
    }
}

fn push_battery(out: &mut Vec<BatteryRow>, agent: &str, b: &BatteryRecord, corpus: &[CorpusBattery])
    requires
        battery_fits(*b),
        corpus_fits(corpus@),
    ensures
        row_views(final(out)@) == row_views(old(out)@) + rows_of_battery(agent@, *b, corpus@),
{
    broadcast use lemma_row_views_push;

    let ghost before = row_views(out@);
    if let Some(s) = b.summary {
        let c_loc: u32 = count_c_loc_battery(corpus, b.name.as_str());
        let row = make_row(agent, b, s, false, c_loc);
        let ghost first = row@;
        out.push(row);
        if text::same_text(agent, "kiro") {
            if let Some(t) = b.translated_summary {
                let row = make_row("kiro-translate", b, t, true, c_loc);
                let ghost second = row@;
                out.push(row);
                assert(row_views(out@) =~= before + seq![first].push(second));
                return;
            }
        }
        assert(row_views(out@) =~= before + seq![first]);
    } else {
        assert(before =~= before + Seq::<Row>::empty());
    }
}

/// The rows that the tables are made of.
pub fn collect_rows(agents: &[AgentRecord], corpus: &[CorpusBattery]) -> (r: Vec<BatteryRow>)
    requires
        agents_fit(agents@),
        corpus_fits(corpus@),
    ensures
        row_views(r@) == rows_of_all(agents@, corpus@),
{
    let mut out: Vec<BatteryRow> = Vec::new();
    let mut i: usize = 0;
    assert(row_views(out@) =~= rows_of_all(agents@.subrange(0, 0), corpus@));
    while i < agents.len()
        invariant
            i <= agents.len(),
            agents_fit(agents@),
            corpus_fits(corpus@),
            row_views(out@) == rows_of_all(agents@.subrange(0, i as int), corpus@),
        decreases agents.len() - i,
    {
        let ghost before = row_views(out@);
        assert(agents@.subrange(0, i + 1).drop_last() =~= agents@.subrange(0, i as int));
        let a = &agents[i];
        let ghost bs = a.batteries@;
        let mut j: usize = 0;
        assert(row_views(out@) =~= before + rows_of_agent(a.name@, bs.subrange(0, 0), corpus@));
        while j < a.batteries.len()
            invariant
                i < agents.len(),
                *a == agents@[i as int],
                j <= a.batteries.len(),
                bs == a.batteries@,
                agents_fit(agents@),
                corpus_fits(corpus@),
                row_views(out@) == before + rows_of_agent(
                    a.name@,
                    bs.subrange(0, j as int),
                    corpus@,
                ),
            decreases a.batteries.len() - j,
        {
            assert(bs.subrange(0, j + 1).drop_last() =~= bs.subrange(0, j as int));
            assert(battery_fits(agents@[i as int].batteries@[j as int]));
            push_battery(&mut out, a.name.as_str(), &a.batteries[j], corpus);
            j = j + 1;
            assert(row_views(out@) =~= before + rows_of_agent(
                a.name@,
                bs.subrange(0, j as int),
                corpus@,
            ));
        }
        assert(bs.subrange(0, a.batteries.len() as int) =~= bs);
        i = i + 1;
    }
    assert(agents@.subrange(0, agents.len() as int) =~= agents@);
    out
}

// ---------------------------------------------------------------------------
// Builds compared
// ---------------------------------------------------------------------------

/// Which cases compiled, by battery and case.
pub open spec fn builds_of_battery(b: Seq<char>, cs: Seq<CaseRecord>) -> Seq<(Seq<char>, bool)>
    decreases cs.len(),
{
    if cs.len() == 0 {
        Seq::empty()
    } else {
        let before = builds_of_battery(b, cs.drop_last());
        match result_of(cs.last(), false) {
            Some(r) => before.push((b + "/"@ + cs.last().name@, compiled(r))),
            None => before,
        }
    }
}

/// Which cases of an agent compiled.
pub open spec fn builds_of(bs: Seq<BatteryRecord>) -> Seq<(Seq<char>, bool)>
    decreases bs.len(),
{
    if bs.len() == 0 {
        Seq::empty()
    } else {
        builds_of(bs.drop_last()) + builds_of_battery(bs.last().name@, bs.last().cases@)
    }
}

/// The pairs as mathematical ones.
pub open spec fn pair_views(v: Seq<(String, bool)>) -> Seq<(Seq<char>, bool)> {
    v.map_values(|p: (String, bool)| (p.0@, p.1))
}

/// Which cases of an agent compiled, by battery and case.
pub fn case_builds(bs: &[BatteryRecord]) -> (r: Vec<(String, bool)>)
    ensures
        pair_views(r@) == builds_of(bs@),
{
    let mut out: Vec<(String, bool)> = Vec::new();
    let mut i: usize = 0;
    assert(pair_views(out@) =~= builds_of(bs@.subrange(0, 0)));
    while i < bs.len()
        invariant
            i <= bs.len(),
            pair_views(out@) == builds_of(bs@.subrange(0, i as int)),
        decreases bs.len() - i,
    {
        let ghost before = pair_views(out@);
        assert(bs@.subrange(0, i + 1).drop_last() =~= bs@.subrange(0, i as int));
        let b = &bs[i];
        let ghost cs = b.cases@;
        let mut j: usize = 0;
        assert(pair_views(out@) =~= before + builds_of_battery(b.name@, cs.subrange(0, 0)));
        while j < b.cases.len()
            invariant
                j <= b.cases.len(),
                cs == b.cases@,
                pair_views(out@) == before + builds_of_battery(b.name@, cs.subrange(0, j as int)),
            decreases b.cases.len() - j,
        {
            let ghost now = pair_views(out@);
            assert(cs.subrange(0, j + 1).drop_last() =~= cs.subrange(0, j as int));
            if let Some(r) = chosen_result(&b.cases[j], false) {
                let key = text::join3(b.name.as_str(), "/", b.cases[j].name.as_str());
                let ok = is_compiled(r);
                let ghost k = key@;
                out.push((key, ok));
                assert(pair_views(out@) =~= now.push((k, ok)));
            }
            j = j + 1;
            assert(pair_views(out@) =~= before + builds_of_battery(
                b.name@,
                cs.subrange(0, j as int),
            ));
        }
        assert(cs.subrange(0, b.cases.len() as int) =~= cs);
        i = i + 1;
    }
    assert(bs@.subrange(0, bs.len() as int) =~= bs@);
    out
}

/// What is said last of a case.
pub open spec fn said_of(s: Seq<(Seq<char>, bool)>, case: Seq<char>) -> Option<bool>
    decreases s.len(),
{
    if s.len() == 0 {
        None
    } else if s.last().0 == case {
        Some(s.last().1)
    } else {
        said_of(s.drop_last(), case)
    }
}

/// How many cases of `one` compiled as `was` says and compile as `is` says in `other`.
pub open spec fn changed(
    one: Seq<(Seq<char>, bool)>,
    other: Seq<(Seq<char>, bool)>,
    was: bool,
    now: bool,
) -> nat
    decreases one.len(),
{
    if one.len() == 0 {
        0
    } else {
        changed(one.drop_last(), other, was, now) + if one.last().1 == was && said_of(
            other,
            one.last().0,
        ) == Some(now) {
            1nat
        } else {
            0nat
        }
    }
}

/// What Laertes does to the builds of C2Rust, by direction.
#[derive(Debug, Copy, Clone, PartialEq, Eq, Structural)]
pub struct LaertesDelta {
    /// Builds that C2Rust had and Laertes breaks.
    pub broke: usize,
    /// Builds that C2Rust had not and Laertes has.
    pub fixed: usize,
}

fn look_up(s: &[(String, bool)], case: &str) -> (r: Option<bool>)
    ensures
        r == said_of(pair_views(s@), case@),
{
    let ghost all = pair_views(s@);
    let mut i: usize = s.len();
    assert(all.subrange(0, i as int) =~= all);
    while i > 0
        invariant
            i <= s.len(),
            all == pair_views(s@),
            said_of(all, case@) == said_of(all.subrange(0, i as int), case@),
        decreases i,
    {
        assert(all.subrange(0, i as int).drop_last() =~= all.subrange(0, i - 1));
        assert(all.subrange(0, i as int).last() == (s@[i - 1].0@, s@[i - 1].1));
        if text::same_text(s[i - 1].0.as_str(), case) {
            return Some(s[i - 1].1);
        }
        i = i - 1;
    }
    None
}

/// What Laertes does to the builds of C2Rust.
pub fn laertes_vs_c2rust(c2rust: &[(String, bool)], laertes: &[(String, bool)]) -> (r: LaertesDelta)
    ensures
        r.broke == changed(pair_views(c2rust@), pair_views(laertes@), true, false),
        r.fixed == changed(pair_views(c2rust@), pair_views(laertes@), false, true),
{
    let ghost all = pair_views(c2rust@);
    let ghost other = pair_views(laertes@);
    let mut d = LaertesDelta { broke: 0, fixed: 0 };
    let mut i: usize = 0;
    while i < c2rust.len()
        invariant
            i <= c2rust.len(),
            all == pair_views(c2rust@),
            other == pair_views(laertes@),
            d.broke <= i,
            d.fixed <= i,
            d.broke == changed(all.subrange(0, i as int), other, true, false),
            d.fixed == changed(all.subrange(0, i as int), other, false, true),
        decreases c2rust.len() - i,
    {
        assert(all.subrange(0, i + 1).drop_last() =~= all.subrange(0, i as int));
        assert(all.subrange(0, i + 1).last() == (c2rust@[i as int].0@, c2rust@[i as int].1));
        if let Some(ok) = look_up(laertes, c2rust[i].0.as_str()) {
            if c2rust[i].1 && !ok {
                d.broke = d.broke + 1;
            }
            if !c2rust[i].1 && ok {
                d.fixed = d.fixed + 1;
            }
        }
        i = i + 1;
    }
    assert(all.subrange(0, c2rust.len() as int) =~= all);
    d
}

// ---------------------------------------------------------------------------
// What runs cost
// ---------------------------------------------------------------------------

/// A directory below the results of an agent, with whether a translation stands in it.
#[derive(Debug)]
pub struct Below {
    pub dir: String,
    pub translated: bool,
}

/// A directory above this one holds a translation: then this one is part of a case.
pub open spec fn inside_a_case(dirs: Seq<Below>, dir: Seq<char>) -> bool {
    exists|i: int|
        0 <= i < dirs.len() && (#[trigger] dirs[i]).translated && dirs[i].dir@ != dir
            && paths::within(dir, dirs[i].dir@)
}

/// The directories of cases: those that hold a translation and are no part of another. The phases of
/// a case each have a record, so reading those too would count a translation twice.
pub open spec fn costed(dirs: Seq<Below>, first: Seq<Below>) -> Seq<Seq<char>>
    decreases first.len(),
{
    if first.len() == 0 {
        Seq::empty()
    } else {
        let before = costed(dirs, first.drop_last());
        if first.last().translated && !inside_a_case(dirs, first.last().dir@) {
            before.push(first.last().dir@)
        } else {
            before
        }
    }
}

fn is_inside_a_case(dirs: &[Below], dir: &str) -> (r: bool)
    ensures
        r == inside_a_case(dirs@, dir@),
{
    let mut i: usize = 0;
    while i < dirs.len()
        invariant
            i <= dirs.len(),
            forall|k: int|
                0 <= k < i ==> !((#[trigger] dirs@[k]).translated && dirs@[k].dir@ != dir@
                    && paths::within(dir@, dirs@[k].dir@)),
        decreases dirs.len() - i,
    {
        let d = &dirs[i];
        if d.translated && !text::same_text(d.dir.as_str(), dir) && paths::is_within(
            dir,
            d.dir.as_str(),
        ) {
            return true;
        }
        i = i + 1;
    }
    false
}

/// The directories of cases whose costs are added up, among all that stand below an agent's results.
pub fn cost_cases(dirs: &[Below]) -> (r: Vec<String>)
    ensures
        text::views(r@) == costed(dirs@, dirs@),
{
    let mut out: Vec<String> = Vec::new();
    let mut i: usize = 0;
    assert(text::views(out@) =~= costed(dirs@, dirs@.subrange(0, 0)));
    while i < dirs.len()
        invariant
            i <= dirs.len(),
            text::views(out@) == costed(dirs@, dirs@.subrange(0, i as int)),
        decreases dirs.len() - i,
    {
        broadcast use text::lemma_views_push;

        assert(dirs@.subrange(0, i + 1).drop_last() =~= dirs@.subrange(0, i as int));
        assert(dirs@.subrange(0, i + 1).last() == dirs@[i as int]);
        if dirs[i].translated && !is_inside_a_case(dirs, dirs[i].dir.as_str()) {
            out.push(text::copy(dirs[i].dir.as_str()));
        }
        i = i + 1;
    }
    assert(dirs@.subrange(0, dirs.len() as int) =~= dirs@);
    out
}

/// The seconds that a phase took, by the record of a case.
pub open spec fn seconds_in(record: json::JsonView, phase: Seq<char>) -> nat {
    match json::member(record, phase) {
        Some(p) => match json::number_in(json::member(p, "wall_secs"@)) {
            Some(n) => n as nat,
            None => 0,
        },
        None => 0,
    }
}

/// The seconds that cases took, both phases of each.
pub open spec fn seconds_of(records: Seq<Json>) -> nat
    decreases records.len(),
{
    if records.len() == 0 {
        0
    } else {
        seconds_of(records.drop_last()) + seconds_in(records.last()@, "translate"@) + seconds_in(
            records.last()@,
            "verify"@,
        )
    }
}

fn read_seconds(record: &Json, phase: &str) -> (r: u64)
    ensures
        r == seconds_in(record@, phase@),
{
    match record.get(phase) {
        Some(p) => match p.get("wall_secs") {
            Some(v) => match v.as_u64() {
                Some(n) => n,
                None => 0,
            },
            None => 0,
        },
        None => 0,
    }
}

proof fn lemma_seconds_grow(records: Seq<Json>, n: int)
    requires
        0 <= n <= records.len(),
    ensures
        seconds_of(records.subrange(0, n)) <= seconds_of(records),
    decreases records.len() - n,
{
    if n == records.len() {
        assert(records.subrange(0, n) =~= records);
    } else {
        lemma_seconds_grow(records, n + 1);
        assert(records.subrange(0, n + 1).drop_last() =~= records.subrange(0, n));
    }
}

/// The seconds that cases took, both phases of each.
pub fn wall_seconds(records: &[Json]) -> (r: u64)
    requires
        seconds_of(records@) <= u64::MAX,
    ensures
        r == seconds_of(records@),
{
    let mut total: u64 = 0;
    let mut i: usize = 0;
    while i < records.len()
        invariant
            i <= records.len(),
            seconds_of(records@) <= u64::MAX,
            total == seconds_of(records@.subrange(0, i as int)),
        decreases records.len() - i,
    {
        assert(records@.subrange(0, i + 1).drop_last() =~= records@.subrange(0, i as int));
        assert(records@.subrange(0, i + 1).last() == records@[i as int]);
        proof {
            lemma_seconds_grow(records@, i + 1);
        }
        total = total + read_seconds(&records[i], "translate");
        total = total + read_seconds(&records[i], "verify");
        i = i + 1;
    }
    assert(records@.subrange(0, records.len() as int) =~= records@);
    total
}

// ---------------------------------------------------------------------------
// Laws
// ---------------------------------------------------------------------------

/// The score of a case is that of its verified phase wherever that was scored, and otherwise that of its
/// translation; a look at translations alone never reads the verified phase.
pub proof fn law_a_verified_score_counts_before_a_translated_one(case_dir: Seq<char>, c: CaseRecord)
    ensures
        score_dir(case_dir, true) == paths::joined(case_dir, "verified"@),
        score_dir(case_dir, false) == paths::joined(case_dir, "translated"@),
        c.verified_scored ==> result_of(c, false) == c.verified,
        !c.verified_scored ==> result_of(c, false) == c.translated,
        result_of(c, true) == c.translated,
{
}

/// A crate compiled unless its error is that its build failed: any other error came after.
pub proof fn law_only_a_failed_build_did_not_compile(r: CaseResult, c: CaseRecord, only: bool)
    ensures
        !compiled(r) <==> r.error is Some && r.error->0@ == "build failed"@,
        built(c, only) <= 1,
        built(c, only) == 1 <==> result_of(c, only) is Some && compiled(result_of(c, only)->0),
{
}

/// A case whose source is shared adds to the builds but not to the lines: they are those of the case
/// that it follows. Every other case adds its own.
pub proof fn law_a_follower_adds_no_lines(
    cs: Seq<CaseRecord>,
    c: CaseRecord,
    corpus: bool,
    only: bool,
)
    ensures
        corpus && c.follower ==> {
            &&& total_loc(cs.push(c), corpus, only) == total_loc(cs, corpus, only)
            &&& total_unsafe(cs.push(c), corpus, only) == total_unsafe(cs, corpus, only)
        },
        !(corpus && c.follower) && result_of(c, only) is Some ==> {
            let r = result_of(c, only)->0;
            &&& r.loc is Some ==> total_loc(cs.push(c), corpus, only) == total_loc(cs, corpus, only)
                + r.loc->0
            &&& r.unsafe_lines is Some ==> total_unsafe(cs.push(c), corpus, only) == total_unsafe(
                cs,
                corpus,
                only,
            ) + r.unsafe_lines->0
            &&& r.loc is None ==> total_loc(cs.push(c), corpus, only) == total_loc(cs, corpus, only)
            &&& r.unsafe_lines is None ==> total_unsafe(cs.push(c), corpus, only) == total_unsafe(
                cs,
                corpus,
                only,
            )
        },
        result_of(c, only) is None ==> {
            &&& total_loc(cs.push(c), corpus, only) == total_loc(cs, corpus, only)
            &&& total_unsafe(cs.push(c), corpus, only) == total_unsafe(cs, corpus, only)
            &&& total_built(cs.push(c), only) == total_built(cs, only)
        },
        total_built(cs.push(c), only) == total_built(cs, only) + if result_of(c, only) is Some
            && compiled(result_of(c, only)->0) {
            1nat
        } else {
            0nat
        },
        total_loc(Seq::empty(), corpus, only) == 0,
        total_unsafe(Seq::empty(), corpus, only) == 0,
        total_built(Seq::empty(), only) == 0,
{
    assert(cs.push(c).drop_last() =~= cs);
}

/// A line of C is code unless it is blank or begins with a comment; only sources and headers count.
pub proof fn law_c_code_is_neither_blank_nor_a_comment(
    lines: Seq<Seq<char>>,
    line: Seq<char>,
    files: Seq<CFile>,
    f: CFile,
)
    ensures
        is_c_code(line) <==> {
            let t = text::trimmed(line);
            t.len() > 0 && !text::begins(t, "//"@) && !text::begins(t, "/*"@)
        },
        c_code_lines(lines.push(line)) == c_code_lines(lines) + if is_c_code(line) {
            1nat
        } else {
            0nat
        },
        c_code_lines(Seq::empty()) == 0,
        c_file_loc(f) > 0 ==> f.text is Some && (paths::extension_in(f.path@) == Some("c"@)
            || paths::extension_in(f.path@) == Some("h"@)),
        f.text is Some && (paths::extension_in(f.path@) == Some("c"@) || paths::extension_in(
            f.path@,
        ) == Some("h"@)) ==> c_file_loc(f) == c_code_lines(text::lines(f.text->0@)),
        c_dir_loc(files.push(f)) == c_dir_loc(files) + c_file_loc(f),
        c_dir_loc(Seq::empty()) == 0,
{
    assert(lines.push(line).drop_last() =~= lines);
    assert(files.push(f).drop_last() =~= files);
}

/// A source that several cases share is counted once: a case adds the lines of its source only where no
/// case before it has that source.
pub proof fn law_a_shared_source_is_counted_once(cs: Seq<CorpusCase>, c: CorpusCase)
    ensures
        (exists|i: int| 0 <= i < cs.len() && (#[trigger] cs[i]).source@ == c.source@)
            ==> distinct_locs(cs.push(c)) == distinct_locs(cs),
        (forall|i: int| 0 <= i < cs.len() ==> (#[trigger] cs[i]).source@ != c.source@)
            ==> distinct_locs(cs.push(c)) == distinct_locs(cs).push(c_dir_loc(c.files@)),
        distinct_locs(Seq::empty()).len() == 0,
{
    assert(cs.push(c).drop_last() =~= cs);
    let s = sources(cs);
    if exists|i: int| 0 <= i < cs.len() && (#[trigger] cs[i]).source@ == c.source@ {
        let i = choose|i: int| 0 <= i < cs.len() && (#[trigger] cs[i]).source@ == c.source@;
        assert(s[i] == c.source@);
    }
    if s.contains(c.source@) {
        let i = choose|i: int| 0 <= i < s.len() && s[i] == c.source@;
        assert(cs[i].source@ == c.source@);
    }
}

/// A sum is that of all its terms.
pub proof fn law_a_sum_adds_every_term(s: Seq<nat>, n: nat)
    ensures
        sum(s.push(n)) == sum(s) + n,
        sum(Seq::empty()) == 0,
{
    assert(s.push(n).drop_last() =~= s);
}

/// A battery of the corpus is known by its name, the last of several.
pub proof fn law_a_battery_of_the_corpus_is_known_by_its_name(
    corpus: Seq<CorpusBattery>,
    b: CorpusBattery,
    name: Seq<char>,
)
    ensures
        corpus_cases(corpus.push(b), b.name@) == b.cases@,
        name != b.name@ ==> corpus_cases(corpus.push(b), name) == corpus_cases(corpus, name),
        corpus_cases(Seq::empty(), name).len() == 0,
{
    assert(corpus.push(b).drop_last() =~= corpus);
}

/// A row tells the score of a battery from its summary and the rest from its cases: the cases passed
/// and tested, the vectors passed and all of them, the crates that compiled, and the lines.
pub proof fn law_a_row_is_a_summary_and_its_cases(
    agent: Seq<char>,
    b: BatteryRecord,
    s: Summary,
    only: bool,
    c_loc: nat,
)
    ensures
        ({
            let r = row_of(agent, b, s, only, c_loc);
            &&& r.agent == agent
            &&& r.battery == b.name@
            &&& r.cases_passed == s.cases_passed
            &&& r.cases_tested == s.cases_tested
            &&& r.vectors_passed == s.vectors_passed
            &&& r.vectors_total == s.vectors_passed + s.vectors_failed
            &&& r.cases_built == total_built(b.cases@, only)
            &&& r.c_loc == c_loc
            &&& r.total_loc == total_loc(b.cases@, b.corpus_present, only)
            &&& r.unsafe_lines == total_unsafe(b.cases@, b.corpus_present, only)
        }),
{
}

/// A battery that has no summary has no row. One that has has a row of its agent; only of kiro, and only
/// where its translations were summed up, there is a second one, for the translations alone. The lines
/// of C are those of the distinct sources of the battery.
pub proof fn law_a_battery_has_a_row_for_each_summary(
    agent: Seq<char>,
    b: BatteryRecord,
    corpus: Seq<CorpusBattery>,
)
    ensures
        ({
            let rows = rows_of_battery(agent, b, corpus);
            let c_loc = sum(distinct_locs(corpus_cases(corpus, b.name@)));
            &&& b.summary is None ==> rows.len() == 0
            &&& b.summary matches Some(s) ==> rows.len() >= 1 && rows[0] == row_of(
                agent,
                b,
                s,
                false,
                c_loc,
            )
            &&& rows.len() == 2 <==> b.summary is Some && agent == "kiro"@
                && b.translated_summary is Some
            &&& rows.len() == 2 ==> rows[1] == row_of(
                "kiro-translate"@,
                b,
                b.translated_summary->0,
                true,
                c_loc,
            )
            &&& rows.len() <= 2
        }),
{
}

/// The rows of all agents are those of each, one after the other, and those of an agent are those of its
/// batteries.
pub proof fn law_every_battery_of_every_agent_has_its_rows(
    agents: Seq<AgentRecord>,
    a: AgentRecord,
    agent: Seq<char>,
    bs: Seq<BatteryRecord>,
    b: BatteryRecord,
    corpus: Seq<CorpusBattery>,
)
    ensures
        rows_of_all(agents.push(a), corpus) == rows_of_all(agents, corpus) + rows_of_agent(
            a.name@,
            a.batteries@,
            corpus,
        ),
        rows_of_agent(agent, bs.push(b), corpus) == rows_of_agent(agent, bs, corpus)
            + rows_of_battery(agent, b, corpus),
        rows_of_all(Seq::empty(), corpus).len() == 0,
        rows_of_agent(agent, Seq::empty(), corpus).len() == 0,
{
    assert(agents.push(a).drop_last() =~= agents);
    assert(bs.push(b).drop_last() =~= bs);
}

/// A case has a build where it has a result, under its battery and its name, and it is whether its crate
/// compiled.
pub proof fn law_a_build_is_told_by_its_result(
    battery: Seq<char>,
    cs: Seq<CaseRecord>,
    c: CaseRecord,
    bs: Seq<BatteryRecord>,
    b: BatteryRecord,
)
    ensures
        result_of(c, false) is Some ==> builds_of_battery(battery, cs.push(c))
            == builds_of_battery(battery, cs).push(
            (battery + "/"@ + c.name@, compiled(result_of(c, false)->0)),
        ),
        result_of(c, false) is None ==> builds_of_battery(battery, cs.push(c))
            == builds_of_battery(battery, cs),
        builds_of(bs.push(b)) == builds_of(bs) + builds_of_battery(b.name@, b.cases@),
        builds_of_battery(battery, Seq::empty()).len() == 0,
        builds_of(Seq::empty()).len() == 0,
{
    assert(cs.push(c).drop_last() =~= cs);
    assert(bs.push(b).drop_last() =~= bs);
}

/// A build is broken where it was one and is none, and mended the other way round; a case that only one
/// of the two systems has is neither, and one that stays as it is is neither.
pub proof fn law_a_build_is_broken_or_mended_where_it_changes(
    one: Seq<(Seq<char>, bool)>,
    other: Seq<(Seq<char>, bool)>,
    case: Seq<char>,
    was: bool,
)
    ensures
        said_of(other, case) is None ==> {
            &&& changed(one.push((case, was)), other, true, false) == changed(one, other, true, false)
            &&& changed(one.push((case, was)), other, false, true) == changed(one, other, false, true)
        },
        said_of(other, case) == Some(was) ==> {
            &&& changed(one.push((case, was)), other, true, false) == changed(one, other, true, false)
            &&& changed(one.push((case, was)), other, false, true) == changed(one, other, false, true)
        },
        said_of(other, case) == Some(!was) && was ==> {
            &&& changed(one.push((case, was)), other, true, false) == changed(
                one,
                other,
                true,
                false,
            ) + 1
            &&& changed(one.push((case, was)), other, false, true) == changed(one, other, false, true)
        },
        said_of(other, case) == Some(!was) && !was ==> {
            &&& changed(one.push((case, was)), other, true, false) == changed(one, other, true, false)
            &&& changed(one.push((case, was)), other, false, true) == changed(
                one,
                other,
                false,
                true,
            ) + 1
        },
        changed(Seq::empty(), other, true, false) == 0,
        changed(Seq::empty(), other, false, true) == 0,
{
    assert(one.push((case, was)).drop_last() =~= one);
}

/// What is said of a case is what was said of it last.
pub proof fn law_the_last_word_on_a_case_counts(
    s: Seq<(Seq<char>, bool)>,
    case: Seq<char>,
    other: Seq<char>,
    b: bool,
)
    ensures
        said_of(s.push((case, b)), case) == Some(b),
        other != case ==> said_of(s.push((case, b)), other) == said_of(s, other),
        said_of(Seq::empty(), case) is None,
{
    assert(s.push((case, b)).drop_last() =~= s);
}

/// The seconds of runs are those of their two phases, each as it was recorded; a phase that was not
/// recorded adds none.
pub proof fn law_seconds_are_those_of_both_phases(
    records: Seq<Json>,
    r: Json,
    phase: Seq<char>,
    p: json::JsonView,
)
    ensures
        seconds_of(records.push(r)) == seconds_of(records) + seconds_in(r@, "translate"@)
            + seconds_in(r@, "verify"@),
        seconds_of(Seq::empty()) == 0,
        json::member(r@, phase) is None ==> seconds_in(r@, phase) == 0,
        json::member(r@, phase) == Some(p) && json::number_in(json::member(p, "wall_secs"@)) is Some
            ==> seconds_in(r@, phase) == json::number_in(json::member(p, "wall_secs"@))->0,
{
    assert(records.push(r).drop_last() =~= records);
}

/// A directory is charged for where it holds a translation and no other that does lies above it, so that
/// no translation is charged for twice.
pub proof fn law_a_case_is_charged_for_once(first: Seq<Below>, dirs: Seq<Below>, dir: Seq<char>)
    ensures
        costed(dirs, first).contains(dir) <==> exists|k: int| 0 <= k < first.len() && (#[trigger] first[k]).dir@ == dir && first[k].translated && !exists|i: int| 0 <= i < dirs.len() && (#[trigger] dirs[i]).translated && dirs[i].dir@ != dir && paths::within(dir, dirs[i].dir@),
    decreases first.len(),
{
    let all = costed(dirs, first);
    if first.len() > 0 {
        let d = first.drop_last();
        let before = costed(dirs, d);
        law_a_case_is_charged_for_once(d, dirs, dir);
        if all.contains(dir) {
            let i = choose|i: int| 0 <= i < all.len() && all[i] == dir;
            if i < before.len() {
                assert(before[i] == dir);
                let k = choose|k: int| 0 <= k < d.len() && (#[trigger] d[k]).dir@ == dir && d[k].translated && !exists|i: int| 0 <= i < dirs.len() && (#[trigger] dirs[i]).translated && dirs[i].dir@ != dir && paths::within(dir, dirs[i].dir@);
                assert(first[k] == d[k]);
            } else {
                assert(first[first.len() - 1] == first.last());
            }
        }
        if exists|k: int| 0 <= k < first.len() && (#[trigger] first[k]).dir@ == dir && first[k].translated && !exists|i: int| 0 <= i < dirs.len() && (#[trigger] dirs[i]).translated && dirs[i].dir@ != dir && paths::within(dir, dirs[i].dir@) {
            let k = choose|k: int| 0 <= k < first.len() && (#[trigger] first[k]).dir@ == dir && first[k].translated && !exists|i: int| 0 <= i < dirs.len() && (#[trigger] dirs[i]).translated && dirs[i].dir@ != dir && paths::within(dir, dirs[i].dir@);
            if k < d.len() {
                assert(d[k] == first[k]);
                let i = choose|i: int| 0 <= i < before.len() && before[i] == dir;
                assert(all[i] == dir);
            } else {
                assert(all[all.len() - 1] == dir);
            }
        }
    }
}

/// A number that is missing counts nothing.
pub proof fn law_a_missing_number_counts_nothing(n: u32)
    ensures
        or_zero(Some(n)) == n,
        or_zero(None) == 0,
{
}

} // verus!
