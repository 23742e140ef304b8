//! Auditing a finished results tree by nothing but the transcripts that its runs left.

use crate::bytes;
use crate::domain::health;
use crate::domain::health::Exit;
use crate::domain::health::Health;
use crate::domain::health::HealthView;
use crate::domain::health::LogFormat;
use crate::json;
use crate::json::Json;
use crate::paths;
use crate::text;
use vstd::prelude::*;
use vstd::string::*;

verus! {

// ---------------------------------------------------------------------------
// Transcripts
// ---------------------------------------------------------------------------

/// How much of a transcript is read: its last record can carry several kilobytes of prose.
pub const TAIL_BYTES: u64 = 16384;

/// Where the reading of a transcript begins, so that its end is read.
pub fn tail_start(len: u64) -> (r: u64)
    ensures
        r == (if len <= TAIL_BYTES {
            0
        } else {
            len - TAIL_BYTES
        }),
{
    if len <= TAIL_BYTES {
        0
    } else {
        len - TAIL_BYTES
    }
}

/// The end of a transcript, or why it could not be read.
#[derive(Debug)]
pub enum Tail {
    Read(String),
    Unreadable(String),
}

/// The verdict on a transcript.
pub open spec fn log_verdict(log: Seq<char>, tail: Tail, format: LogFormat, exit: Exit) -> HealthView {
    match tail {
        Tail::Read(t) => health::verdict(t@, format, exit),
        Tail::Unreadable(e) => HealthView::Unknown { why: "cannot read "@ + log + ": "@ + e@ },
    }
}

/// The verdict on a run after the fact, from its transcript and the exit that was recorded.
pub fn classify_log(log: &str, tail: &Tail, format: LogFormat, exit: Exit) -> (r: Health)
    ensures
        r@ == log_verdict(log@, *tail, format, exit),
{
    match tail {
        Tail::Read(t) => health::classify(t.as_str(), format, exit),
        Tail::Unreadable(e) => Health::Unknown {
            why: text::join2(text::join3("cannot read ", log, ": ").as_str(), e.as_str()),
        },
    }
}

/// The end of a transcript, from its bytes.
pub open spec fn end_of(content: Seq<u8>) -> Seq<u8> {
    if content.len() <= TAIL_BYTES {
        content
    } else {
        content.subrange(content.len() - TAIL_BYTES, content.len() as int)
    }
}

/// The text of what was read of a transcript, from where its reading begins.
pub fn read_tail(read: &[u8]) -> (r: Tail)
    ensures
        r matches Tail::Read(t) && t@ == bytes::lossy_form(read@),
{
    Tail::Read(bytes::lossy_text(read))
}

/// The verdict on a run after the fact, from all bytes of its transcript, or from why they could not be
/// read, and from the exit that was recorded. The end of the transcript decides.
pub fn classify_content(log: &str, content: Result<&[u8], String>, format: LogFormat, exit: Exit) -> (r:
    Health)
    ensures
        r@ == (match content {
            Ok(b) => health::verdict(bytes::lossy_form(end_of(b@)), format, exit),
            Err(e) => HealthView::Unknown { why: "cannot read "@ + log@ + ": "@ + e@ },
        }),
{
    let tail = match content {
        Ok(b) => {
            let start = tail_start(b.len() as u64) as usize;
            let end = bytes::cut(b, start, b.len());
            assert(end@ =~= end_of(b@));
            read_tail(end.as_slice())
        },
        Err(e) => Tail::Unreadable(e),
    };
    classify_log(log, &tail, format, exit)
}

/// A transcript that is read from where its reading begins is judged as the whole: what stands before
/// is no part of the verdict.
pub proof fn law_only_the_end_of_a_transcript_counts(before: Seq<u8>, end: Seq<u8>)
    requires
        end.len() == TAIL_BYTES,
    ensures
        end_of(before + end) == end,
        end_of(end) == end,
{
    assert(end_of(before + end) =~= end);
}

/// The cost that a line of a transcript gives, as it is written.
pub open spec fn cost_of(line: Seq<char>) -> Option<Seq<char>> {
    match json::read(line) {
        Some(v) => match json::member(v, "total_cost_usd"@) {
            Some(c) => if c is Number {
                Some(json::compact_form(c))
            } else {
                None
            },
            None => None,
        },
        None => None,
    }
}

/// The cost that a transcript gives last.
pub open spec fn last_cost(lines: Seq<Seq<char>>) -> Option<Seq<char>>
    decreases lines.len(),
{
    if lines.len() == 0 {
        None
    } else {
        match cost_of(lines.last()) {
            Some(c) => Some(c),
            None => last_cost(lines.drop_last()),
        }
    }
}

fn read_cost(line: &str) -> (r: Option<String>)
    ensures
        r is Some <==> cost_of(line@) is Some,
        r matches Some(s) ==> cost_of(line@) == Some(s@),
{
    match json::parse(line) {
        Some(v) => match v.get("total_cost_usd") {
            Some(c) => match c {
                Json::Number(_) => Some(json::compact(c)),
                _ => None,
            },
            None => None,
        },
        None => None,
    }
}

/// What a run cost, as its transcript writes it. A transcript of prose gives no cost: a zero would be
/// a measurement that nobody made.
pub fn cost_usd(tail: &Tail, format: LogFormat) -> (r: Option<String>)
    ensures
        r is Some <==> (format != LogFormat::Opaque && (tail matches Tail::Read(t) && last_cost(
            text::lines(t@),
        ) is Some)),
        r matches Some(s) ==> (tail matches Tail::Read(t) && last_cost(text::lines(t@)) == Some(s@)),
{
    if let LogFormat::Opaque = format {
        return None;
    }
    let t = match tail {
        Tail::Read(t) => t,
        Tail::Unreadable(_) => {
            return None;
        },
    };
    let lines = text::lines_of(&text::chars_of(t.as_str()));
    let ghost all = text::char_views(lines@);
    let mut i: usize = lines.len();
    assert(all.subrange(0, i as int) =~= all);
    while i > 0
        invariant
            i <= lines.len(),
            all == text::char_views(lines@),
            all == text::lines(t@),
            format != LogFormat::Opaque,
            *tail == Tail::Read(*t),
            last_cost(all) == last_cost(all.subrange(0, i as int)),
        decreases i,
    {
        assert(all.subrange(0, i as int).drop_last() =~= all.subrange(0, i - 1));
        assert(all.subrange(0, i as int).last() == lines@[i - 1]@);
        let line = text::string_of(&lines[i - 1]);
        if let Some(c) = read_cost(line.as_str()) {
            return Some(c);
        }
        i = i - 1;
    }
    assert(all.subrange(0, 0).len() == 0);
    None
}

// ---------------------------------------------------------------------------
// The audit
// ---------------------------------------------------------------------------

/// A run to be audited: where its case is, and the transcripts that are there.
#[derive(Debug)]
pub struct Run {
    pub name: String,
    pub case_dir: String,
    /// The transcript of its verification, where there is one.
    pub verify: Option<Tail>,
    /// The transcript of its translation, where there is one.
    pub translate: Option<Tail>,
}

/// What became of a case.
#[derive(Debug)]
pub struct CaseHealth {
    pub name: String,
    pub health: Health,
    pub log: String,
}

/// What became of a case, mathematically.
pub struct CaseView {
    pub name: Seq<char>,
    pub health: HealthView,
    pub log: Seq<char>,
}

impl View for CaseHealth {
    type V = CaseView;

    open spec fn view(&self) -> CaseView {
        CaseView { name: self.name@, health: self.health@, log: self.log@ }
    }
}

/// What became of cases.
pub open spec fn case_views(s: Seq<CaseHealth>) -> Seq<CaseView> {
    s.map_values(|c: CaseHealth| c@)
}

/// The transcript of a case's verification.
pub open spec fn verify_log(case_dir: Seq<char>) -> Seq<char> {
    paths::joined(case_dir, "verified/logs/verify.log"@)
}

/// The transcript of a case's translation.
pub open spec fn translate_log(case_dir: Seq<char>) -> Seq<char> {
    paths::joined(case_dir, "translated/logs/translation.log"@)
}

/// What a run's transcript says of it: that of the later phase where there are two, and nothing where
/// there is none. Nobody watches a run that is over, so no exit is observed.
pub open spec fn audited(run: Run, format: LogFormat) -> Option<CaseView> {
    match run.verify {
        Some(tail) => Some(
            CaseView {
                name: run.name@,
                health: log_verdict(verify_log(run.case_dir@), tail, format, Exit::Unobserved),
                log: verify_log(run.case_dir@),
            },
        ),
        None => match run.translate {
            Some(tail) => Some(
                CaseView {
                    name: run.name@,
                    health: log_verdict(
                        translate_log(run.case_dir@),
                        tail,
                        format,
                        Exit::Unobserved,
                    ),
                    log: translate_log(run.case_dir@),
                },
            ),
            None => None,
        },
    }
}

/// Puts a case behind those whose names do not follow its own.
pub open spec fn placed(s: Seq<CaseView>, x: CaseView) -> Seq<CaseView>
    decreases s.len(),
{
    if s.len() == 0 {
        seq![x]
    } else if !text::precedes(x.name, s.last().name) {
        s.push(x)
    } else {
        placed(s.drop_last(), x).push(s.last())
    }
}

/// What the transcripts of runs say, in the order of the names of the cases.
pub open spec fn audit_of(runs: Seq<Run>, format: LogFormat) -> Seq<CaseView>
    decreases runs.len(),
{
    if runs.len() == 0 {
        Seq::empty()
    } else {
        match audited(runs.last(), format) {
            Some(c) => placed(audit_of(runs.drop_last(), format), c),
            None => audit_of(runs.drop_last(), format),
        }
    }
}

fn audit_one(run: &Run, format: LogFormat) -> (r: Option<CaseHealth>)
    ensures
        r is Some <==> audited(*run, format) is Some,
        r matches Some(c) ==> audited(*run, format) == Some(c@),
{
    if let Some(tail) = &run.verify {
        let log = paths::join(run.case_dir.as_str(), "verified/logs/verify.log");
        let health = classify_log(log.as_str(), tail, format, Exit::Unobserved);
        return Some(CaseHealth { name: text::copy(run.name.as_str()), health, log });
    }
    if let Some(tail) = &run.translate {
        let log = paths::join(run.case_dir.as_str(), "translated/logs/translation.log");
        let health = classify_log(log.as_str(), tail, format, Exit::Unobserved);
        return Some(CaseHealth { name: text::copy(run.name.as_str()), health, log });
    }
    None
}

fn place(v: &mut Vec<CaseHealth>, c: CaseHealth)
    ensures
        case_views(final(v)@) == placed(case_views(old(v)@), c@),
{
    let ghost v0 = case_views(v@);
    let ghost x = c@;
    let mut at: usize = v.len();
    assert(v0.subrange(0, at as int) =~= v0);
    assert(v0.subrange(at as int, v0.len() as int) =~= Seq::empty());
    assert(placed(v0, x) =~= placed(v0.subrange(0, at as int), x) + v0.subrange(
        at as int,
        v0.len() as int,
    ));
    while at > 0 && text::less_text(c.name.as_str(), v[at - 1].name.as_str())
        invariant
            at <= v.len(),
            v0 == case_views(v@),
            v@ == old(v)@,
            x == c@,
            placed(v0, x) == placed(v0.subrange(0, at as int), x) + v0.subrange(
                at as int,
                v0.len() as int,
            ),
        decreases at,
    {
        let ghost here = v0.subrange(0, at as int);
        assert(here.drop_last() =~= v0.subrange(0, at - 1));
        assert(here.last() == v@[at - 1]@);
        assert(placed(here, x) + v0.subrange(at as int, v0.len() as int) =~= placed(
            v0.subrange(0, at - 1),
            x,
        ) + v0.subrange(at - 1, v0.len() as int));
        at = at - 1;
    }
    proof {
        let here = v0.subrange(0, at as int);
        if at > 0 {
            assert(here.last() == v@[at - 1]@);
            assert(placed(here, x) == here.push(x));
        } else {
            assert(placed(here, x) =~= here.push(x));
        }
    }
    v.insert(at, c);
    assert(case_views(v@) =~= v0.insert(at as int, x));
    assert(v0.insert(at as int, x) =~= v0.subrange(0, at as int).push(x) + v0.subrange(
        at as int,
        v0.len() as int,
    ));
}

/// What the transcripts of the given runs say, in the order of their names. Only these runs are
/// audited: a dead run elsewhere is no reason to refuse them.
pub fn audit(runs: &[Run], format: LogFormat) -> (r: Vec<CaseHealth>)
    ensures
        case_views(r@) == audit_of(runs@, format),
{
    let mut out: Vec<CaseHealth> = Vec::new();
    let mut i: usize = 0;
    assert(case_views(out@) =~= audit_of(runs@.subrange(0, 0), format));
    while i < runs.len()
        invariant
            i <= runs.len(),
            case_views(out@) == audit_of(runs@.subrange(0, i as int), format),
        decreases runs.len() - i,
    {
        assert(runs@.subrange(0, i + 1).drop_last() =~= runs@.subrange(0, i as int));
        assert(runs@.subrange(0, i + 1).last() == runs@[i as int]);
        if let Some(c) = audit_one(&runs[i], format) {
            place(&mut out, c);
        }
        i = i + 1;
    }
    assert(runs@.subrange(0, runs.len() as int) =~= runs@);
    out
}

// ---------------------------------------------------------------------------
// Refusing to score
// ---------------------------------------------------------------------------

/// What an infrastructure failure does to a score.
#[derive(Copy, Clone, Debug, PartialEq, Eq, Structural)]
pub enum OnInfraFailure {
    Refuse,
    ScoreAnyway,
}

impl OnInfraFailure {
    /// What the flag `--allow-infra-failures` asks for.
    pub fn from_allow_infra_failures_flag(flag: bool) -> (r: OnInfraFailure)
        ensures
            r == (if flag {
                OnInfraFailure::ScoreAnyway
            } else {
                OnInfraFailure::Refuse
            }),
    {
        if flag {
            OnInfraFailure::ScoreAnyway
        } else {
            OnInfraFailure::Refuse
        }
    }
}

/// The cases that were lost to the infrastructure.
pub open spec fn lost(s: Seq<CaseView>) -> Seq<CaseView>
    decreases s.len(),
{
    if s.len() == 0 {
        Seq::empty()
    } else if s.last().health is Infra {
        lost(s.drop_last()).push(s.last())
    } else {
        lost(s.drop_last())
    }
}

/// The lines that name lost cases.
pub open spec fn lost_lines(s: Seq<CaseView>) -> Seq<char>
    decreases s.len(),
{
    if s.len() == 0 {
        Seq::empty()
    } else {
        lost_lines(s.drop_last()) + "  "@ + s.last().name + "\n     "@ + s.last().health->Infra_detail
            + "\n"@
    }
}

/// How many cases a description names.
pub open spec fn named(n: nat) -> nat {
    if n <= 30 {
        n
    } else {
        30
    }
}

/// What is said of the cases that were lost: how many, and the first of them by name.
pub open spec fn described(s: Seq<CaseView>) -> Option<Seq<char>> {
    let bad = lost(s);
    if bad.len() == 0 {
        None
    } else {
        let head = text::numeral(bad.len()) + " of "@ + text::numeral(s.len())
            + " agent runs did not complete for infrastructure reasons.\nThese have NO measurement and must not be scored as results:\n"@
            + lost_lines(bad.subrange(0, named(bad.len()) as int));
        Some(
            if bad.len() > 30 {
                head + "  ... and "@ + text::numeral((bad.len() - 30) as nat) + " more\n"@
            } else {
                head
            },
        )
    }
}

proof fn lemma_lost_len(s: Seq<CaseView>)
    ensures
        lost(s).len() <= s.len(),
    decreases s.len(),
{
    if s.len() > 0 {
        lemma_lost_len(s.drop_last());
    }
}

/// The places of the cases that were lost.
fn find_lost(audit: &[CaseHealth]) -> (r: Vec<usize>)
    ensures
        r@.len() == lost(case_views(audit@)).len(),
        forall|i: int|
            0 <= i < r@.len() ==> (#[trigger] r@[i]) < audit@.len() && lost(case_views(audit@))[i]
                == audit@[r@[i] as int]@ && audit@[r@[i] as int]@.health is Infra,
{
    let ghost all = case_views(audit@);
    let mut out: Vec<usize> = Vec::new();
    let mut i: usize = 0;
    while i < audit.len()
        invariant
            i <= audit.len(),
            all == case_views(audit@),
            out@.len() == lost(all.subrange(0, i as int)).len(),
            forall|k: int|
                0 <= k < out@.len() ==> (#[trigger] out@[k]) < i && lost(
                    all.subrange(0, i as int),
                )[k] == audit@[out@[k] as int]@ && audit@[out@[k] as int]@.health is Infra,
        decreases audit.len() - i,
    {
        let ghost before = out@;
        assert(all.subrange(0, i + 1).drop_last() =~= all.subrange(0, i as int));
        assert(all.subrange(0, i + 1).last() == audit@[i as int]@);
        if audit[i].health.is_infra() {
            out.push(i);
            assert forall|k: int| 0 <= k < out@.len() implies (#[trigger] out@[k]) < i + 1 && lost(
                all.subrange(0, i + 1),
            )[k] == audit@[out@[k] as int]@ && audit@[out@[k] as int]@.health is Infra by {
                if k < before.len() {
                    assert(out@[k] == before[k]);
                }
            }
        }
        i = i + 1;
    }
    assert(all.subrange(0, audit.len() as int) =~= all);
    out
}

/// What is said of the cases that were lost, where some were.
pub fn describe_infra_failures(audit: &[CaseHealth]) -> (r: Option<String>)
    ensures
        r is Some <==> described(case_views(audit@)) is Some,
        r matches Some(s) ==> described(case_views(audit@)) == Some(s@),
{
    let bad = find_lost(audit);
    let ghost all = case_views(audit@);
    let ghost views = lost(all);
    proof {
        lemma_lost_len(all);
    }
    if bad.len() == 0 {
        return None;
    }
    let mut s = text::numeral_of(bad.len() as u64);
    s.append(" of ");
    text::push_numeral(&mut s, audit.len() as u64);
    s.append(
        " agent runs did not complete for infrastructure reasons.\nThese have NO measurement and must not be scored as results:\n",
    );
    let ghost head = s@;
    let n: usize = if bad.len() <= 30 {
        bad.len()
    } else {
        30
    };
    let mut i: usize = 0;
    assert(s@ =~= head + lost_lines(views.subrange(0, 0)));
    while i < n
        invariant
            i <= n <= bad.len(),
            views == lost(case_views(audit@)),
            bad@.len() == views.len(),
            forall|k: int|
                0 <= k < bad@.len() ==> (#[trigger] bad@[k]) < audit@.len() && views[k]
                    == audit@[bad@[k] as int]@ && audit@[bad@[k] as int]@.health is Infra,
            s@ == head + lost_lines(views.subrange(0, i as int)),
        decreases n - i,
    {
        assert(views.subrange(0, i + 1).drop_last() =~= views.subrange(0, i as int));
        assert(views.subrange(0, i + 1).last() == views[i as int]);
        let at: usize = bad[i];
        assert(views[i as int] == audit@[at as int]@);
        if let Health::Infra { reason: _, detail } = &audit[at].health {
            s.append("  ");
            s.append(audit[at].name.as_str());
            s.append("\n     ");
            s.append(detail.as_str());
            s.append("\n");
            assert(s@ =~= head + lost_lines(views.subrange(0, i + 1)));
        }
        i = i + 1;
    }
    if bad.len() > 30 {
        s.append("  ... and ");
        text::push_numeral(&mut s, (bad.len() - 30) as u64);
        s.append(" more\n");
    }
    Some(s)
}

/// A lost case as it is recorded.
pub open spec fn lost_value(c: CaseView) -> json::JsonView {
    json::JsonView::Object(
        Map::<Seq<char>, json::JsonView>::empty().insert("case"@, json::JsonView::Text(c.name)).insert(
            "reason"@,
            json::JsonView::Text(c.health->Infra_reason),
        ).insert("detail"@, json::JsonView::Text(c.health->Infra_detail)).insert(
            "log"@,
            json::JsonView::Text(c.log),
        ),
    )
}

/// The record of the cases that were lost.
pub open spec fn lost_record(s: Seq<CaseView>, generated: Seq<char>) -> json::JsonView {
    json::JsonView::Object(
        Map::<Seq<char>, json::JsonView>::empty().insert(
            "generated"@,
            json::JsonView::Text(generated),
        ).insert("runs_audited"@, json::natural_view(s.len() as u64)).insert(
            "infra_failures"@,
            json::natural_view(lost(s).len() as u64),
        ).insert(
            "cases"@,
            json::JsonView::List(lost(s).map_values(|c: CaseView| lost_value(c))),
        ),
    )
}

/// The file that the cases that were lost are recorded in.
pub open spec fn record_file(results_dir: Seq<char>) -> Seq<char> {
    paths::joined(results_dir, "INFRA_FAILURES.json"@)
}

/// The record of the cases that were lost, and the file that it is written to: a case without a
/// measurement is never invisible.
pub fn record_infra_failures(results_dir: &str, audit: &[CaseHealth], generated: &str) -> (r: (
    String,
    String,
))
    ensures
        r.0@ == record_file(results_dir@),
        r.1@ == json::pretty_form(lost_record(case_views(audit@), generated@)) + "\n"@,
{
    let bad = find_lost(audit);
    let ghost views = lost(case_views(audit@));
    let mut cases: Vec<Json> = Vec::new();
    let mut i: usize = 0;
    while i < bad.len()
        invariant
            i <= bad.len(),
            views == lost(case_views(audit@)),
            bad@.len() == views.len(),
            forall|k: int|
                0 <= k < bad@.len() ==> (#[trigger] bad@[k]) < audit@.len() && views[k]
                    == audit@[bad@[k] as int]@ && audit@[bad@[k] as int]@.health is Infra,
            cases@.len() == i,
            forall|k: int| 0 <= k < i ==> (#[trigger] cases@[k])@ == lost_value(views[k]),
        decreases bad.len() - i,
    {
        let at: usize = bad[i];
        assert(views[i as int] == audit@[at as int]@);
        let mut m: Vec<(String, Json)> = Vec::new();
        if let Health::Infra { reason, detail } = &audit[at].health {
            json::set(&mut m, "case", json::words(audit[at].name.as_str()));
            json::set(&mut m, "reason", json::words(reason.as_str()));
            json::set(&mut m, "detail", json::words(detail.as_str()));
            json::set(&mut m, "log", json::words(audit[at].log.as_str()));
        }
        cases.push(Json::Object(m));
        i = i + 1;
    }
    proof {
        json::lemma_meanings(cases@);
        let want = views.map_values(|c: CaseView| lost_value(c));
        assert forall|k: int| 0 <= k < want.len() implies json::meanings(cases@)[k]
            == #[trigger] want[k] by {
            assert(json::meanings(cases@)[k] == cases@[k]@);
        }
        assert(json::meanings(cases@) =~= want);
    }
    let mut doc: Vec<(String, Json)> = Vec::new();
    json::set(&mut doc, "generated", json::words(generated));
    json::set(&mut doc, "runs_audited", json::natural(audit.len() as u64));
    json::set(&mut doc, "infra_failures", json::natural(bad.len() as u64));
    json::set(&mut doc, "cases", Json::List(cases));
    assert(case_views(audit@).len() == audit@.len());
    let mut out = json::pretty(&Json::Object(doc));
    out.append("\n");
    (paths::join(results_dir, "INFRA_FAILURES.json"), out)
}

/// What stands between an audit and a score.
#[derive(Debug)]
pub struct Gate<'a> {
    pub format: LogFormat,
    pub on_failure: OnInfraFailure,
    pub results_dir: &'a str,
}

/// What is said of the runs to be scored.
#[derive(Debug)]
pub enum Grade {
    /// Every run has a measurement, or none was lost to the infrastructure.
    Clean,
    /// Some were lost and the score is refused. The record is written all the same.
    Refused { record: (String, String), why: String },
    /// Some were lost and the score goes on, behind a warning.
    Warned { record: (String, String), warning: String },
}

/// The refusal of a score.
pub open spec fn refusal(report: Seq<char>, results_dir: Seq<char>) -> Seq<char> {
    report
        + "\nRefusing to score. An infrastructure failure is not a result.\nRe-run those cases after fixing the cause: a dead run stores no cache entry, so `verify <target>` re-runs it, and `--force` is needed only under `--cache off`. Or pass --allow-infra-failures to score anyway.\nDetails written to "@
        + results_dir + "/INFRA_FAILURES.json"@
}

/// The warning of a score that goes on.
pub open spec fn warning(report: Seq<char>) -> Seq<char> {
    "⚠️  --allow-infra-failures: scoring despite dead agent runs.\n"@ + report
        + "These cases have no measurement; treat any number derived from them as unsupported."@
}

impl<'a> Gate<'a> {
    /// What is said of the runs to be scored: an infrastructure failure is not a result.
    pub fn grade(&self, runs: &[Run], generated: &str) -> (r: Grade)
        ensures
            match described(audit_of(runs@, self.format)) {
                None => r is Clean,
                Some(report) => match self.on_failure {
                    OnInfraFailure::Refuse => r matches Grade::Refused { record, why } && {
                        &&& record.0@ == record_file(self.results_dir@)
                        &&& record.1@ == json::pretty_form(
                            lost_record(audit_of(runs@, self.format), generated@),
                        ) + "\n"@
                        &&& why@ == refusal(report, self.results_dir@)
                    },
                    OnInfraFailure::ScoreAnyway => r matches Grade::Warned { record, warning: w } && {
                        &&& record.0@ == record_file(self.results_dir@)
                        &&& record.1@ == json::pretty_form(
                            lost_record(audit_of(runs@, self.format), generated@),
                        ) + "\n"@
                        &&& w@ == warning(report)
                    },
                },
            },
    {
        let audited = audit(runs, self.format);
        let report = match describe_infra_failures(audited.as_slice()) {
            None => {
                return Grade::Clean;
            },
            Some(s) => s,
        };
        let record = record_infra_failures(self.results_dir, audited.as_slice(), generated);
        match self.on_failure {
            OnInfraFailure::Refuse => {
                let mut why = text::join3(
                    report.as_str(),
                    "\nRefusing to score. An infrastructure failure is not a result.\nRe-run those cases after fixing the cause: a dead run stores no cache entry, so `verify <target>` re-runs it, and `--force` is needed only under `--cache off`. Or pass --allow-infra-failures to score anyway.\nDetails written to ",
                    self.results_dir,
                );
                why.append("/INFRA_FAILURES.json");
                Grade::Refused { record, why }
            },
            OnInfraFailure::ScoreAnyway => {
                let w = text::join3(
                    "⚠️  --allow-infra-failures: scoring despite dead agent runs.\n",
                    report.as_str(),
                    "These cases have no measurement; treat any number derived from them as unsupported.",
                );
                Grade::Warned { record, warning: w }
            },
        }
    }
}

// ---------------------------------------------------------------------------
// Laws
// ---------------------------------------------------------------------------

proof fn lemma_lost_iff(s: Seq<CaseView>)
    ensures
        lost(s).len() > 0 <==> exists|i: int|
            0 <= i < s.len() && (#[trigger] s[i]).health is Infra,
    decreases s.len(),
{
    if s.len() > 0 {
        let d = s.drop_last();
        lemma_lost_iff(d);
        if exists|i: int| 0 <= i < s.len() && (#[trigger] s[i]).health is Infra {
            let i = choose|i: int| 0 <= i < s.len() && (#[trigger] s[i]).health is Infra;
            if i < d.len() {
                assert(d[i] == s[i]);
            }
        }
        if lost(d).len() > 0 {
            let i = choose|i: int| 0 <= i < d.len() && (#[trigger] d[i]).health is Infra;
            assert(s[i] == d[i]);
        }
        if s.last().health is Infra {
            assert(s[s.len() - 1].health is Infra);
        }
    }
}

/// A description is given exactly where a case was lost to the infrastructure: a case of which
/// nothing is known, or that the tool itself did not solve, is no reason for one.
pub proof fn law_only_a_lost_case_is_described(s: Seq<CaseView>)
    ensures
        described(s) is Some <==> exists|i: int|
            0 <= i < s.len() && (#[trigger] s[i]).health is Infra,
{
    lemma_lost_iff(s);
}

proof fn lemma_placed_len(s: Seq<CaseView>, x: CaseView)
    ensures
        placed(s, x).len() == s.len() + 1,
    decreases s.len(),
{
    if s.len() > 0 {
        lemma_placed_len(s.drop_last(), x);
    }
}

/// A run counts once, whichever of its phases left a transcript, and not at all where none did.
pub proof fn law_a_run_counts_once(runs: Seq<Run>, format: LogFormat)
    requires
        runs.len() > 0,
    ensures
        audit_of(runs, format).len() == audit_of(runs.drop_last(), format).len() + (if runs.last().verify
            is Some || runs.last().translate is Some {
            1int
        } else {
            0
        }),
{
    if let Some(c) = audited(runs.last(), format) {
        lemma_placed_len(audit_of(runs.drop_last(), format), c);
    }
}

/// A case is audited by the transcript of its verification where there is one, and otherwise by that of
/// its translation; nobody watched either. A case without a transcript is not audited.
pub proof fn law_a_case_is_audited_by_its_last_transcript(run: Run, format: LogFormat)
    ensures
        run.verify is Some ==> (audited(run, format) matches Some(c) && c.log == paths::joined(
            run.case_dir@,
            "verified/logs/verify.log"@,
        ) && c.health == log_verdict(c.log, run.verify->0, format, Exit::Unobserved)),
        run.verify is None && run.translate is Some ==> (audited(run, format) matches Some(c)
            && c.log == paths::joined(run.case_dir@, "translated/logs/translation.log"@)
            && c.health == log_verdict(c.log, run.translate->0, format, Exit::Unobserved)),
        audited(run, format) matches Some(c) ==> c.name == run.name@,
        audited(run, format) is None <==> run.verify is None && run.translate is None,
{
}

/// A transcript that cannot be read proves nothing: the case is neither finished nor lost.
pub proof fn law_an_unreadable_transcript_proves_nothing(
    log: Seq<char>,
    e: String,
    t: String,
    format: LogFormat,
    exit: Exit,
)
    ensures
        log_verdict(log, Tail::Unreadable(e), format, exit) is Unknown,
        log_verdict(log, Tail::Read(t), format, exit) == health::verdict(t@, format, exit),
{
}

proof fn lemma_placed_holds(s: Seq<CaseView>, x: CaseView, c: CaseView)
    ensures
        placed(s, x).contains(c) <==> s.contains(c) || c == x,
    decreases s.len(),
{
    let p = placed(s, x);
    if s.len() == 0 {
        assert(p[0] == x);
    } else if !text::precedes(x.name, s.last().name) {
        if p.contains(c) {
            let i = choose|i: int| 0 <= i < p.len() && p[i] == c;
            if i < s.len() {
                assert(s[i] == c);
            }
        }
        if s.contains(c) {
            let i = choose|i: int| 0 <= i < s.len() && s[i] == c;
            assert(p[i] == c);
        }
        assert(p[p.len() - 1] == x);
    } else {
        let d = s.drop_last();
        let q = placed(d, x);
        lemma_placed_holds(d, x, c);
        if p.contains(c) {
            let i = choose|i: int| 0 <= i < p.len() && p[i] == c;
            if i < q.len() {
                assert(q[i] == c);
                if d.contains(c) {
                    let k = choose|k: int| 0 <= k < d.len() && d[k] == c;
                    assert(s[k] == c);
                }
            } else {
                assert(s[s.len() - 1] == c);
            }
        }
        if s.contains(c) || c == x {
            if c == x {
                assert(q.contains(c));
            } else {
                let k = choose|k: int| 0 <= k < s.len() && s[k] == c;
                if k < d.len() {
                    assert(d[k] == c);
                } else {
                    assert(p[p.len() - 1] == c);
                }
            }
            if q.contains(c) {
                let i = choose|i: int| 0 <= i < q.len() && q[i] == c;
                assert(p[i] == c);
            }
        }
    }
}

proof fn lemma_placed_in_order(s: Seq<CaseView>, x: CaseView)
    requires
        forall|i: int, j: int|
            0 <= i < j < s.len() ==> !text::precedes((#[trigger] s[j]).name, (#[trigger] s[i]).name),
    ensures
        forall|i: int, j: int|
            0 <= i < j < placed(s, x).len() ==> !text::precedes(
                (#[trigger] placed(s, x)[j]).name,
                (#[trigger] placed(s, x)[i]).name,
            ),
    decreases s.len(),
{
    let p = placed(s, x);
    if s.len() == 0 {
    } else if !text::precedes(x.name, s.last().name) {
        assert forall|i: int, j: int| 0 <= i < j < p.len() implies !text::precedes(
            (#[trigger] p[j]).name,
            (#[trigger] p[i]).name,
        ) by {
            assert(p[i] == s[i]);
            if j < s.len() {
                assert(p[j] == s[j]);
            } else {
                assert(p[j] == x);
                if i < s.len() - 1 {
                    assert(!text::precedes(s[s.len() - 1].name, s[i].name));
                    if text::precedes(x.name, s[i].name) {
                        text::lemma_precedes_total(s[i].name, s.last().name);
                        if s[i].name != s.last().name {
                            text::lemma_precedes_transitive(x.name, s[i].name, s.last().name);
                        }
                    }
                }
            }
        }
    } else {
        let d = s.drop_last();
        assert forall|i: int, j: int| 0 <= i < j < d.len() implies !text::precedes(
            (#[trigger] d[j]).name,
            (#[trigger] d[i]).name,
        ) by {
            assert(d[i] == s[i] && d[j] == s[j]);
        }
        lemma_placed_in_order(d, x);
        let q = placed(d, x);
        assert forall|i: int, j: int| 0 <= i < j < p.len() implies !text::precedes(
            (#[trigger] p[j]).name,
            (#[trigger] p[i]).name,
        ) by {
            assert(p[i] == q[i]);
            if j < q.len() {
                assert(p[j] == q[j]);
            } else {
                assert(p[j] == s.last());
                lemma_placed_holds(d, x, q[i]);
                assert(q.contains(q[i]));
                if d.contains(q[i]) {
                    let k = choose|k: int| 0 <= k < d.len() && d[k] == q[i];
                    assert(!text::precedes(s[s.len() - 1].name, s[k].name));
                } else {
                    if text::precedes(s.last().name, x.name) {
                        text::lemma_precedes_transitive(x.name, s.last().name, x.name);
                        text::lemma_precedes_irreflexive(x.name);
                    }
                }
            }
        }
    }
}

/// The audit holds every case that was audited, and no other, in the order of their names.
pub proof fn law_the_audit_holds_every_case_in_order(runs: Seq<Run>, format: LogFormat)
    ensures
        forall|c: CaseView|
            #[trigger] audit_of(runs, format).contains(c) <==> exists|k: int|
                0 <= k < runs.len() && audited(#[trigger] runs[k], format) == Some(c),
        forall|i: int, j: int|
            0 <= i < j < audit_of(runs, format).len() ==> !text::precedes(
                (#[trigger] audit_of(runs, format)[j]).name,
                (#[trigger] audit_of(runs, format)[i]).name,
            ),
    decreases runs.len(),
{
    if runs.len() > 0 {
        let d = runs.drop_last();
        law_the_audit_holds_every_case_in_order(d, format);
        let before = audit_of(d, format);
        let all = audit_of(runs, format);
        if let Some(x) = audited(runs.last(), format) {
            lemma_placed_in_order(before, x);
        }
        assert forall|c: CaseView|
            #[trigger] all.contains(c) <==> exists|k: int|
                0 <= k < runs.len() && audited(#[trigger] runs[k], format) == Some(c) by {
            if let Some(x) = audited(runs.last(), format) {
                lemma_placed_holds(before, x, c);
            }
            if all.contains(c) {
                if before.contains(c) {
                    let k = choose|k: int|
                        0 <= k < d.len() && audited(#[trigger] d[k], format) == Some(c);
                    assert(runs[k] == d[k]);
                } else {
                    assert(audited(runs[runs.len() - 1], format) == Some(c));
                }
            }
            if exists|k: int| 0 <= k < runs.len() && audited(#[trigger] runs[k], format) == Some(c) {
                let k = choose|k: int|
                    0 <= k < runs.len() && audited(#[trigger] runs[k], format) == Some(c);
                if k < d.len() {
                    assert(d[k] == runs[k]);
                    assert(before.contains(c));
                }
            }
        }
    }
}

/// What is said of the lost cases: how many of how many they are, each by its name and what became of
/// it, the first thirty; and how many more there are.
pub proof fn law_lost_cases_are_counted_and_named(s: Seq<CaseView>)
    ensures
        described(s) matches Some(report) ==> {
            &&& text::begins(
                report,
                text::numeral(lost(s).len()) + " of "@ + text::numeral(s.len())
                    + " agent runs did not complete for infrastructure reasons.\n"@,
            )
            &&& lost(s).len() <= 30 ==> text::ends(report, lost_lines(lost(s)))
            &&& lost(s).len() > 30 ==> text::ends(
                report,
                "  ... and "@ + text::numeral((lost(s).len() - 30) as nat) + " more\n"@,
            ) && text::found(report, lost_lines(lost(s).subrange(0, 30)))
        },
{
    let bad = lost(s);
    if bad.len() > 0 {
        let first = text::numeral(bad.len()) + " of "@ + text::numeral(s.len());
        let mid =
            " agent runs did not complete for infrastructure reasons.\nThese have NO measurement and must not be scored as results:\n"@;
        let one = " agent runs did not complete for infrastructure reasons.\n"@;
        reveal_strlit(
            " agent runs did not complete for infrastructure reasons.\nThese have NO measurement and must not be scored as results:\n",
        );
        reveal_strlit(" agent runs did not complete for infrastructure reasons.\n");
        assert(mid.subrange(0, one.len() as int) =~= one);
        let l = lost_lines(bad.subrange(0, named(bad.len()) as int));
        let report = described(s)->0;
        let head = first + one;
        assert(report.subrange(0, head.len() as int) =~= head) by {
            assert forall|i: int| 0 <= i < head.len() implies report[i] == head[i] by {
                if i >= first.len() {
                    assert(report[i] == mid[i - first.len()]);
                    assert(mid.subrange(0, one.len() as int)[i - first.len()] == one[i
                        - first.len()]);
                }
            }
        }
        if bad.len() <= 30 {
            assert(bad.subrange(0, bad.len() as int) =~= bad);
            assert(report =~= first + mid + l);
            assert(report.subrange(report.len() - l.len(), report.len() as int) =~= l);
        } else {
            let more = "  ... and "@ + text::numeral((bad.len() - 30) as nat) + " more\n"@;
            assert(report =~= first + mid + l + more);
            assert(report.subrange(report.len() - more.len(), report.len() as int) =~= more);
            text::lemma_found_inside(first + mid, l, more);
        }
    }
}

/// A lost case is told by its name and, on the line below, by what became of it.
pub proof fn law_a_lost_case_is_told_by_name_and_detail(s: Seq<CaseView>, c: CaseView)
    requires
        c.health is Infra,
    ensures
        lost_lines(s.push(c)) == lost_lines(s) + "  "@ + c.name + "\n     "@
            + c.health->Infra_detail + "\n"@,
        lost_lines(Seq::empty()).len() == 0,
        lost(s.push(c)) == lost(s).push(c),
{
    assert(s.push(c).drop_last() =~= s);
}

/// The record of the lost cases counts them and all that were audited, and tells each by its name, its
/// reason, what became of it, and its transcript.
pub proof fn law_the_record_of_lost_cases_is_complete(
    s: Seq<CaseView>,
    generated: Seq<char>,
    i: int,
)
    ensures
        ({
            let r = lost_record(s, generated);
            &&& json::text_in(json::member(r, "generated"@)) == Some(generated)
            &&& s.len() <= u64::MAX ==> json::number_in(json::member(r, "runs_audited"@)) == Some(
                s.len() as u64,
            )
            &&& lost(s).len() <= u64::MAX ==> json::number_in(json::member(r, "infra_failures"@))
                == Some(lost(s).len() as u64)
            &&& json::member(r, "cases"@) matches Some(json::JsonView::List(cs)) && cs.len()
                == lost(s).len() && (0 <= i < cs.len() ==> {
                &&& json::text_in(json::member(cs[i], "case"@)) == Some(lost(s)[i].name)
                &&& json::text_in(json::member(cs[i], "reason"@)) == Some(
                    lost(s)[i].health->Infra_reason,
                )
                &&& json::text_in(json::member(cs[i], "detail"@)) == Some(
                    lost(s)[i].health->Infra_detail,
                )
                &&& json::text_in(json::member(cs[i], "log"@)) == Some(lost(s)[i].log)
            })
        }),
        record_file(generated) == paths::joined(generated, "INFRA_FAILURES.json"@),
{
    reveal_strlit("generated");
    reveal_strlit("runs_audited");
    reveal_strlit("infra_failures");
    reveal_strlit("cases");
    reveal_strlit("case");
    reveal_strlit("reason");
    reveal_strlit("detail");
    reveal_strlit("log");
    assert("generated"@.len() == 9 && "runs_audited"@.len() == 12 && "infra_failures"@.len() == 14
        && "cases"@.len() == 5 && "case"@.len() == 4 && "log"@.len() == 3);
    assert("reason"@[0] == 'r' && "detail"@[0] == 'd');
}

/// A run with lost cases is refused with the report and where it was written, or scored with it as a
/// warning.
pub proof fn law_a_refusal_and_a_warning_hold_the_report(report: Seq<char>, dir: Seq<char>)
    ensures
        text::begins(refusal(report, dir), report),
        text::ends(refusal(report, dir), dir + "/INFRA_FAILURES.json"@),
        text::found(warning(report), report),
        text::begins(warning(report), "⚠️  --allow-infra-failures: scoring"@),
{
    let r = refusal(report, dir);
    let e = dir + "/INFRA_FAILURES.json"@;
    assert(r.subrange(0, report.len() as int) =~= report);
    assert(r.subrange(r.len() - e.len(), r.len() as int) =~= e);
    text::lemma_found_inside(
        "⚠️  --allow-infra-failures: scoring despite dead agent runs.\n"@,
        report,
        "These cases have no measurement; treat any number derived from them as unsupported."@,
    );
    reveal_strlit("⚠️  --allow-infra-failures: scoring despite dead agent runs.\n");
    reveal_strlit("⚠️  --allow-infra-failures: scoring");
    let w = warning(report);
    let b = "⚠️  --allow-infra-failures: scoring"@;
    assert(w.subrange(0, b.len() as int) =~= b);
}

/// The cost of a run is the last that its transcript reports.
pub proof fn law_the_last_reported_cost_counts(lines: Seq<Seq<char>>, line: Seq<char>)
    ensures
        cost_of(line) is Some ==> last_cost(lines.push(line)) == cost_of(line),
        cost_of(line) is None ==> last_cost(lines.push(line)) == last_cost(lines),
        last_cost(Seq::empty()) is None,
        json::read(line) is None ==> cost_of(line) is None,
        json::read(line) is Some && json::member(json::read(line)->0, "total_cost_usd"@) is None
            ==> cost_of(line) is None,
        json::read(line) is Some && (json::member(json::read(line)->0, "total_cost_usd"@) matches Some(
            c,
        ) && c is Number) ==> cost_of(line) == Some(
            json::compact_form(json::member(json::read(line)->0, "total_cost_usd"@)->0),
        ),
{
    assert(lines.push(line).drop_last() =~= lines);
}

/// A case is lost where its run ended for a reason outside of it, and only there.
pub proof fn law_only_infrastructure_loses_a_case(s: Seq<CaseView>, c: CaseView)
    ensures
        lost(s).contains(c) <==> exists|k: int| 0 <= k < s.len() && (#[trigger] s[k]) == c && c.health is Infra,
    decreases s.len(),
{
    let all = lost(s);
    if s.len() > 0 {
        let d = s.drop_last();
        let before = lost(d);
        law_only_infrastructure_loses_a_case(d, c);
        if all.contains(c) {
            let i = choose|i: int| 0 <= i < all.len() && all[i] == c;
            if i < before.len() {
                assert(before[i] == c);
                let k = choose|k: int| 0 <= k < d.len() && (#[trigger] d[k]) == c && c.health is Infra;
                assert(s[k] == d[k]);
            } else {
                assert(s[s.len() - 1] == s.last());
            }
        }
        if exists|k: int| 0 <= k < s.len() && (#[trigger] s[k]) == c && c.health is Infra {
            let k = choose|k: int| 0 <= k < s.len() && (#[trigger] s[k]) == c && c.health is Infra;
            if k < d.len() {
                assert(d[k] == s[k]);
                let i = choose|i: int| 0 <= i < before.len() && before[i] == c;
                assert(all[i] == c);
            } else {
                assert(all[all.len() - 1] == c);
            }
        }
    }
}

} // verus!
