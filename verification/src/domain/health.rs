//! Did the agent actually run, or did the infrastructure fail?
//!
//! A case whose agent never got to run has no measurement and must not be scored as one. The
//! discriminator of a stream-json log is `terminal_reason`, never `subtype`, which reads
//! `"success"` in the record of a dead run too. The exit code of the process is corroborating
//! detail only: a test binary that a resource limit killed fails commands inside a session that is
//! itself fine, and that is a result.

use crate::text;
use vstd::prelude::*;
use vstd::string::*;

verus! {

/// What the transcript proved about the model pin.
#[derive(Debug, Clone, Copy, PartialEq, Eq, Structural)]
pub enum PinReport {
    /// The session reported the model, and it is the one asked for.
    Confirmed,
    /// The transcript carries no model record. Not a pass: it is recorded as such.
    NotReported,
}

impl Default for PinReport {
    fn default() -> (r: PinReport)
        ensures
            r == PinReport::NotReported,
    {
        PinReport::NotReported
    }
}

/// What a backend's log can prove about completion on its own.
#[derive(Copy, Clone, Debug, PartialEq, Eq, Structural)]
pub enum LogFormat {
    /// Stream-json with a terminal record, whose absence means truncation.
    StreamJson,
    /// The dialect of `codex exec --json`: `turn.completed` and `turn.failed`.
    CodexJson,
    /// Prose or tool output. It proves nothing, so the exit status is the only evidence.
    Opaque,
}

/// The live observation of how the agent process ended.
#[derive(Copy, Clone, Debug, PartialEq, Eq, Structural)]
pub enum Exit {
    /// It exited with status zero.
    Success,
    /// It exited with another status, or by a signal where there is no code.
    Failure {
        code: Option<i32>,
    },
    /// Killed at the wall clock after the transcript had gone silent: the agent was hung.
    Timeout,
    /// Killed at the wall clock while still writing: the agent worked and did not converge.
    Exhausted,
    /// Nobody watched, which is not to say that something went wrong.
    Unobserved,
}

/// Why a provider declined.
#[derive(Debug, Clone, PartialEq, Eq, Structural)]
pub enum RefusalKind {
    /// The provider's own safety classifier flagged the request.
    HighRiskCyberActivity,
}

/// What became of a run.
#[derive(Debug, Clone, PartialEq, Eq)]
pub enum Health {
    /// Ran to completion. Says nothing about whether the result is right.
    Completed,
    /// Did not finish for a reason outside the thing being measured.
    Infra { reason: String, detail: String },
    /// Used its whole wall-clock ceiling and was killed while working.
    Exhausted { secs: u64 },
    /// The provider declined on content grounds, and will again.
    Refused { kind: RefusalKind, detail: String },
    /// No evidence either way. Not a failure.
    Unknown { why: String },
}

/// What a `Health` says, with its texts as character sequences.
pub enum HealthView {
    Completed,
    Infra { reason: Seq<char>, detail: Seq<char> },
    Exhausted { secs: u64 },
    Refused { kind: RefusalKind, detail: Seq<char> },
    Unknown { why: Seq<char> },
}

impl View for Health {
    type V = HealthView;

    open spec fn view(&self) -> HealthView {
        match *self {
            Health::Completed => HealthView::Completed,
            Health::Infra { reason, detail } => HealthView::Infra {
                reason: reason@,
                detail: detail@,
            },
            Health::Exhausted { secs } => HealthView::Exhausted { secs },
            Health::Refused { kind, detail } => HealthView::Refused { kind, detail: detail@ },
            Health::Unknown { why } => HealthView::Unknown { why: why@ },
        }
    }
}

impl HealthView {
    /// The tool answered, and the answer is no.
    pub open spec fn tool_answered_no(self) -> bool {
        self is Refused || self is Exhausted
    }
}

/// Proof that a run finished. Only [`Health::completed`] makes one.
#[derive(Debug)]
pub struct Completed {
    of: (),
}

impl Health {
    /// The proof that the run finished, where it did.
    pub fn completed(&self) -> (r: Option<Completed>)
        ensures
            r is Some <==> self@ is Completed,
    {
        match self {
            Health::Completed => Some(Completed { of: () }),
            _ => None,
        }
    }

    /// Whether the run finished.
    pub fn is_completed(&self) -> (r: bool)
        ensures
            r == (self@ is Completed),
    {
        matches!(self, Health::Completed)
    }

    /// Whether the infrastructure failed.
    pub fn is_infra(&self) -> (r: bool)
        ensures
            r == (self@ is Infra),
    {
        matches!(self, Health::Infra { .. })
    }

    /// The refusal, where the provider declined.
    pub fn refusal(&self) -> (r: Option<&RefusalKind>)
        ensures
            r == (match self@ {
                HealthView::Refused { kind, detail: _ } => Some(&kind),
                _ => None,
            }),
    {
        match self {
            Health::Refused { kind, .. } => Some(kind),
            _ => None,
        }
    }

    /// Whether the tool answered no: it declined, or spent the whole budget without finishing. The
    /// case is scored as a failure and the battery still publishes.
    pub fn is_tool_answer_failure(&self) -> (r: bool)
        ensures
            r == self@.tool_answered_no(),
    {
        matches!(self, Health::Refused { .. } | Health::Exhausted { .. })
    }
}

// ---------------------------------------------------------------------------
// Scanning a transcript
// ---------------------------------------------------------------------------

/// The opening of the string field `key`.
pub open spec fn str_opening(key: Seq<char>) -> Seq<char> {
    "\""@ + key + "\":\""@
}

/// The opening of the field `key`.
pub open spec fn field_opening(key: Seq<char>) -> Seq<char> {
    "\""@ + key + "\":"@
}

/// What follows the last `opening`.
pub open spec fn after_last(hay: Seq<char>, opening: Seq<char>) -> Option<Seq<char>> {
    match text::last_index(hay, opening) {
        Some(i) => Some(hay.subrange(i + opening.len(), hay.len() as int)),
        None => None,
    }
}

/// The last string field `key`: what stands between its opening and the next quote.
pub open spec fn last_str_in(hay: Seq<char>, key: Seq<char>) -> Option<Seq<char>> {
    match after_last(hay, str_opening(key)) {
        Some(rest) => match text::index_from(rest, "\""@, 0) {
            Some(end) => Some(rest.subrange(0, end)),
            None => None,
        },
        None => None,
    }
}

/// The last boolean field `key`.
pub open spec fn last_bool_in(hay: Seq<char>, key: Seq<char>) -> Option<bool> {
    match after_last(hay, field_opening(key)) {
        Some(rest) => if text::begins(text::trimmed_start(rest), "true"@) {
            Some(true)
        } else if text::begins(text::trimmed_start(rest), "false"@) {
            Some(false)
        } else {
            None
        },
        None => None,
    }
}

/// The digits at the front of a text.
pub open spec fn leading_digits(s: Seq<char>) -> Seq<char>
    decreases s.len(),
{
    if s.len() > 0 && text::is_digit(s[0]) {
        seq![s[0]] + leading_digits(s.subrange(1, s.len() as int))
    } else {
        Seq::empty()
    }
}

/// The last numeric field `key`: the digits behind its opening, where they stand for an `i64`.
pub open spec fn last_num_in(hay: Seq<char>, key: Seq<char>) -> Option<nat> {
    match after_last(hay, field_opening(key)) {
        Some(rest) => {
            let digits = leading_digits(text::trimmed_start(rest));
            if digits.len() > 0 && text::numeral_value(digits) <= i64::MAX {
                Some(text::numeral_value(digits))
            } else {
                None
            }
        },
        None => None,
    }
}

/// At most the first `n` characters.
pub open spec fn at_most(s: Seq<char>, n: int) -> Seq<char> {
    if s.len() <= n {
        s
    } else {
        s.subrange(0, n)
    }
}

/// The first 160 characters of the last `result`, behind a colon; nothing where it is absent or
/// empty.
pub open spec fn result_note(tail: Seq<char>) -> Seq<char> {
    match last_str_in(tail, "result"@) {
        Some(r) => if r.len() > 0 {
            ": "@ + at_most(r, 160)
        } else {
            ""@
        },
        None => ""@,
    }
}

fn rest_after_last(hay: &[char], opening: &[char]) -> (r: Option<Vec<char>>)
    ensures
        r is Some <==> after_last(hay@, opening@) is Some,
        r matches Some(v) ==> after_last(hay@, opening@) == Some(v@),
{
    match text::rfind(hay, opening) {
        Some(i) => {
            let end: usize = hay.len();
            assert(text::occurs_at(hay@, opening@, i as int));
            Some(text::cut(hay, i + opening.len(), end))
        },
        None => None,
    }
}

/// The last string field `key`.
pub fn last_str(hay: &str, key: &str) -> (r: Option<String>)
    ensures
        r is Some <==> last_str_in(hay@, key@) is Some,
        r matches Some(s) ==> last_str_in(hay@, key@) == Some(s@),
{
    let h = text::chars_of(hay);
    let opening = text::chars_of(text::join3("\"", key, "\":\"").as_str());
    let rest = match rest_after_last(&h, &opening) {
        Some(v) => v,
        None => {
            return None;
        },
    };
    let quote = text::chars_of("\"");
    match text::find_from(&rest, &quote, 0) {
        Some(end) => Some(text::string_of(&text::cut(&rest, 0, end))),
        None => None,
    }
}

/// The last boolean field `key`.
pub fn last_bool(hay: &str, key: &str) -> (r: Option<bool>)
    ensures
        r == last_bool_in(hay@, key@),
{
    let h = text::chars_of(hay);
    let opening = text::chars_of(text::join3("\"", key, "\":").as_str());
    let rest = match rest_after_last(&h, &opening) {
        Some(v) => text::trim_start(&v),
        None => {
            return None;
        },
    };
    if text::starts_with(&rest, &text::chars_of("true")) {
        Some(true)
    } else if text::starts_with(&rest, &text::chars_of("false")) {
        Some(false)
    } else {
        None
    }
}

fn take_digits(h: &[char]) -> (r: Vec<char>)
    ensures
        r@ == leading_digits(h@),
        text::all_digits(r@),
{
    let mut out: Vec<char> = Vec::new();
    let mut i: usize = 0;
    assert(h@.subrange(0, h.len() as int) =~= h@);
    assert(out@ + leading_digits(h@) =~= leading_digits(h@));
    while i < h.len() && text::digit(h[i])
        invariant
            i <= h.len(),
            text::all_digits(out@),
            out@ + leading_digits(h@.subrange(i as int, h.len() as int)) == leading_digits(h@),
        decreases h.len() - i,
    {
        let ghost rest = h@.subrange(i as int, h.len() as int);
        let ghost o0 = out@;
        out.push(h[i]);
        proof {
            assert(rest.subrange(1, rest.len() as int) =~= h@.subrange(i + 1, h.len() as int));
            assert(out@ + leading_digits(h@.subrange(i + 1, h.len() as int)) =~= o0
                + leading_digits(rest));
        }
        i = i + 1;
    }
    assert(leading_digits(h@.subrange(i as int, h.len() as int)) =~= Seq::<char>::empty());
    assert(out@ =~= leading_digits(h@));
    out
}

/// The last numeric field `key`.
pub fn last_num(hay: &str, key: &str) -> (r: Option<i64>)
    ensures
        r is Some <==> last_num_in(hay@, key@) is Some,
        r matches Some(n) ==> n >= 0 && last_num_in(hay@, key@) == Some(n as nat),
{
    let h = text::chars_of(hay);
    let opening = text::chars_of(text::join3("\"", key, "\":").as_str());
    let rest = match rest_after_last(&h, &opening) {
        Some(v) => text::trim_start(&v),
        None => {
            return None;
        },
    };
    let digits = take_digits(&rest);
    match text::read_digits(&digits) {
        Some(n) => if n <= i64::MAX as u64 {
            Some(n as i64)
        } else {
            None
        },
        None => None,
    }
}

/// The first 160 characters of the last `result`, behind a colon.
pub fn first_line_of_result(tail: &str) -> (r: String)
    ensures
        r@ == result_note(tail@),
{
    match last_str(tail, "result") {
        Some(s) => {
            let v = text::chars_of(s.as_str());
            if v.len() == 0 {
                text::copy("")
            } else {
                let n: usize = if v.len() <= 160 {
                    v.len()
                } else {
                    160
                };
                let head = text::cut(&v, 0, n);
                assert(head@ =~= at_most(v@, 160));
                text::join2(": ", text::string_of(&head).as_str())
            }
        },
        None => text::copy(""),
    }
}

// ---------------------------------------------------------------------------
// What a provider said
// ---------------------------------------------------------------------------

/// The provider's own "come back later", by the words it uses, in any case of letters.
pub open spec fn transient_reason(message: Seq<char>) -> Option<&'static str> {
    let m = text::lowered(message);
    if text::found(m, "temporarily unavailable"@) {
        Some("model_unavailable")
    } else if text::found(m, "throttl"@) || text::found(m, "rate limit"@) || text::found(
        m,
        "too many requests"@,
    ) {
        Some("throttled")
    } else if text::found(m, "service unavailable"@) || text::found(m, "bad gateway"@) {
        Some("service_unavailable")
    } else {
        None
    }
}

/// The message carries one of the provider's marks of a content refusal.
pub open spec fn declines(message: Seq<char>) -> bool {
    let m = text::lowered(message);
    ||| text::found(m, "/guides/safety-checks"@)
    ||| text::found(m, "flagged for potentially high-risk"@)
    ||| text::found(m, "high-risk cyber activity"@)
}

fn says(h: &[char], n: &str) -> (r: bool)
    ensures
        r == text::found(h@, n@),
{
    text::contains(h, &text::chars_of(n))
}

/// The provider's own "come back later". Narrow: a genuine tool failure is none.
pub fn provider_transient(message: &str) -> (r: Option<&'static str>)
    ensures
        r == transient_reason(message@),
{
    let m = text::to_lower(&text::chars_of(message));
    if says(&m, "temporarily unavailable") {
        return Some("model_unavailable");
    }
    if says(&m, "throttl") || says(&m, "rate limit") || says(&m, "too many requests") {
        return Some("throttled");
    }
    if says(&m, "service unavailable") || says(&m, "bad gateway") {
        return Some("service_unavailable");
    }
    None
}

/// The provider's own mark of a content refusal.
pub fn provider_refusal(message: &str) -> (r: Option<RefusalKind>)
    ensures
        r == (if declines(message@) {
            Some(RefusalKind::HighRiskCyberActivity)
        } else {
            None
        }),
{
    let m = text::to_lower(&text::chars_of(message));
    if says(&m, "/guides/safety-checks") || says(&m, "flagged for potentially high-risk") || says(
        &m,
        "high-risk cyber activity",
    ) {
        Some(RefusalKind::HighRiskCyberActivity)
    } else {
        None
    }
}

// ---------------------------------------------------------------------------
// The verdict
// ---------------------------------------------------------------------------

/// What a codex log says. A completed turn settles it; a failed one is a refusal or an
/// infrastructure failure by its last message; a log with neither was cut off.
pub open spec fn codex_verdict(tail: Seq<char>) -> HealthView {
    if text::found(tail, "\"type\":\"turn.completed\""@) {
        HealthView::Completed
    } else if text::found(tail, "\"type\":\"turn.failed\""@) {
        let detail = match last_str_in(tail, "message"@) {
            Some(m) => m,
            None => "codex reported turn.failed"@,
        };
        if declines(detail) {
            HealthView::Refused { kind: RefusalKind::HighRiskCyberActivity, detail }
        } else {
            HealthView::Infra { reason: "turn.failed"@, detail }
        }
    } else {
        HealthView::Infra {
            reason: "truncated"@,
            detail: "no codex terminal record: the agent was killed before finishing"@,
        }
    }
}

/// The note of an HTTP status.
pub open spec fn status_note(tail: Seq<char>) -> Seq<char> {
    match last_num_in(tail, "api_error_status"@) {
        Some(n) => " (HTTP "@ + text::numeral(n) + ")"@,
        None => ""@,
    }
}

/// What a stream-json log says: its last `terminal_reason`; failing that its last `is_error`; with
/// no terminal record at all it was cut off, unless it is prose of kiro.
pub open spec fn stream_verdict(tail: Seq<char>) -> HealthView {
    if !text::found(tail, "\"type\":\"result\""@) && !text::found(tail, "\"terminal_reason\""@) {
        if text::found(tail, "Credits:"@) {
            HealthView::Unknown { why: "kiro-cli log, no terminal record"@ }
        } else {
            HealthView::Infra {
                reason: "truncated"@,
                detail: "no terminal record: the agent was killed before finishing"@,
            }
        }
    } else {
        match last_str_in(tail, "terminal_reason"@) {
            Some(reason) => if reason != "completed"@ {
                HealthView::Infra {
                    reason,
                    detail: "terminal_reason="@ + reason + status_note(tail) + result_note(tail),
                }
            } else {
                HealthView::Completed
            },
            None => match last_bool_in(tail, "is_error"@) {
                Some(true) => HealthView::Infra {
                    reason: "is_error"@,
                    detail: "is_error=true"@ + result_note(tail),
                },
                Some(false) => HealthView::Completed,
                None => HealthView::Unknown {
                    why: "terminal record has neither terminal_reason nor is_error"@,
                },
            },
        }
    }
}

/// How the exit code of a failed agent reads.
pub open spec fn code_words(code: Option<i32>) -> Seq<char> {
    match code {
        Some(c) => text::signed_numeral(c as int),
        None => "by signal"@,
    }
}

/// What an opaque log and the exit say together: the exit carries the burden of proof, and the
/// provider's "come back later" is told apart from a tool that failed.
pub open spec fn opaque_verdict(log: Seq<char>, exit: Exit) -> HealthView {
    match exit {
        Exit::Exhausted => HealthView::Exhausted { secs: 0 },
        Exit::Success => HealthView::Completed,
        Exit::Timeout => HealthView::Infra {
            reason: "timeout"@,
            detail: "the agent was killed at the wall clock"@,
        },
        Exit::Failure { code } => match transient_reason(log) {
            Some(reason) => HealthView::Infra {
                reason: reason@,
                detail: "the provider reported a transient failure"@,
            },
            None => HealthView::Unknown { why: "opaque log, agent exited "@ + code_words(code) },
        },
        Exit::Unobserved => HealthView::Unknown { why: "opaque log and no observed exit status"@ },
    }
}

/// The verdict on a run: a kill of a session that was still writing is exhaustion whatever the
/// backend, and then the log's own dialect decides.
pub open spec fn verdict(log: Seq<char>, format: LogFormat, exit: Exit) -> HealthView {
    if exit == Exit::Exhausted {
        HealthView::Exhausted { secs: 0 }
    } else {
        match format {
            LogFormat::StreamJson => stream_verdict(log),
            LogFormat::CodexJson => codex_verdict(log),
            LogFormat::Opaque => opaque_verdict(log, exit),
        }
    }
}

/// Classifies a codex log.
pub fn classify_codex_json(tail: &str) -> (r: Health)
    ensures
        r@ == codex_verdict(tail@),
{
    if text::has_text(tail, "\"type\":\"turn.completed\"") {
        return Health::Completed;
    }
    if text::has_text(tail, "\"type\":\"turn.failed\"") {
        let detail = match last_str(tail, "message") {
            Some(m) => m,
            None => text::copy("codex reported turn.failed"),
        };
        return match provider_refusal(detail.as_str()) {
            Some(kind) => Health::Refused { kind, detail },
            None => Health::Infra { reason: text::copy("turn.failed"), detail },
        };
    }
    Health::Infra {
        reason: text::copy("truncated"),
        detail: text::copy("no codex terminal record: the agent was killed before finishing"),
    }
}

fn status_words(tail: &str) -> (r: String)
    ensures
        r@ == status_note(tail@),
{
    match last_num(tail, "api_error_status") {
        Some(n) => text::join3(" (HTTP ", text::numeral_of(n as u64).as_str(), ")"),
        None => text::copy(""),
    }
}

/// Classifies a stream-json log.
pub fn classify_stream_json(tail: &str) -> (r: Health)
    ensures
        r@ == stream_verdict(tail@),
{
    if !text::has_text(tail, "\"type\":\"result\"") && !text::has_text(
        tail,
        "\"terminal_reason\"",
    ) {
        if text::has_text(tail, "Credits:") {
            return Health::Unknown { why: text::copy("kiro-cli log, no terminal record") };
        }
        return Health::Infra {
            reason: text::copy("truncated"),
            detail: text::copy("no terminal record: the agent was killed before finishing"),
        };
    }
    if let Some(reason) = last_str(tail, "terminal_reason") {
        if !text::same_text(reason.as_str(), "completed") {
            let mut detail = text::join2("terminal_reason=", reason.as_str());
            detail.append(status_words(tail).as_str());
            detail.append(first_line_of_result(tail).as_str());
            return Health::Infra { reason, detail };
        }
        return Health::Completed;
    }
    match last_bool(tail, "is_error") {
        Some(true) => Health::Infra {
            reason: text::copy("is_error"),
            detail: text::join2("is_error=true", first_line_of_result(tail).as_str()),
        },
        Some(false) => Health::Completed,
        None => Health::Unknown {
            why: text::copy("terminal record has neither terminal_reason nor is_error"),
        },
    }
}

/// Classifies a run from its transcript and how the process ended.
pub fn classify(text: &str, format: LogFormat, exit: Exit) -> (r: Health)
    ensures
        r@ == verdict(text@, format, exit),
{
    if exit == Exit::Exhausted {
        return Health::Exhausted { secs: 0 };
    }
    match format {
        LogFormat::StreamJson => classify_stream_json(text),
        LogFormat::CodexJson => classify_codex_json(text),
        LogFormat::Opaque => match exit {
            Exit::Exhausted => Health::Exhausted { secs: 0 },
            Exit::Success => Health::Completed,
            Exit::Timeout => Health::Infra {
                reason: text::copy("timeout"),
                detail: text::copy("the agent was killed at the wall clock"),
            },
            Exit::Failure { code } => match provider_transient(text) {
                Some(reason) => Health::Infra {
                    reason: text::copy(reason),
                    detail: text::copy("the provider reported a transient failure"),
                },
                None => {
                    let words = match code {
                        Some(c) => text::signed_numeral_of(c),
                        None => text::copy("by signal"),
                    };
                    Health::Unknown {
                        why: text::join2("opaque log, agent exited ", words.as_str()),
                    }
                },
            },
            Exit::Unobserved => Health::Unknown {
                why: text::copy("opaque log and no observed exit status"),
            },
        },
    }
}

// ---------------------------------------------------------------------------
// Laws
// ---------------------------------------------------------------------------

/// Which backend it was does not decide what a wall-clock kill of a working session is: it is
/// exhaustion for every log, which is the tool's answer and no infrastructure failure.
pub proof fn law_exhaustion_is_the_same_for_every_backend(
    log: Seq<char>,
    format: LogFormat,
)
    ensures
        verdict(log, format, Exit::Exhausted) == (HealthView::Exhausted { secs: 0 }),
        verdict(log, format, Exit::Exhausted).tool_answered_no(),
        !(verdict(log, format, Exit::Exhausted) is Infra),
{
}

/// The verdict of a log with a terminal record of its own is never overridden by the exit status.
pub proof fn law_a_log_with_its_own_record_ignores_the_exit(
    log: Seq<char>,
    format: LogFormat,
    one: Exit,
    other: Exit,
)
    requires
        format != LogFormat::Opaque,
        one != Exit::Exhausted,
        other != Exit::Exhausted,
    ensures
        verdict(log, format, one) == verdict(log, format, other),
{
}

/// An opaque log completes on a clean exit and on nothing else.
pub proof fn law_an_opaque_log_completes_only_on_success(log: Seq<char>, exit: Exit)
    ensures
        verdict(log, LogFormat::Opaque, exit) is Completed <==> exit == Exit::Success,
{
}

/// A tool that ran and failed stays in the denominator: without the provider's own words of a
/// passing failure it is never an infrastructure failure, whatever its code.
pub proof fn law_a_tool_failure_is_not_infrastructure(log: Seq<char>, code: Option<i32>)
    ensures
        verdict(log, LogFormat::Opaque, Exit::Failure { code }) is Infra <==> transient_reason(
            log,
        ) is Some,
{
}

/// A stream-json log completes only by its terminal reason or, where it has none, by `is_error`.
/// What `subtype` says plays no part.
pub proof fn law_a_stream_completes_only_by_its_terminal_record(log: Seq<char>)
    ensures
        stream_verdict(log) is Completed ==> last_str_in(log, "terminal_reason"@) == Some(
            "completed"@,
        ) || (last_str_in(log, "terminal_reason"@) is None && last_bool_in(log, "is_error"@)
            == Some(false)),
{
}

/// No verdict is both the tool's answer and an infrastructure failure, and none that either says is
/// a completed run.
pub proof fn law_the_verdicts_exclude_each_other(h: HealthView)
    ensures
        !(h.tool_answered_no() && h is Infra),
        h is Completed ==> !h.tool_answered_no() && !(h is Infra),
{
}

/// A failed run without a record of its own is infrastructure where the provider said so, in any case
/// of letters, by one of six phrases, and never without one. What it said names the reason: that the
/// model is away before that it is asked too much, and that before that the service is.
pub proof fn law_a_passing_failure_is_told_by_the_words_of_the_provider(
    log: Seq<char>,
    code: Option<i32>,
)
    ensures
        ({
            let m = text::lowered(log);
            let away = text::found(m, "temporarily unavailable"@);
            let asked = text::found(m, "throttl"@) || text::found(m, "rate limit"@) || text::found(
                m,
                "too many requests"@,
            );
            let down = text::found(m, "service unavailable"@) || text::found(m, "bad gateway"@);
            match verdict(log, LogFormat::Opaque, Exit::Failure { code }) {
                HealthView::Infra { reason, detail } => {
                    &&& away || asked || down
                    &&& away ==> reason == "model_unavailable"@
                    &&& asked && !away ==> reason == "throttled"@
                    &&& down && !away && !asked ==> reason == "service_unavailable"@
                },
                HealthView::Unknown { why } => {
                    &&& !away && !asked && !down
                    &&& text::begins(why, "opaque log, agent exited "@)
                    &&& code is None ==> text::ends(why, "by signal"@)
                    &&& code matches Some(c) ==> text::ends(why, text::signed_numeral(c as int))
                },
                _ => false,
            }
        }),
{
    let why = "opaque log, agent exited "@ + code_words(code);
    let head = "opaque log, agent exited "@;
    assert(why.subrange(0, head.len() as int) =~= head);
    assert(why.subrange(why.len() - code_words(code).len(), why.len() as int) =~= code_words(
        code,
    ));
}

/// The case of letters never decides what a provider said.
pub proof fn law_a_provider_is_heard_in_any_case_of_letters(one: Seq<char>, other: Seq<char>, i: int)
    requires
        one.len() == other.len(),
        forall|k: int|
            0 <= k < one.len() ==> {
                ||| #[trigger] one[k] == other[k]
                ||| 'A' <= one[k] <= 'Z' && other[k] as int == one[k] as int + 32
                ||| 'A' <= other[k] <= 'Z' && one[k] as int == other[k] as int + 32
            },
    ensures
        transient_reason(one) == transient_reason(other),
        declines(one) == declines(other),
        0 <= i < one.len() ==> !('A' <= text::lowered(one)[i] <= 'Z'),
        0 <= i < one.len() && !('A' <= one[i] <= 'Z') ==> text::lowered(one)[i] == one[i],
{
    assert forall|k: int| 0 <= k < one.len() implies text::lowered(one)[k] == text::lowered(
        other,
    )[k] by {
        let a = one[k];
        let b = other[k];
        assert(text::lowered(one)[k] == text::lower(a));
        assert(text::lowered(other)[k] == text::lower(b));
    }
    assert(text::lowered(one) =~= text::lowered(other));
}

/// What an opaque log cannot say, the exit does: a run that was killed when silent is infrastructure,
/// and of one that nobody watched nothing is known.
pub proof fn law_the_exit_speaks_for_an_opaque_log(log: Seq<char>)
    ensures
        verdict(log, LogFormat::Opaque, Exit::Timeout) matches HealthView::Infra { reason, detail }
            && reason == "timeout"@,
        verdict(log, LogFormat::Opaque, Exit::Unobserved) is Unknown,
        verdict(log, LogFormat::Opaque, Exit::Success) is Completed,
{
}

/// A codex run is finished by a completed turn, whatever else stands in the log. A failed turn is a
/// refusal where its last message holds one of the provider's three marks, and infrastructure where
/// not; a log with neither was cut off.
pub proof fn law_a_codex_turn_decides(log: Seq<char>, exit: Exit)
    requires
        exit != Exit::Exhausted,
    ensures
        ({
            let done = text::found(log, "\"type\":\"turn.completed\""@);
            let failed = text::found(log, "\"type\":\"turn.failed\""@);
            let said = match last_str_in(log, "message"@) {
                Some(m) => m,
                None => Seq::empty(),
            };
            let m = text::lowered(said);
            let marked = text::found(m, "/guides/safety-checks"@) || text::found(
                m,
                "flagged for potentially high-risk"@,
            ) || text::found(m, "high-risk cyber activity"@);
            match verdict(log, LogFormat::CodexJson, exit) {
                HealthView::Completed => done,
                HealthView::Refused { kind, detail } => !done && failed && marked && detail == said,
                HealthView::Infra { reason, detail } => {
                    &&& !done
                    &&& reason == if failed {
                        "turn.failed"@
                    } else {
                        "truncated"@
                    }
                    &&& failed ==> !marked
                    &&& failed && last_str_in(log, "message"@) is Some ==> detail == said
                },
                _ => false,
            }
        }),
{
    reveal_strlit("codex reported turn.failed");
    reveal_strlit("/guides/safety-checks");
    reveal_strlit("flagged for potentially high-risk");
    reveal_strlit("high-risk cyber activity");
    let none = Seq::<char>::empty();
    let word = "codex reported turn.failed"@;
    if last_str_in(log, "message"@) is None {
        assert forall|n: Seq<char>, i: int| n.len() > 0 implies !text::occurs_at(
            text::lowered(none),
            n,
            i,
        ) by {}
        let l = text::lowered(word);
        let a = "/guides/safety-checks"@;
        assert forall|i: int| !text::occurs_at(l, a, i) by {
            if text::occurs_at(l, a, i) {
                assert(l.subrange(i, i + a.len())[0] == a[0]);
                assert(l[i] == '/');
                assert(text::lower(word[i]) == '/');
            }
        }
        assert forall|i: int| !text::occurs_at(l, "flagged for potentially high-risk"@, i) by {}
        let c = "high-risk cyber activity"@;
        assert forall|i: int| !text::occurs_at(l, c, i) by {
            if text::occurs_at(l, c, i) {
                assert(l.subrange(i, i + c.len())[0] == c[0]);
                assert(l.subrange(i, i + c.len())[1] == c[1]);
                assert(l[i] == 'h');
                assert(text::lower(word[i]) == 'h');
            }
        }
    }
}

/// What a stream says of its end is its last terminal record: the reason where there is one, then
/// whether it was an error. A stream without a record was cut off, unless it is prose of another
/// program, of which nothing is known.
pub proof fn law_the_last_record_of_a_stream_decides(log: Seq<char>, exit: Exit)
    requires
        exit != Exit::Exhausted,
    ensures
        ({
            let record = text::found(log, "\"type\":\"result\""@) || text::found(
                log,
                "\"terminal_reason\""@,
            );
            let reason = last_str_in(log, "terminal_reason"@);
            let error = last_bool_in(log, "is_error"@);
            let v = verdict(log, LogFormat::StreamJson, exit);
            &&& v is Completed <==> record && (reason == Some("completed"@) || (reason is None
                && error == Some(false)))
            &&& v is Unknown <==> (!record && text::found(log, "Credits:"@)) || (record && reason
                is None && error is None)
            &&& !record && v is Infra ==> v->Infra_reason == "truncated"@
            &&& record && reason is Some && reason != Some("completed"@) ==> {
                &&& v matches HealthView::Infra { reason: told, detail }
                &&& told == reason->0
                &&& text::begins(detail, "terminal_reason="@ + reason->0)
                &&& text::ends(detail, result_note(log))
            }
            &&& record && reason is None && error == Some(true) ==> {
                &&& v matches HealthView::Infra { reason: told, detail }
                &&& told == "is_error"@
                &&& text::ends(detail, result_note(log))
            }
            &&& !(v is Refused)
            &&& !(v is Exhausted)
        }),
{
    match stream_verdict(log) {
        HealthView::Infra { reason, detail } => {
            let head = "terminal_reason="@ + reason;
            let n = result_note(log);
            if detail == head + status_note(log) + n {
                assert(detail.subrange(0, head.len() as int) =~= head);
                assert(detail.subrange(detail.len() - n.len(), detail.len() as int) =~= n);
            }
            if detail == "is_error=true"@ + n {
                assert(detail.subrange(detail.len() - n.len(), detail.len() as int) =~= n);
            }
        },
        _ => {},
    }
}

/// A status of the provider's interface is told with the reason, as the number that was last reported.
pub proof fn law_the_status_is_told_with_the_reason(log: Seq<char>, exit: Exit, n: nat)
    requires
        exit != Exit::Exhausted,
        text::found(log, "\"terminal_reason\""@),
        last_str_in(log, "terminal_reason"@) is Some,
        last_str_in(log, "terminal_reason"@) != Some("completed"@),
        last_num_in(log, "api_error_status"@) == Some(n),
    ensures
        verdict(log, LogFormat::StreamJson, exit) matches HealthView::Infra { reason, detail }
            && text::found(detail, "(HTTP "@ + text::numeral(n) + ")"@),
{
    let reason = last_str_in(log, "terminal_reason"@)->0;
    reveal_strlit(" (HTTP ");
    reveal_strlit("(HTTP ");
    reveal_strlit(" ");
    assert(" (HTTP "@ =~= " "@ + "(HTTP "@);
    let said = "(HTTP "@ + text::numeral(n) + ")"@;
    let before = "terminal_reason="@ + reason + " "@;
    let after = result_note(log);
    text::lemma_found_inside(before, said, after);
    assert("terminal_reason="@ + reason + status_note(log) + after =~= before + said + after);
}

/// The last string field of a key stands behind the last place where the key opens one, and holds no
/// quote; the quote that ends it comes right behind.
pub proof fn law_a_field_is_read_where_it_last_stands(hay: Seq<char>, key: Seq<char>, i: int)
    requires
        text::last_at(hay, "\""@ + key + "\":\""@, i),
    ensures
        last_str_in(hay, key) matches Some(v) ==> {
            &&& text::occurs_at(hay, ("\""@ + key + "\":\""@) + v + "\""@, i)
            &&& !v.contains('"')
        },
        last_str_in(hay, key) is None ==> !hay.subrange(
            i + ("\""@ + key + "\":\""@).len(),
            hay.len() as int,
        ).contains('"'),
{
    let opening = "\""@ + key + "\":\""@;
    assert(opening =~= str_opening(key));
    text::lemma_last_index(hay, opening, i);
    let rest = hay.subrange(i + opening.len(), hay.len() as int);
    reveal_strlit("\"");
    let q = "\""@;
    assert(q =~= seq!['"']);
    match text::index_from(rest, q, 0) {
        Some(end) => {
            assert(text::first_from(rest, q, 0, end));
            let v = rest.subrange(0, end);
            assert(rest.subrange(end, end + q.len()) == q);
            let whole = opening + v + q;
            assert(hay.subrange(i, i + opening.len()) == opening);
            assert(hay.subrange(i, i + whole.len()) =~= whole) by {
                assert forall|k: int| 0 <= k < whole.len() implies hay[i + k] == whole[k] by {
                    if k < opening.len() {
                        assert(hay.subrange(i, i + opening.len())[k] == hay[i + k]);
                    } else if k < opening.len() + end {
                        assert(whole[k] == v[k - opening.len()]);
                    } else {
                        assert(rest.subrange(end, end + q.len())[0] == rest[end]);
                    }
                }
            }
            assert forall|k: int| 0 <= k < v.len() implies v[k] != '"' by {
                if v[k] == '"' {
                    assert(rest.subrange(k, k + q.len()) =~= q);
                    assert(text::occurs_at(rest, q, k));
                }
            }
        },
        None => {
            if rest.contains('"') {
                let k = choose|k: int| 0 <= k < rest.len() && rest[k] == '"';
                assert(rest.subrange(k, k + q.len()) =~= q);
                assert(text::occurs_at(rest, q, k));
                text::lemma_first_exists(rest, q, 0, k);
            }
        },
    }
}

/// A truth value is read behind the last place where its key stands, past blanks; anything but the two
/// words is none.
pub proof fn law_a_truth_value_is_read_by_its_word(hay: Seq<char>, key: Seq<char>, i: int)
    requires
        text::last_at(hay, "\""@ + key + "\":"@, i),
    ensures
        ({
            let rest = text::trimmed_start(
                hay.subrange(i + ("\""@ + key + "\":"@).len(), hay.len() as int),
            );
            &&& last_bool_in(hay, key) == Some(true) <==> text::begins(rest, "true"@)
            &&& last_bool_in(hay, key) == Some(false) <==> text::begins(rest, "false"@)
        }),
{
    let opening = "\""@ + key + "\":"@;
    assert(opening =~= field_opening(key));
    text::lemma_last_index(hay, opening, i);
    let rest = text::trimmed_start(hay.subrange(i + opening.len(), hay.len() as int));
    reveal_strlit("true");
    reveal_strlit("false");
    if text::begins(rest, "true"@) && text::begins(rest, "false"@) {
        assert(rest.subrange(0, 4)[0] == 't');
        assert(rest.subrange(0, 5)[0] == 'f');
    }
}

/// A number is read from the digits behind the last place where its key stands, past blanks: all of
/// them, up to the first character that is none.
pub proof fn law_a_number_is_read_by_its_digits(hay: Seq<char>, key: Seq<char>, i: int)
    requires
        text::last_at(hay, "\""@ + key + "\":"@, i),
    ensures
        ({
            let rest = text::trimmed_start(
                hay.subrange(i + ("\""@ + key + "\":"@).len(), hay.len() as int),
            );
            &&& rest.len() == 0 || !('0' <= rest[0] <= '9') ==> last_num_in(hay, key) is None
            &&& last_num_in(hay, key) matches Some(n) ==> exists|k: int|
                0 < k <= rest.len() && n == text::numeral_value(#[trigger] rest.subrange(0, k))
                    && text::all_digits(rest.subrange(0, k)) && (k < rest.len() ==> !('0'
                    <= rest[k] <= '9'))
        }),
{
    let opening = "\""@ + key + "\":"@;
    assert(opening =~= field_opening(key));
    text::lemma_last_index(hay, opening, i);
    let rest = text::trimmed_start(hay.subrange(i + opening.len(), hay.len() as int));
    lemma_leading_digits(rest);
    let k = leading_digits(rest).len() as int;
    assert(rest.subrange(0, k) == leading_digits(rest));
}

proof fn lemma_leading_digits(s: Seq<char>)
    ensures
        leading_digits(s).len() <= s.len(),
        leading_digits(s) == s.subrange(0, leading_digits(s).len() as int),
        text::all_digits(leading_digits(s)),
        leading_digits(s).len() < s.len() ==> !text::is_digit(s[leading_digits(s).len() as int]),
    decreases s.len(),
{
    if s.len() > 0 && text::is_digit(s[0]) {
        let t = s.subrange(1, s.len() as int);
        lemma_leading_digits(t);
        let d = leading_digits(t);
        assert(leading_digits(s) == seq![s[0]] + d);
        assert(leading_digits(s) =~= s.subrange(0, (d.len() + 1) as int));
        assert forall|k: int| 0 <= k < leading_digits(s).len() implies text::is_digit(
            #[trigger] leading_digits(s)[k],
        ) by {
            if k > 0 {
                assert(leading_digits(s)[k] == d[k - 1]);
            }
        }
    } else {
        assert(leading_digits(s) =~= s.subrange(0, 0));
    }
}

/// What is told of a result is a beginning of what was last reported, of 160 characters at most, behind
/// a colon; nothing is told where nothing was reported.
pub proof fn law_a_result_is_told_by_its_beginning(tail: Seq<char>)
    ensures
        match last_str_in(tail, "result"@) {
            None => result_note(tail).len() == 0,
            Some(r) => if r.len() == 0 {
                result_note(tail).len() == 0
            } else {
                &&& result_note(tail).subrange(0, 2) == ": "@
                &&& result_note(tail).len() == 2 + if r.len() < 160 {
                    r.len() as int
                } else {
                    160
                }
                &&& text::begins(
                    r,
                    result_note(tail).subrange(2, result_note(tail).len() as int),
                )
            },
        },
{
    reveal_strlit(": ");
    reveal_strlit("");
    if let Some(r) = last_str_in(tail, "result"@) {
        if r.len() > 0 {
            let n = result_note(tail);
            let m = at_most(r, 160);
            assert(n =~= ": "@ + m);
            assert(n.subrange(0, 2) =~= ": "@);
            assert(n.subrange(2, n.len() as int) =~= m);
            assert(r.subrange(0, m.len() as int) =~= m);
        }
    }
}

} // verus!
