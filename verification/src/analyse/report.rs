//! The published tables, and the invariants that the data they are made of must hold.

use crate::analyse::numbers;
use crate::analyse::records;
use crate::analyse::records::AgentRecord;
use crate::analyse::records::BatteryRow;
use crate::analyse::records::CorpusBattery;
use crate::analyse::records::LaertesDelta;
use crate::analyse::records::Row;
use crate::analyse::tractor;
use crate::program;
use crate::text;
use crate::toml;
use crate::toml::Scalar;
use vstd::prelude::*;
use vstd::string::*;

verus! {

// ---------------------------------------------------------------------------
// Sums over rows
// ---------------------------------------------------------------------------

/// The cases that an agent passed.
pub open spec fn passed_by(rows: Seq<Row>, agent: Seq<char>) -> nat
    decreases rows.len(),
{
    if rows.len() == 0 {
        0
    } else {
        passed_by(rows.drop_last(), agent) + if rows.last().agent == agent {
            rows.last().cases_passed
        } else {
            0
        }
    }
}

/// The cases that an agent was tested on.
pub open spec fn tested_by(rows: Seq<Row>, agent: Seq<char>) -> nat
    decreases rows.len(),
{
    if rows.len() == 0 {
        0
    } else {
        tested_by(rows.drop_last(), agent) + if rows.last().agent == agent {
            rows.last().cases_tested
        } else {
            0
        }
    }
}

/// The lines that an agent wrote.
pub open spec fn loc_by(rows: Seq<Row>, agent: Seq<char>) -> nat
    decreases rows.len(),
{
    if rows.len() == 0 {
        0
    } else {
        loc_by(rows.drop_last(), agent) + if rows.last().agent == agent {
            rows.last().total_loc
        } else {
            0
        }
    }
}

/// The size of a battery: the most cases that any agent was tested on.
pub open spec fn size_of(rows: Seq<Row>, battery: Seq<char>) -> nat
    decreases rows.len(),
{
    if rows.len() == 0 {
        0
    } else {
        let before = size_of(rows.drop_last(), battery);
        if rows.last().battery == battery && rows.last().cases_tested > before {
            rows.last().cases_tested
        } else {
            before
        }
    }
}

/// The last row of an agent and a battery.
pub open spec fn last_row(rows: Seq<Row>, agent: Seq<char>, battery: Seq<char>) -> Option<Row>
    decreases rows.len(),
{
    if rows.len() == 0 {
        None
    } else if rows.last().agent == agent && rows.last().battery == battery {
        Some(rows.last())
    } else {
        last_row(rows.drop_last(), agent, battery)
    }
}

/// Texts that stand in order, each once.
pub open spec fn once(s: Seq<Seq<char>>) -> Seq<Seq<char>>
    decreases s.len(),
{
    if s.len() == 0 {
        Seq::empty()
    } else {
        let before = once(s.drop_last());
        if before.len() > 0 && before.last() == s.last() {
            before
        } else {
            before.push(s.last())
        }
    }
}

/// The batteries, in order and each once.
pub open spec fn batteries_of(rows: Seq<Row>) -> Seq<Seq<char>> {
    once(text::in_order(rows.map_values(|r: Row| r.battery)))
}

/// The agents, in order and each once.
pub open spec fn agents_of(rows: Seq<Row>) -> Seq<Seq<char>> {
    once(text::in_order(rows.map_values(|r: Row| r.agent)))
}

/// The sizes of batteries together.
pub open spec fn sizes(rows: Seq<Row>, names: Seq<Seq<char>>) -> nat
    decreases names.len(),
{
    if names.len() == 0 {
        0
    } else {
        sizes(rows, names.drop_last()) + size_of(rows, names.last())
    }
}

/// The number of cases that there are.
pub open spec fn case_count(rows: Seq<Row>) -> nat {
    sizes(rows, batteries_of(rows))
}

/// The sums over rows fit in 32 bits.
pub open spec fn rows_fit(rows: Seq<Row>) -> bool {
    &&& forall|a: Seq<char>| #[trigger] passed_by(rows, a) <= u32::MAX
    &&& forall|a: Seq<char>| #[trigger] tested_by(rows, a) <= u32::MAX
    &&& forall|a: Seq<char>| #[trigger] loc_by(rows, a) <= u32::MAX
    &&& case_count(rows) <= u32::MAX
}

proof fn lemma_by_grow(rows: Seq<Row>, agent: Seq<char>, n: int)
    requires
        0 <= n <= rows.len(),
    ensures
        passed_by(rows.subrange(0, n), agent) <= passed_by(rows, agent),
        tested_by(rows.subrange(0, n), agent) <= tested_by(rows, agent),
        loc_by(rows.subrange(0, n), agent) <= loc_by(rows, agent),
    decreases rows.len() - n,
{
    if n == rows.len() {
        assert(rows.subrange(0, n) =~= rows);
    } else {
        assert(rows.subrange(0, n + 1).drop_last() =~= rows.subrange(0, n));
        lemma_by_grow(rows, agent, n + 1);
    }
}

/// Three sums of one agent.
struct Sums {
    passed: u32,
    tested: u32,
    loc: u32,
}

fn sums_by(rows: &[BatteryRow], agent: &str) -> (r: Sums)
    requires
        passed_by(records::row_views(rows@), agent@) <= u32::MAX,
        tested_by(records::row_views(rows@), agent@) <= u32::MAX,
        loc_by(records::row_views(rows@), agent@) <= u32::MAX,
    ensures
        r.passed == passed_by(records::row_views(rows@), agent@),
        r.tested == tested_by(records::row_views(rows@), agent@),
        r.loc == loc_by(records::row_views(rows@), agent@),
{
    let ghost all = records::row_views(rows@);
    let mut s = Sums { passed: 0, tested: 0, loc: 0 };
    let mut i: usize = 0;
    while i < rows.len()
        invariant
            i <= rows.len(),
            all == records::row_views(rows@),
            passed_by(all, agent@) <= u32::MAX,
            tested_by(all, agent@) <= u32::MAX,
            loc_by(all, agent@) <= u32::MAX,
            s.passed == passed_by(all.subrange(0, i as int), agent@),
            s.tested == tested_by(all.subrange(0, i as int), agent@),
            s.loc == loc_by(all.subrange(0, i as int), agent@),
        decreases rows.len() - i,
    {
        proof {
            assert(all.subrange(0, i + 1).drop_last() =~= all.subrange(0, i as int));
            assert(all.subrange(0, i + 1).last() == rows@[i as int]@);
            lemma_by_grow(all, agent@, i + 1);
        }
        if text::same_text(rows[i].agent.as_str(), agent) {
            s.passed = s.passed + rows[i].cases_passed;
            s.tested = s.tested + rows[i].cases_tested;
            s.loc = s.loc + rows[i].total_loc;
        }
        i = i + 1;
    }
    assert(all.subrange(0, rows.len() as int) =~= all);
    s
}

fn passed(rows: &[BatteryRow], agent: &str) -> (r: u32)
    requires
        rows_fit(records::row_views(rows@)),
    ensures
        r == passed_by(records::row_views(rows@), agent@),
{
    assert(passed_by(records::row_views(rows@), agent@) <= u32::MAX);
    assert(tested_by(records::row_views(rows@), agent@) <= u32::MAX);
    assert(loc_by(records::row_views(rows@), agent@) <= u32::MAX);
    sums_by(rows, agent).passed
}

/// The lines that an agent wrote.
pub fn rust_loc(rows: &[BatteryRow], agent: &str) -> (r: u32)
    requires
        rows_fit(records::row_views(rows@)),
    ensures
        r == loc_by(records::row_views(rows@), agent@),
{
    assert(passed_by(records::row_views(rows@), agent@) <= u32::MAX);
    assert(tested_by(records::row_views(rows@), agent@) <= u32::MAX);
    assert(loc_by(records::row_views(rows@), agent@) <= u32::MAX);
    sums_by(rows, agent).loc
}

pub(crate) fn battery_size(rows: &[BatteryRow], battery: &str) -> (r: u32)
    ensures
        r == size_of(records::row_views(rows@), battery@),
{
    let ghost all = records::row_views(rows@);
    let mut n: u32 = 0;
    let mut i: usize = 0;
    while i < rows.len()
        invariant
            i <= rows.len(),
            all == records::row_views(rows@),
            n == size_of(all.subrange(0, i as int), battery@),
        decreases rows.len() - i,
    {
        assert(all.subrange(0, i + 1).drop_last() =~= all.subrange(0, i as int));
        assert(all.subrange(0, i + 1).last() == rows@[i as int]@);
        if text::same_text(rows[i].battery.as_str(), battery) && rows[i].cases_tested > n {
            n = rows[i].cases_tested;
        }
        i = i + 1;
    }
    assert(all.subrange(0, rows.len() as int) =~= all);
    n
}

pub(crate) fn row_at<'a>(rows: &'a [BatteryRow], agent: &str, battery: &str) -> (r: Option<&'a BatteryRow>)
    ensures
        r is Some <==> last_row(records::row_views(rows@), agent@, battery@) is Some,
        r matches Some(x) ==> last_row(records::row_views(rows@), agent@, battery@) == Some(x@),
{
    let ghost all = records::row_views(rows@);
    let mut i: usize = rows.len();
    assert(all.subrange(0, i as int) =~= all);
    while i > 0
        invariant
            i <= rows.len(),
            all == records::row_views(rows@),
            last_row(all, agent@, battery@) == last_row(
                all.subrange(0, i as int),
                agent@,
                battery@,
            ),
        decreases i,
    {
        assert(all.subrange(0, i as int).drop_last() =~= all.subrange(0, i - 1));
        assert(all.subrange(0, i as int).last() == rows@[i - 1]@);
        if text::same_text(rows[i - 1].agent.as_str(), agent) && text::same_text(
            rows[i - 1].battery.as_str(),
            battery,
        ) {
            return Some(&rows[i - 1]);
        }
        i = i - 1;
    }
    None
}

/// Drops what repeats the text before it.
pub fn drop_repeats(v: &[String]) -> (r: Vec<String>)
    ensures
        text::views(r@) == once(text::views(v@)),
{
    let ghost all = text::views(v@);
    let mut out: Vec<String> = Vec::new();
    let mut i: usize = 0;
    assert(text::views(out@) =~= once(all.subrange(0, 0)));
    while i < v.len()
        invariant
            i <= v.len(),
            all == text::views(v@),
            text::views(out@) == once(all.subrange(0, i as int)),
        decreases v.len() - i,
    {
        broadcast use text::lemma_views_push;

        assert(all.subrange(0, i + 1).drop_last() =~= all.subrange(0, i as int));
        assert(all.subrange(0, i + 1).last() == v@[i as int]@);
        let n: usize = out.len();
        assert(text::views(out@).len() == n);
        if n > 0 {
            assert(text::views(out@).last() == out@[n - 1]@);
        }
        if !(n > 0 && text::same_text(out[n - 1].as_str(), v[i].as_str())) {
            out.push(text::copy(v[i].as_str()));
        }
        i = i + 1;
    }
    assert(all.subrange(0, v.len() as int) =~= all);
    out
}

fn battery_names(rows: &[BatteryRow]) -> (r: Vec<String>)
    ensures
        text::views(r@) == batteries_of(records::row_views(rows@)),
{
    let ghost all = records::row_views(rows@).map_values(|x: Row| x.battery);
    let mut names: Vec<String> = Vec::new();
    let mut i: usize = 0;
    while i < rows.len()
        invariant
            i <= rows.len(),
            all == records::row_views(rows@).map_values(|x: Row| x.battery),
            text::views(names@) == all.subrange(0, i as int),
        decreases rows.len() - i,
    {
        broadcast use text::lemma_views_push;

        names.push(text::copy(rows[i].battery.as_str()));
        i = i + 1;
        assert(all[i - 1] == rows@[i - 1].battery@);
        assert(text::views(names@) =~= all.subrange(0, i as int));
    }
    assert(all.subrange(0, rows.len() as int) =~= all);
    drop_repeats(text::sort_texts(names.as_slice()).as_slice())
}

fn agent_names(rows: &[BatteryRow]) -> (r: Vec<String>)
    ensures
        text::views(r@) == agents_of(records::row_views(rows@)),
{
    let ghost all = records::row_views(rows@).map_values(|x: Row| x.agent);
    let mut names: Vec<String> = Vec::new();
    let mut i: usize = 0;
    while i < rows.len()
        invariant
            i <= rows.len(),
            all == records::row_views(rows@).map_values(|x: Row| x.agent),
            text::views(names@) == all.subrange(0, i as int),
        decreases rows.len() - i,
    {
        broadcast use text::lemma_views_push;

        names.push(text::copy(rows[i].agent.as_str()));
        i = i + 1;
        assert(all[i - 1] == rows@[i - 1].agent@);
        assert(text::views(names@) =~= all.subrange(0, i as int));
    }
    assert(all.subrange(0, rows.len() as int) =~= all);
    drop_repeats(text::sort_texts(names.as_slice()).as_slice())
}

proof fn lemma_sizes_grow(rows: Seq<Row>, names: Seq<Seq<char>>, n: int)
    requires
        0 <= n <= names.len(),
    ensures
        sizes(rows, names.subrange(0, n)) <= sizes(rows, names),
    decreases names.len() - n,
{
    if n == names.len() {
        assert(names.subrange(0, n) =~= names);
    } else {
        assert(names.subrange(0, n + 1).drop_last() =~= names.subrange(0, n));
        lemma_sizes_grow(rows, names, n + 1);
    }
}

fn count_cases(rows: &[BatteryRow]) -> (r: u32)
    requires
        case_count(records::row_views(rows@)) <= u32::MAX,
    ensures
        r == case_count(records::row_views(rows@)),
{
    let ghost all = records::row_views(rows@);
    let names = battery_names(rows);
    let ghost ns = batteries_of(all);
    let mut total: u32 = 0;
    let mut i: usize = 0;
    while i < names.len()
        invariant
            i <= names.len(),
            all == records::row_views(rows@),
            ns == text::views(names@),
            sizes(all, ns) <= u32::MAX,
            total == sizes(all, ns.subrange(0, i as int)),
        decreases names.len() - i,
    {
        proof {
            assert(ns.subrange(0, i + 1).drop_last() =~= ns.subrange(0, i as int));
            assert(ns.subrange(0, i + 1).last() == names@[i as int]@);
            lemma_sizes_grow(all, ns, i + 1);
        }
        total = total + battery_size(rows, names[i].as_str());
        i = i + 1;
    }
    assert(ns.subrange(0, names.len() as int) =~= ns);
    total
}

// ---------------------------------------------------------------------------
// results.md
// ---------------------------------------------------------------------------

/// Two numbers with a slash between them.
pub open spec fn ratio(a: nat, b: nat) -> Seq<char> {
    text::numeral(a) + "/"@ + text::numeral(b)
}

/// Two numbers with a slash between them.
pub fn ratio_of(a: u32, b: u32) -> (r: String)
    ensures
        r@ == ratio(a as nat, b as nat),
{
    let mut s = text::numeral_of(a as u64);
    s.append("/");
    text::push_numeral(&mut s, b as u64);
    s
}

/// The share of unsafe lines of a row, as it is printed; `N/A` where the row has no lines.
pub open spec fn share_cell(r: Row, share: Seq<char>) -> Seq<char> {
    if r.total_loc > 0 {
        share
    } else {
        "N/A"@
    }
}

/// A line of a battery's table.
pub open spec fn md_row(r: Row, share: Seq<char>) -> Seq<char> {
    "| "@ + r.agent + " | "@ + ratio(r.cases_passed, r.cases_tested) + " | "@ + ratio(
        r.vectors_passed,
        r.vectors_total,
    ) + " | "@ + text::numeral(r.c_loc) + " | "@ + text::numeral(r.total_loc) + " | "@
        + text::numeral(r.unsafe_lines) + " | "@ + share_cell(r, share) + " |\n"@
}

/// The lines of a battery's table, from the first `n` rows.
pub open spec fn md_rows(rows: Seq<Row>, shares: Seq<Seq<char>>, battery: Seq<char>, n: int) -> Seq<
    char,
>
    decreases n,
{
    if n <= 0 {
        ""@
    } else {
        let before = md_rows(rows, shares, battery, n - 1);
        if rows[n - 1].battery == battery {
            before + md_row(rows[n - 1], shares[n - 1])
        } else {
            before
        }
    }
}

/// The head of a battery's table.
pub open spec fn md_head(battery: Seq<char>) -> Seq<char> {
    "## "@ + battery
        + "\n\n| Agent | Cases Passed | Vectors Passed | C LOC | Rust LOC | Unsafe Lines | Unsafe % |\n|-------|-------------|----------------|-------|----------|-------------|----------|\n"@
}

/// The tables of the batteries.
pub open spec fn md_tables(rows: Seq<Row>, shares: Seq<Seq<char>>, names: Seq<Seq<char>>) -> Seq<
    char,
>
    decreases names.len(),
{
    if names.len() == 0 {
        ""@
    } else {
        md_tables(rows, shares, names.drop_last()) + md_head(names.last()) + md_rows(
            rows,
            shares,
            names.last(),
            rows.len() as int,
        ) + "\n"@
    }
}

/// The column titles of the summary.
pub open spec fn md_titles(agents: Seq<Seq<char>>) -> Seq<char>
    decreases agents.len(),
{
    if agents.len() == 0 {
        "| Battery |"@
    } else {
        md_titles(agents.drop_last()) + " "@ + agents.last() + " |"@
    }
}

/// The rule below the column titles of the summary.
pub open spec fn md_rule(n: nat) -> Seq<char>
    decreases n,
{
    if n == 0 {
        "|---------|"@
    } else {
        md_rule((n - 1) as nat) + "------|"@
    }
}

/// A cell of the summary.
pub open spec fn md_cell(rows: Seq<Row>, agent: Seq<char>, battery: Seq<char>) -> Seq<char> {
    match last_row(rows, agent, battery) {
        Some(r) => " "@ + ratio(r.cases_passed, r.cases_tested) + " |"@,
        None => " — |"@,
    }
}

/// A line of the summary.
pub open spec fn md_line(rows: Seq<Row>, battery: Seq<char>, agents: Seq<Seq<char>>) -> Seq<char>
    decreases agents.len(),
{
    if agents.len() == 0 {
        "| "@ + battery + " |"@
    } else {
        md_line(rows, battery, agents.drop_last()) + md_cell(rows, agents.last(), battery)
    }
}

/// The lines of the summary.
pub open spec fn md_lines(rows: Seq<Row>, names: Seq<Seq<char>>, agents: Seq<Seq<char>>) -> Seq<char>
    decreases names.len(),
{
    if names.len() == 0 {
        ""@
    } else {
        md_lines(rows, names.drop_last(), agents) + md_line(rows, names.last(), agents) + "\n"@
    }
}

/// The whole of `results.md`.
pub open spec fn results_md(rows: Seq<Row>, shares: Seq<Seq<char>>) -> Seq<char> {
    "# Translation Results\n\nAuto-generated from validated `result.json` and `summary.json` files.\n\n"@
        + md_tables(rows, shares, batteries_of(rows)) + "## Summary: Cases Passed\n\n"@ + md_titles(
        agents_of(rows),
    ) + "\n"@ + md_rule(agents_of(rows).len()) + "\n"@ + md_lines(
        rows,
        batteries_of(rows),
        agents_of(rows),
    ) + "\n"@
}

fn write_md_row(r: &BatteryRow, share: &str) -> (s: String)
    ensures
        s@ == md_row(r@, share@),
{
    let mut s = text::join3("| ", r.agent.as_str(), " | ");
    s.append(ratio_of(r.cases_passed, r.cases_tested).as_str());
    s.append(" | ");
    s.append(ratio_of(r.vectors_passed, r.vectors_total).as_str());
    s.append(" | ");
    text::push_numeral(&mut s, r.c_loc as u64);
    s.append(" | ");
    text::push_numeral(&mut s, r.total_loc as u64);
    s.append(" | ");
    text::push_numeral(&mut s, r.unsafe_lines as u64);
    s.append(" | ");
    if r.total_loc > 0 {
        s.append(share);
    } else {
        s.append("N/A");
    }
    s.append(" |\n");
    s
}

fn write_md_rows(rows: &[BatteryRow], shares: &[String], battery: &str) -> (s: String)
    requires
        shares.len() == rows.len(),
    ensures
        s@ == md_rows(
            records::row_views(rows@),
            text::views(shares@),
            battery@,
            rows.len() as int,
        ),
{
    let ghost all = records::row_views(rows@);
    let ghost sh = text::views(shares@);
    let mut s = text::copy("");
    let mut i: usize = 0;
    while i < rows.len()
        invariant
            i <= rows.len(),
            shares.len() == rows.len(),
            all == records::row_views(rows@),
            sh == text::views(shares@),
            s@ == md_rows(all, sh, battery@, i as int),
        decreases rows.len() - i,
    {
        assert(all[i as int] == rows@[i as int]@);
        assert(sh[i as int] == shares@[i as int]@);
        if text::same_text(rows[i].battery.as_str(), battery) {
            s.append(write_md_row(&rows[i], shares[i].as_str()).as_str());
        }
        i = i + 1;
    }
    s
}

fn write_md_tables(rows: &[BatteryRow], shares: &[String], names: &[String]) -> (s: String)
    requires
        shares.len() == rows.len(),
    ensures
        s@ == md_tables(records::row_views(rows@), text::views(shares@), text::views(names@)),
{
    let ghost all = records::row_views(rows@);
    let ghost sh = text::views(shares@);
    let ghost ns = text::views(names@);
    let mut s = text::copy("");
    let mut i: usize = 0;
    while i < names.len()
        invariant
            i <= names.len(),
            shares.len() == rows.len(),
            all == records::row_views(rows@),
            sh == text::views(shares@),
            ns == text::views(names@),
            s@ == md_tables(all, sh, ns.subrange(0, i as int)),
        decreases names.len() - i,
    {
        assert(ns.subrange(0, i + 1).drop_last() =~= ns.subrange(0, i as int));
        assert(ns.subrange(0, i + 1).last() == names@[i as int]@);
        let head = text::join3(
            "## ",
            names[i].as_str(),
            "\n\n| Agent | Cases Passed | Vectors Passed | C LOC | Rust LOC | Unsafe Lines | Unsafe % |\n|-------|-------------|----------------|-------|----------|-------------|----------|\n",
        );
        s.append(head.as_str());
        s.append(write_md_rows(rows, shares, names[i].as_str()).as_str());
        s.append("\n");
        i = i + 1;
    }
    assert(ns.subrange(0, names.len() as int) =~= ns);
    s
}

fn write_md_head_of_summary(agents: &[String]) -> (s: String)
    ensures
        s@ == md_titles(text::views(agents@)) + "\n"@ + md_rule(agents@.len()),
{
    let ghost ags = text::views(agents@);
    let mut s = text::copy("| Battery |");
    let mut i: usize = 0;
    while i < agents.len()
        invariant
            i <= agents.len(),
            ags == text::views(agents@),
            s@ == md_titles(ags.subrange(0, i as int)),
        decreases agents.len() - i,
    {
        assert(ags.subrange(0, i + 1).drop_last() =~= ags.subrange(0, i as int));
        assert(ags.subrange(0, i + 1).last() == agents@[i as int]@);
        s.append(" ");
        s.append(agents[i].as_str());
        s.append(" |");
        i = i + 1;
    }
    assert(ags.subrange(0, agents.len() as int) =~= ags);
    let mut rule = text::copy("|---------|");
    let mut j: usize = 0;
    while j < agents.len()
        invariant
            j <= agents.len(),
            rule@ == md_rule(j as nat),
        decreases agents.len() - j,
    {
        rule.append("------|");
        j = j + 1;
    }
    s.append("\n");
    s.append(rule.as_str());
    s
}

fn write_md_line(rows: &[BatteryRow], battery: &str, agents: &[String]) -> (s: String)
    ensures
        s@ == md_line(records::row_views(rows@), battery@, text::views(agents@)),
{
    let ghost all = records::row_views(rows@);
    let ghost ags = text::views(agents@);
    let mut s = text::join3("| ", battery, " |");
    let mut i: usize = 0;
    assert(ags.subrange(0, 0) =~= Seq::<Seq<char>>::empty());
    while i < agents.len()
        invariant
            i <= agents.len(),
            all == records::row_views(rows@),
            ags == text::views(agents@),
            s@ == md_line(all, battery@, ags.subrange(0, i as int)),
        decreases agents.len() - i,
    {
        assert(ags.subrange(0, i + 1).drop_last() =~= ags.subrange(0, i as int));
        assert(ags.subrange(0, i + 1).last() == agents@[i as int]@);
        match row_at(rows, agents[i].as_str(), battery) {
            Some(r) => {
                let cell = text::join3(
                    " ",
                    ratio_of(r.cases_passed, r.cases_tested).as_str(),
                    " |",
                );
                s.append(cell.as_str());
            },
            None => {
                s.append(" — |");
            },
        }
        i = i + 1;
    }
    assert(ags.subrange(0, agents.len() as int) =~= ags);
    s
}

/// The text of `results.md`. `shares` holds, for each row, its share of unsafe lines as it is
/// printed.
pub fn write_results_md(rows: &[BatteryRow], shares: &[String]) -> (s: String)
    requires
        shares.len() == rows.len(),
    ensures
        s@ == results_md(records::row_views(rows@), text::views(shares@)),
{
    let ghost all = records::row_views(rows@);
    let names = battery_names(rows);
    let agents = agent_names(rows);
    let ghost ns = text::views(names@);
    let ghost ags = text::views(agents@);
    assert(ags.len() == agents@.len());
    let mut s = text::copy(
        "# Translation Results\n\nAuto-generated from validated `result.json` and `summary.json` files.\n\n",
    );
    s.append(write_md_tables(rows, shares, names.as_slice()).as_str());
    s.append("## Summary: Cases Passed\n\n");
    let ghost before = s@;
    s.append(write_md_head_of_summary(agents.as_slice()).as_str());
    assert(s@ =~= before + md_titles(ags) + "\n"@ + md_rule(ags.len()));
    s.append("\n");
    let mut lines = text::copy("");
    let mut i: usize = 0;
    while i < names.len()
        invariant
            i <= names.len(),
            all == records::row_views(rows@),
            ns == text::views(names@),
            ags == text::views(agents@),
            lines@ == md_lines(all, ns.subrange(0, i as int), ags),
        decreases names.len() - i,
    {
        assert(ns.subrange(0, i + 1).drop_last() =~= ns.subrange(0, i as int));
        assert(ns.subrange(0, i + 1).last() == names@[i as int]@);
        lines.append(write_md_line(rows, names[i].as_str(), agents.as_slice()).as_str());
        lines.append("\n");
        i = i + 1;
    }
    assert(ns.subrange(0, names.len() as int) =~= ns);
    s.append(lines.as_str());
    s.append("\n");
    s
}

// ---------------------------------------------------------------------------
// datasets.tex
// ---------------------------------------------------------------------------

/// The name under which the table shows a battery.
pub open spec fn display_name(i: int) -> Seq<char> {
    if i == 0 {
        "B01-synthetic"@
    } else if i == 1 {
        "B01-organic"@
    } else if i == 2 {
        "B02-synthetic"@
    } else if i == 3 {
        "B02-organic"@
    } else if i == 4 {
        "P00 (Perlin)"@
    } else {
        "P01 {\\smaller (SPHINCS+)}"@
    }
}

fn display_of(i: usize) -> (r: &'static str)
    ensures
        r@ == display_name(i as int),
{
    if i == 0 {
        "B01-synthetic"
    } else if i == 1 {
        "B01-organic"
    } else if i == 2 {
        "B02-synthetic"
    } else if i == 3 {
        "B02-organic"
    } else if i == 4 {
        "P00 (Perlin)"
    } else {
        "P01 {\\smaller (SPHINCS+)}"
    }
}

/// The greatest of some numbers, or zero.
pub open spec fn greatest(v: Seq<u32>) -> nat
    decreases v.len(),
{
    if v.len() == 0 {
        0
    } else {
        let before = greatest(v.drop_last());
        if v.last() > before {
            v.last() as nat
        } else {
            before
        }
    }
}

fn greatest_of(v: &[u32]) -> (r: u32)
    ensures
        r == greatest(v@),
{
    let mut m: u32 = 0;
    let mut i: usize = 0;
    while i < v.len()
        invariant
            i <= v.len(),
            m == greatest(v@.subrange(0, i as int)),
        decreases v.len() - i,
    {
        assert(v@.subrange(0, i + 1).drop_last() =~= v@.subrange(0, i as int));
        if v[i] > m {
            m = v[i];
        }
        i = i + 1;
    }
    assert(v@.subrange(0, v.len() as int) =~= v@);
    m
}

/// A line of the table: the name, the number of sources, and the total, mean, median and maximum of
/// their lines.
pub open spec fn dataset_line(name: Seq<char>, locs: Seq<u32>) -> Seq<char> {
    let total = records::sum(records::nats(locs));
    name + " & "@ + text::numeral(locs.len()) + " & "@ + numbers::with_commas(total) + " & "@
        + numbers::with_commas(numbers::mean(total, locs.len())) + " & "@ + numbers::with_commas(
        numbers::median(locs) as nat,
    ) + " & "@ + numbers::with_commas(greatest(locs)) + " \\\\\n"@
}

/// A line of the table, for the lines of code of a battery's sources.
pub fn write_dataset_line(name: &str, locs: &[u32]) -> (s: String)
    requires
        locs.len() <= u32::MAX,
        records::sum(records::nats(locs@)) <= u32::MAX,
    ensures
        s@ == dataset_line(name@, locs@),
{
    let total: u32 = records::add_up(locs);
    let cases: u32 = locs.len() as u32;
    let mut s = text::join2(name, " & ");
    text::push_numeral(&mut s, cases as u64);
    s.append(" & ");
    s.append(numbers::fmt_commas(total).as_str());
    s.append(" & ");
    s.append(numbers::fmt_commas(numbers::mean_round(total, cases)).as_str());
    s.append(" & ");
    s.append(numbers::fmt_commas(numbers::median_round(locs)).as_str());
    s.append(" & ");
    s.append(numbers::fmt_commas(greatest_of(locs)).as_str());
    s.append(" \\\\\n");
    s
}

/// The lines of code of the sources of a battery, each source once.
pub open spec fn battery_locs(corpus: Seq<CorpusBattery>, i: int) -> Seq<nat> {
    records::distinct_locs(records::corpus_cases(corpus, tractor::battery_dir(i)))
}

/// A number as one of 32 bits.
pub open spec fn narrow(s: Seq<nat>) -> Seq<u32> {
    s.map_values(|n: nat| n as u32)
}

/// The lines of the first `n` batteries. One without sources has none.
pub open spec fn dataset_lines(corpus: Seq<CorpusBattery>, n: int) -> Seq<char>
    decreases n,
{
    if n <= 0 {
        ""@
    } else {
        let before = dataset_lines(corpus, n - 1);
        let locs = narrow(battery_locs(corpus, n - 1));
        if locs.len() == 0 {
            before
        } else {
            before + dataset_line(display_name(n - 1), locs)
        }
    }
}

/// The whole of `datasets.tex`.
pub open spec fn datasets_tex(corpus: Seq<CorpusBattery>) -> Seq<char> {
    "% GENERATED by harvest-tools report — do not edit\n"@ + dataset_lines(
        corpus,
        tractor::BATTERIES as int,
    )
}

/// The sources of each battery can be counted.
pub open spec fn corpus_countable(corpus: Seq<CorpusBattery>) -> bool {
    &&& records::corpus_fits(corpus)
    &&& forall|name: Seq<char>|
        (#[trigger] records::distinct_locs(records::corpus_cases(corpus, name))).len() <= u32::MAX
}

fn locs_of(corpus: &[CorpusBattery], name: &str) -> (r: Vec<u32>)
    requires
        corpus_countable(corpus@),
    ensures
        records::nats(r@) == records::distinct_locs(records::corpus_cases(corpus@, name@)),
        r@ == narrow(records::distinct_locs(records::corpus_cases(corpus@, name@))),
        r@.len() <= u32::MAX,
        records::sum(records::nats(r@)) <= u32::MAX,
{
    assert(records::sources_fit(records::corpus_cases(corpus@, name@)));
    let ghost want = records::distinct_locs(records::corpus_cases(corpus@, name@));
    assert(want.len() <= u32::MAX);
    let r = match records::find_battery(corpus, name) {
        Some(b) => records::tractor_battery_c_locs(b.cases.as_slice()),
        None => {
            let none: Vec<u32> = Vec::new();
            assert(records::nats(none@) =~= Seq::<nat>::empty());
            none
        },
    };
    proof {
        assert(records::nats(r@) == want);
        assert(r@.len() == want.len());
        assert forall|i: int| 0 <= i < r@.len() implies r@[i] == narrow(want)[i] by {
            assert(want[i] == r@[i] as nat);
        }
        assert(r@ =~= narrow(want));
    }
    r
}

/// The text of `datasets.tex`.
pub fn generate_datasets_tex(corpus: &[CorpusBattery]) -> (s: String)
    requires
        corpus_countable(corpus@),
    ensures
        s@ == datasets_tex(corpus@),
{
    let mut lines = text::copy("");
    let mut i: usize = 0;
    while i < tractor::BATTERIES
        invariant
            i <= tractor::BATTERIES,
            corpus_countable(corpus@),
            lines@ == dataset_lines(corpus@, i as int),
        decreases tractor::BATTERIES - i,
    {
        let locs = locs_of(corpus, tractor::battery_of(i));
        if locs.len() > 0 {
            lines.append(write_dataset_line(display_of(i), locs.as_slice()).as_str());
        }
        i = i + 1;
    }
    text::join2("% GENERATED by harvest-tools report — do not edit\n", lines.as_str())
}

// ---------------------------------------------------------------------------
// prompt-sensitivity.tex
// ---------------------------------------------------------------------------

/// The label of a prompt variant.
pub open spec fn variant_label(i: int) -> Seq<char> {
    if i == 0 {
        "ACTOR ("@ + program::title() + ")"@
    } else if i == 1 {
        "\\textit{no-subtask}"@
    } else if i == 2 {
        "\\textit{no-iterate}"@
    } else if i == 3 {
        "\\textit{no-features}"@
    } else {
        "\\textit{minimal}"@
    }
}

/// The results directory of a prompt variant.
pub open spec fn variant_dir(i: int) -> Seq<char> {
    if i == 0 {
        program::program()
    } else if i == 1 {
        ""@ + program::program() + "-no-subtask"@
    } else if i == 2 {
        ""@ + program::program() + "-no-iter"@
    } else if i == 3 {
        ""@ + program::program() + "-no-features"@
    } else {
        ""@ + program::program() + "-minimal"@
    }
}

/// The lines of the first `n` variants.
pub open spec fn variant_lines(rows: Seq<Row>, n: int) -> Seq<char>
    decreases n,
{
    if n <= 0 {
        ""@
    } else {
        variant_lines(rows, n - 1) + variant_label(n - 1) + " & "@ + ratio(
            passed_by(rows, variant_dir(n - 1)),
            case_count(rows),
        ) + " \\\\\n"@
    }
}

/// The text that the manual constants give a key of their prompt-sensitivity section.
pub open spec fn manual_text(manual: Option<toml::Entries>, key: Seq<char>) -> Seq<char> {
    match manual {
        Some(c) => match toml::value_in(c, "prompt_sensitivity"@, key) {
            Some(toml::TomlItem::Text(s)) => s,
            _ => ""@,
        },
        None => ""@,
    }
}

/// The whole of `prompt-sensitivity.tex`.
pub open spec fn prompt_sensitivity_tex(rows: Seq<Row>, manual: Option<toml::Entries>) -> Seq<
    char,
> {
    "% GENERATED by harvest-tools report — do not edit\n"@ + variant_lines(rows, 5)
        + "\\hline \\hline\n\\multicolumn{2}{l}{\\emph{Cross-prompt swap on TRACTOR B0X (n = 210)}} \\\\\n\\hline\n\\textit{lib prompt on execs} & "@
        + manual_text(manual, "lib_prompt_on_execs"@)
        + " \\\\\n\\textit{exec prompt on libs} & "@ + manual_text(manual, "exec_prompt_on_libs"@)
        + " \\\\\n"@
}

fn variant_label_of(i: usize) -> (r: String)
    ensures
        r@ == variant_label(i as int),
{
    if i == 0 {
        text::join3("ACTOR (", program::title_text().as_str(), ")")
    } else if i == 1 {
        text::copy("\\textit{no-subtask}")
    } else if i == 2 {
        text::copy("\\textit{no-iterate}")
    } else if i == 3 {
        text::copy("\\textit{no-features}")
    } else {
        text::copy("\\textit{minimal}")
    }
}

fn variant_dir_of(i: usize) -> (r: String)
    ensures
        r@ == variant_dir(i as int),
{
    if i == 0 {
        program::program_name()
    } else if i == 1 {
        program::named("", "-no-subtask")
    } else if i == 2 {
        program::named("", "-no-iter")
    } else if i == 3 {
        program::named("", "-no-features")
    } else {
        program::named("", "-minimal")
    }
}

/// What the manual constants hold, where there are any and they are TOML.
pub open spec fn manual_in(constants: Option<&str>) -> Option<toml::Entries> {
    match constants {
        Some(t) => toml::read(t@),
        None => None,
    }
}

/// The text that the manual constants give a key of their prompt-sensitivity section; nothing where
/// they give none.
pub fn prompt_sensitivity_manual(constants: Option<&str>, key: &str) -> (r: String)
    ensures
        r@ == manual_text(manual_in(constants), key@),
{
    if let Some(t) = constants {
        if let Some(doc) = toml::parse(t) {
            if let Some(v) = toml::value_at(&doc, "prompt_sensitivity", key) {
                if let Scalar::Text(s) = v {
                    return s;
                }
            }
        }
    }
    text::copy("")
}

/// The text of `prompt-sensitivity.tex`: the base run and four ablations, and then the swapped
/// prompts, whose figures are manual constants.
pub fn generate_prompt_sensitivity_tex(rows: &[BatteryRow], constants: Option<&str>) -> (s: String)
    requires
        rows_fit(records::row_views(rows@)),
    ensures
        s@ == prompt_sensitivity_tex(records::row_views(rows@), manual_in(constants)),
{
    let ghost all = records::row_views(rows@);
    let total: u32 = count_cases(rows);
    let mut lines = text::copy("");
    let mut i: usize = 0;
    while i < 5
        invariant
            i <= 5,
            all == records::row_views(rows@),
            rows_fit(all),
            total == case_count(all),
            lines@ == variant_lines(all, i as int),
        decreases 5 - i,
    {
        lines.append(variant_label_of(i).as_str());
        lines.append(" & ");
        lines.append(ratio_of(passed(rows, variant_dir_of(i).as_str()), total).as_str());
        lines.append(" \\\\\n");
        i = i + 1;
    }
    let mut s = text::join2(
        "% GENERATED by harvest-tools report — do not edit\n",
        lines.as_str(),
    );
    s.append(
        "\\hline \\hline\n\\multicolumn{2}{l}{\\emph{Cross-prompt swap on TRACTOR B0X (n = 210)}} \\\\\n\\hline\n\\textit{lib prompt on execs} & ",
    );
    s.append(prompt_sensitivity_manual(constants, "lib_prompt_on_execs").as_str());
    s.append(" \\\\\n\\textit{exec prompt on libs} & ");
    s.append(prompt_sensitivity_manual(constants, "exec_prompt_on_libs").as_str());
    s.append(" \\\\\n");
    s
}

// ---------------------------------------------------------------------------
// manual.tex
// ---------------------------------------------------------------------------

/// A word with its first letter raised.
pub open spec fn raised(word: Seq<char>) -> Seq<char> {
    if word.len() == 0 {
        Seq::empty()
    } else {
        text::uppercase_form(word[0]) + word.subrange(1, word.len() as int)
    }
}

/// The words, each raised, one after the other.
pub open spec fn raised_all(words: Seq<Seq<char>>) -> Seq<char>
    decreases words.len(),
{
    if words.len() == 0 {
        ""@
    } else {
        raised_all(words.drop_last()) + raised(words.last())
    }
}

/// A name with underscores in camel case.
pub open spec fn camel_case(s: Seq<char>) -> Seq<char> {
    raised_all(text::split(s, '_'))
}

/// A value as it stands in the file, without quotes.
pub open spec fn rendered(v: toml::TomlItem) -> Seq<char> {
    match v {
        toml::TomlItem::Text(s) => s,
        toml::TomlItem::Integer(n) => text::signed_numeral(n as int),
        toml::TomlItem::Float(s) => s,
        toml::TomlItem::Boolean(b) => if b {
            "true"@
        } else {
            "false"@
        },
        toml::TomlItem::Other(s) => text::trimmed(s),
        _ => ""@,
    }
}

/// A macro definition.
pub open spec fn newcommand(name: Seq<char>, value: Seq<char>) -> Seq<char> {
    "\\newcommand{\\"@ + name + "}{"@ + value + "}\n"@
}

/// A macro definition.
pub fn write_newcommand(name: &str, value: &str) -> (s: String)
    ensures
        s@ == newcommand(name@, value@),
{
    let mut s = text::join3("\\newcommand{\\", name, "}{");
    s.append(value);
    s.append("}\n");
    s
}

/// The macros of the first `n` keys of a section. A key under which a table stands has none.
pub open spec fn section_macros(
    c: toml::Entries,
    section: Seq<char>,
    keys: Seq<Seq<char>>,
) -> Seq<char>
    decreases keys.len(),
{
    if keys.len() == 0 {
        ""@
    } else {
        let before = section_macros(c, section, keys.drop_last());
        match toml::value_in(c, section, keys.last()) {
            Some(v) => before + newcommand(
                camel_case(section) + camel_case(keys.last()),
                rendered(v),
            ),
            None => before,
        }
    }
}

/// The macros of sections. A name under which no table stands is no section.
pub open spec fn manual_macros(c: toml::Entries, sections: Seq<Seq<char>>) -> Seq<char>
    decreases sections.len(),
{
    if sections.len() == 0 {
        ""@
    } else {
        let before = manual_macros(c, sections.drop_last());
        match toml::table_in(c, sections.last()) {
            Some(t) => before + section_macros(c, sections.last(), toml::names(t)),
            None => before,
        }
    }
}

/// The whole of `manual.tex`.
pub open spec fn manual_tex(manual: Option<toml::Entries>) -> Seq<char> {
    "% MANUALLY ENTERED — not derived from data. Source: manual_constants.toml\n"@ + match manual {
        Some(c) => manual_macros(c, toml::names(c)),
        None => ""@,
    }
}

/// A name with underscores in camel case.
pub fn camel(s: &str) -> (r: String)
    ensures
        r@ == camel_case(s@),
{
    let words = text::split_on(&text::chars_of(s), '_');
    let ghost all = text::char_views(words@);
    let mut out = text::copy("");
    let mut i: usize = 0;
    while i < words.len()
        invariant
            i <= words.len(),
            all == text::char_views(words@),
            out@ == raised_all(all.subrange(0, i as int)),
        decreases words.len() - i,
    {
        assert(all.subrange(0, i + 1).drop_last() =~= all.subrange(0, i as int));
        assert(all.subrange(0, i + 1).last() == words@[i as int]@);
        let n: usize = words[i].len();
        let ghost before = out@;
        if n > 0 {
            out.append(text::to_uppercase(words[i][0]).as_str());
            out.append(text::string_of(&text::cut(&words[i], 1, n)).as_str());
            assert(out@ =~= before + raised(words@[i as int]@));
        } else {
            assert(before =~= before + raised(words@[i as int]@));
        }
        i = i + 1;
    }
    assert(all.subrange(0, words.len() as int) =~= all);
    out
}

fn signed_long(n: i64) -> (r: String)
    ensures
        r@ == text::signed_numeral(n as int),
{
    if n < 0 {
        let m: u64 = (-(n as i128)) as u64;
        let mut s = text::copy("-");
        text::push_numeral(&mut s, m);
        s
    } else {
        text::numeral_of(n as u64)
    }
}

fn render(v: &Scalar) -> (r: String)
    ensures
        r@ == rendered(v@),
{
    match v {
        Scalar::Text(s) => text::copy(s.as_str()),
        Scalar::Integer(n) => signed_long(*n),
        Scalar::Float(s) => text::copy(s.as_str()),
        Scalar::Boolean(b) => if *b {
            text::copy("true")
        } else {
            text::copy("false")
        },
        Scalar::Other(s) => text::string_of(&text::trim(&text::chars_of(s.as_str()))),
    }
}

fn write_section(doc: &toml_edit::DocumentMut, section: &str, keys: &[String]) -> (s: String)
    ensures
        s@ == section_macros(toml::contents(*doc), section@, text::views(keys@)),
{
    let ghost c = toml::contents(*doc);
    let ghost ks = text::views(keys@);
    let sec = camel(section);
    let mut s = text::copy("");
    let mut i: usize = 0;
    while i < keys.len()
        invariant
            i <= keys.len(),
            c == toml::contents(*doc),
            ks == text::views(keys@),
            sec@ == camel_case(section@),
            s@ == section_macros(c, section@, ks.subrange(0, i as int)),
        decreases keys.len() - i,
    {
        assert(ks.subrange(0, i + 1).drop_last() =~= ks.subrange(0, i as int));
        assert(ks.subrange(0, i + 1).last() == keys@[i as int]@);
        if let Some(v) = toml::value_at(doc, section, keys[i].as_str()) {
            let name = text::join2(sec.as_str(), camel(keys[i].as_str()).as_str());
            s.append(write_newcommand(name.as_str(), render(&v).as_str()).as_str());
        }
        i = i + 1;
    }
    assert(ks.subrange(0, keys.len() as int) =~= ks);
    s
}

/// The text of `manual.tex`: a macro for every value of every section of the manual constants. With
/// no constants, or with some that are no TOML, only its first line.
pub fn generate_manual_tex(constants: Option<&str>) -> (s: String)
    ensures
        s@ == manual_tex(manual_in(constants)),
{
    let mut body = text::copy("");
    if let Some(t) = constants {
        if let Some(doc) = toml::parse(t) {
            let ghost c = toml::contents(doc);
            let sections = toml::root_names(&doc);
            let ghost ns = toml::names(c);
            let mut i: usize = 0;
            while i < sections.len()
                invariant
                    i <= sections.len(),
                    c == toml::contents(doc),
                    ns == text::views(sections@),
                    body@ == manual_macros(c, ns.subrange(0, i as int)),
                decreases sections.len() - i,
            {
                assert(ns.subrange(0, i + 1).drop_last() =~= ns.subrange(0, i as int));
                assert(ns.subrange(0, i + 1).last() == sections@[i as int]@);
                if let Some(keys) = toml::table_names(&doc, sections[i].as_str()) {
                    body.append(
                        write_section(&doc, sections[i].as_str(), keys.as_slice()).as_str(),
                    );
                }
                i = i + 1;
            }
            assert(ns.subrange(0, sections.len() as int) =~= ns);
        }
    }
    text::join2(
        "% MANUALLY ENTERED — not derived from data. Source: manual_constants.toml\n",
        body.as_str(),
    )
}

// ---------------------------------------------------------------------------
// numbers.tex
// ---------------------------------------------------------------------------

/// What the runs of a benchmark cost, each figure as it is printed.
#[derive(Debug, Clone)]
pub struct CostFigures {
    pub dollars: String,
    pub minutes: String,
    /// Dollars and minutes for a thousand lines, where any were written.
    pub per_kloc: Option<(String, String)>,
    pub validate_pct: String,
}

/// The macros of what the TRACTOR runs cost. Without credits there are none.
pub open spec fn cost_macros(c: Option<CostFigures>) -> Seq<char> {
    match c {
        None => ""@,
        Some(f) => newcommand("CostTractor"@, f.dollars@) + newcommand(
            "CostTractorMinutes"@,
            f.minutes@,
        ) + (match f.per_kloc {
            Some(p) => newcommand("CostTractorPerKLoc"@, p.0@) + newcommand(
                "CostTractorMinPerKLoc"@,
                p.1@,
            ),
            None => ""@,
        }) + newcommand("CostTractorValidatePct"@, f.validate_pct@),
    }
}

/// The macros of what the runs of P01 cost. Without credits there are none.
pub open spec fn p01_macros(c: Option<(String, String)>) -> Seq<char> {
    match c {
        None => ""@,
        Some(f) => newcommand("CostPOne"@, f.0@) + newcommand("CostPOneMinutes"@, f.1@),
    }
}

/// The macros of the size of the corpus, where it is there.
pub open spec fn loc_macros(total_loc: nat, cases: nat) -> Seq<char> {
    if total_loc > 0 && cases > 0 {
        newcommand("TractorTotalLoc"@, numbers::with_commas(total_loc)) + newcommand(
            "TractorMeanLoc"@,
            text::numeral(numbers::mean(total_loc, cases)),
        )
    } else {
        ""@
    }
}

/// The cases of P01 that an agent passed.
pub open spec fn p01_passed(rows: Seq<Row>, agent: Seq<char>) -> nat {
    match last_row(rows, agent, "P01_sphincs_plus"@) {
        Some(r) => r.cases_passed,
        None => 0,
    }
}

/// The lines of C of the first `n` batteries.
pub open spec fn corpus_loc(corpus: Seq<CorpusBattery>, n: int) -> nat
    decreases n,
{
    if n <= 0 {
        0
    } else {
        corpus_loc(corpus, n - 1) + records::sum(battery_locs(corpus, n - 1))
    }
}

/// The whole of `numbers.tex`.
pub open spec fn numbers_tex(
    rows: Seq<Row>,
    corpus: Seq<CorpusBattery>,
    cost: Option<CostFigures>,
    p01: Option<(String, String)>,
    laertes: LaertesDelta,
) -> Seq<char> {
    let cases = case_count(rows);
    "% GENERATED by `harvest-tools report`. Do not edit by hand.\n% Named constants for result numbers quoted in the prose, so text and\n% tables cannot disagree. Values are derived from results/.\n"@
        + newcommand("TractorTotalCases"@, text::numeral(cases)) + loc_macros(
        corpus_loc(corpus, tractor::BATTERIES as int),
        cases,
    ) + cost_macros(cost) + p01_macros(p01) + newcommand(
        "ActorKiroTests"@,
        ratio(passed_by(rows, "kiro"@), cases),
    ) + newcommand("ActorClaudeTests"@, ratio(passed_by(rows, program::program()), cases)) + newcommand(
        "ActorCodexTests"@,
        ratio(passed_by(rows, "codex-gpt54"@), cases),
    ) + newcommand(
        "ActorKiroNoValidateTests"@,
        ratio(passed_by(rows, "kiro-translate"@), cases),
    ) + newcommand("ActorKiroPOneTests"@, ratio(p01_passed(rows, "kiro"@), 128)) + newcommand(
        "ActorKiroNoValidatePOneTests"@,
        ratio(p01_passed(rows, "kiro-translate"@), 128),
    ) + newcommand("LaertesBreaks"@, text::numeral(laertes.broke as nat)) + newcommand(
        "LaertesFixes"@,
        text::numeral(laertes.fixed as nat),
    )
}

fn write_cost(c: &Option<CostFigures>) -> (s: String)
    ensures
        s@ == cost_macros(*c),
{
    match c {
        None => text::copy(""),
        Some(f) => {
            let mut s = write_newcommand("CostTractor", f.dollars.as_str());
            s.append(write_newcommand("CostTractorMinutes", f.minutes.as_str()).as_str());
            match &f.per_kloc {
                Some(p) => {
                    let mut k = write_newcommand("CostTractorPerKLoc", p.0.as_str());
                    k.append(write_newcommand("CostTractorMinPerKLoc", p.1.as_str()).as_str());
                    s.append(k.as_str());
                },
                None => {
                    s.append("");
                },
            }
            s.append(write_newcommand("CostTractorValidatePct", f.validate_pct.as_str()).as_str());
            s
        },
    }
}

fn write_p01(c: &Option<(String, String)>) -> (s: String)
    ensures
        s@ == p01_macros(*c),
{
    match c {
        None => text::copy(""),
        Some(f) => {
            let mut s = write_newcommand("CostPOne", f.0.as_str());
            s.append(write_newcommand("CostPOneMinutes", f.1.as_str()).as_str());
            s
        },
    }
}

fn write_loc(total_loc: u32, cases: u32) -> (s: String)
    ensures
        s@ == loc_macros(total_loc as nat, cases as nat),
{
    if total_loc > 0 && cases > 0 {
        let mut s = write_newcommand("TractorTotalLoc", numbers::fmt_commas(total_loc).as_str());
        let mean = text::numeral_of(numbers::mean_round(total_loc, cases) as u64);
        s.append(write_newcommand("TractorMeanLoc", mean.as_str()).as_str());
        s
    } else {
        text::copy("")
    }
}

fn p01_of(rows: &[BatteryRow], agent: &str) -> (r: u32)
    ensures
        r == p01_passed(records::row_views(rows@), agent@),
{
    match row_at(rows, agent, "P01_sphincs_plus") {
        Some(r) => r.cases_passed,
        None => 0,
    }
}

proof fn lemma_corpus_loc_grows(corpus: Seq<CorpusBattery>, n: int, m: int)
    requires
        0 <= n <= m,
    ensures
        corpus_loc(corpus, n) <= corpus_loc(corpus, m),
    decreases m - n,
{
    if n < m {
        lemma_corpus_loc_grows(corpus, n + 1, m);
    }
}

fn count_corpus_loc(corpus: &[CorpusBattery]) -> (r: u32)
    requires
        corpus_countable(corpus@),
        corpus_loc(corpus@, tractor::BATTERIES as int) <= u32::MAX,
    ensures
        r == corpus_loc(corpus@, tractor::BATTERIES as int),
{
    let mut total: u32 = 0;
    let mut i: usize = 0;
    while i < tractor::BATTERIES
        invariant
            i <= tractor::BATTERIES,
            corpus_countable(corpus@),
            corpus_loc(corpus@, tractor::BATTERIES as int) <= u32::MAX,
            total == corpus_loc(corpus@, i as int),
        decreases tractor::BATTERIES - i,
    {
        let locs = locs_of(corpus, tractor::battery_of(i));
        proof {
            lemma_corpus_loc_grows(corpus@, i + 1, tractor::BATTERIES as int);
        }
        total = total + records::add_up(locs.as_slice());
        i = i + 1;
    }
    total
}

/// The text of `numbers.tex`: a macro for every number that the prose quotes.
pub fn generate_numbers_tex(
    rows: &[BatteryRow],
    corpus: &[CorpusBattery],
    cost: &Option<CostFigures>,
    p01: &Option<(String, String)>,
    laertes: LaertesDelta,
) -> (s: String)
    requires
        rows_fit(records::row_views(rows@)),
        corpus_countable(corpus@),
        corpus_loc(corpus@, tractor::BATTERIES as int) <= u32::MAX,
    ensures
        s@ == numbers_tex(records::row_views(rows@), corpus@, *cost, *p01, laertes),
{
    let cases: u32 = count_cases(rows);
    let mut s = text::join2(
        "% GENERATED by `harvest-tools report`. Do not edit by hand.\n% Named constants for result numbers quoted in the prose, so text and\n% tables cannot disagree. Values are derived from results/.\n",
        write_newcommand("TractorTotalCases", text::numeral_of(cases as u64).as_str()).as_str(),
    );
    s.append(write_loc(count_corpus_loc(corpus), cases).as_str());
    s.append(write_cost(cost).as_str());
    s.append(write_p01(p01).as_str());
    let kiro = ratio_of(passed(rows, "kiro"), cases);
    s.append(write_newcommand("ActorKiroTests", kiro.as_str()).as_str());
    let claude = ratio_of(passed(rows, program::program_name().as_str()), cases);
    s.append(write_newcommand("ActorClaudeTests", claude.as_str()).as_str());
    let codex = ratio_of(passed(rows, "codex-gpt54"), cases);
    s.append(write_newcommand("ActorCodexTests", codex.as_str()).as_str());
    let bare = ratio_of(passed(rows, "kiro-translate"), cases);
    s.append(write_newcommand("ActorKiroNoValidateTests", bare.as_str()).as_str());
    let p = ratio_of(p01_of(rows, "kiro"), 128);
    s.append(write_newcommand("ActorKiroPOneTests", p.as_str()).as_str());
    let q = ratio_of(p01_of(rows, "kiro-translate"), 128);
    s.append(write_newcommand("ActorKiroNoValidatePOneTests", q.as_str()).as_str());
    let broke = text::numeral_of(laertes.broke as u64);
    s.append(write_newcommand("LaertesBreaks", broke.as_str()).as_str());
    let fixed = text::numeral_of(laertes.fixed as u64);
    s.append(write_newcommand("LaertesFixes", fixed.as_str()).as_str());
    s
}

// ---------------------------------------------------------------------------
// Invariants
// ---------------------------------------------------------------------------

/// The number of TRACTOR cases.
pub const TRACTOR_CASES: u32 = 338;

/// The size that a battery must have.
pub open spec fn expected_size(i: int) -> nat {
    if i == 0 {
        85
    } else if i == 1 {
        38
    } else if i == 2 {
        42
    } else if i == 3 {
        44
    } else if i == 4 {
        1
    } else {
        128
    }
}

/// The sizes of the first `n` batteries together.
pub open spec fn expected_sizes(n: int) -> nat
    decreases n,
{
    if n <= 0 {
        0
    } else {
        expected_sizes(n - 1) + expected_size(n - 1)
    }
}

/// The sizes that the batteries must have make up the number of cases.
pub proof fn law_battery_sizes_make_up_the_corpus()
    ensures
        expected_sizes(tractor::BATTERIES as int) == TRACTOR_CASES,
{
    reveal_with_fuel(expected_sizes, 7);
}

/// What is wrong with the data that the tables were made of.
#[derive(Debug, Clone)]
pub enum Invariant {
    /// No agent was tested on as many cases as there are.
    TractorTotal { got: u32 },
    /// A battery has another size than it must have.
    BatterySize { battery: String, got: u32, expected: u32 },
    /// The results of an agent are missing.
    AgentDir { agent: String },
    /// What stood before the verification was never scored.
    NoValidate,
    /// Cases that share a source do not share it.
    SharedSource { battery: String, case_dirs: usize, distinct: usize },
    /// The text uses macros that nothing defines.
    MissingMacros { names: Vec<String> },
}

/// What is wrong, mathematically.
pub enum InvariantView {
    TractorTotal { got: nat },
    BatterySize { battery: Seq<char>, got: nat, expected: nat },
    AgentDir { agent: Seq<char> },
    NoValidate,
    SharedSource { battery: Seq<char>, case_dirs: nat, distinct: nat },
    MissingMacros { names: Seq<Seq<char>> },
}

impl View for Invariant {
    type V = InvariantView;

    open spec fn view(&self) -> InvariantView {
        match *self {
            Invariant::TractorTotal { got } => InvariantView::TractorTotal { got: got as nat },
            Invariant::BatterySize { battery, got, expected } => InvariantView::BatterySize {
                battery: battery@,
                got: got as nat,
                expected: expected as nat,
            },
            Invariant::AgentDir { agent } => InvariantView::AgentDir { agent: agent@ },
            Invariant::NoValidate => InvariantView::NoValidate,
            Invariant::SharedSource { battery, case_dirs, distinct } => InvariantView::SharedSource {
                battery: battery@,
                case_dirs: case_dirs as nat,
                distinct: distinct as nat,
            },
            Invariant::MissingMacros { names } => InvariantView::MissingMacros {
                names: text::views(names@),
            },
        }
    }
}

/// What is wrong, in words.
pub open spec fn invariant_words(v: InvariantView) -> Seq<char> {
    match v {
        InvariantView::TractorTotal { got } => "TRACTOR invariant failed: max agent case total is "@
            + text::numeral(got) + ", expected 338"@,
        InvariantView::BatterySize { battery, got, expected } =>
            "TRACTOR battery-size invariant failed: "@ + battery + " max cases_tested is "@
            + text::numeral(got) + ", expected "@ + text::numeral(expected),
        InvariantView::AgentDir { agent } =>
            "TRACTOR agent-dir invariant failed: results/Test-Corpus/"@ + agent
            + " is missing (a rename would silently emit a 0/338 row). Fix the mapping or restore the dir."@,
        InvariantView::NoValidate =>
            "no-validate invariant failed: no results/Test-Corpus/kiro/<battery>/summary_translated.json found (the pre-verify scoring pass did not run; \\ActorKiroNoValidate* would be 0/338)."@,
        InvariantView::SharedSource { battery, case_dirs, distinct } =>
            "shared-source dedup invariant failed: "@ + battery + " has "@ + text::numeral(
            case_dirs,
        ) + " case dirs collapsing to "@ + text::numeral(distinct)
            + " distinct sources, expected 1 — symlinks likely did not survive checkout (core.symlinks=false?), which would inflate LOC. Re-clone with symlink support."@,
        InvariantView::MissingMacros { names } =>
            "macros_used.txt lists macros the generator does not emit: "@ + text::list_form(names),
    }
}

impl Invariant {
    /// What is wrong, in words.
    pub fn message(&self) -> (r: String)
        ensures
            r@ == invariant_words(self@),
    {
        match self {
            Invariant::TractorTotal { got } => {
                let mut s = text::copy("TRACTOR invariant failed: max agent case total is ");
                text::push_numeral(&mut s, *got as u64);
                s.append(", expected 338");
                s
            },
            Invariant::BatterySize { battery, got, expected } => {
                let mut s = text::join3(
                    "TRACTOR battery-size invariant failed: ",
                    battery.as_str(),
                    " max cases_tested is ",
                );
                text::push_numeral(&mut s, *got as u64);
                s.append(", expected ");
                text::push_numeral(&mut s, *expected as u64);
                s
            },
            Invariant::AgentDir { agent } => text::join3(
                "TRACTOR agent-dir invariant failed: results/Test-Corpus/",
                agent.as_str(),
                " is missing (a rename would silently emit a 0/338 row). Fix the mapping or restore the dir.",
            ),
            Invariant::NoValidate => text::copy(
                "no-validate invariant failed: no results/Test-Corpus/kiro/<battery>/summary_translated.json found (the pre-verify scoring pass did not run; \\ActorKiroNoValidate* would be 0/338).",
            ),
            Invariant::SharedSource { battery, case_dirs, distinct } => {
                let mut s = text::join3(
                    "shared-source dedup invariant failed: ",
                    battery.as_str(),
                    " has ",
                );
                text::push_numeral(&mut s, *case_dirs as u64);
                s.append(" case dirs collapsing to ");
                text::push_numeral(&mut s, *distinct as u64);
                s.append(
                    " distinct sources, expected 1 — symlinks likely did not survive checkout (core.symlinks=false?), which would inflate LOC. Re-clone with symlink support.",
                );
                s
            },
            Invariant::MissingMacros { names } => text::join2(
                "macros_used.txt lists macros the generator does not emit: ",
                text::quoted_list(names.as_slice()).as_str(),
            ),
        }
    }
}

/// The most cases that any of the agents was tested on.
pub open spec fn most_tested(rows: Seq<Row>, agents: Seq<Seq<char>>) -> nat
    decreases agents.len(),
{
    if agents.len() == 0 {
        0
    } else {
        let before = most_tested(rows, agents.drop_last());
        if tested_by(rows, agents.last()) > before {
            tested_by(rows, agents.last())
        } else {
            before
        }
    }
}

/// Some row is of the battery.
pub open spec fn scored(rows: Seq<Row>, battery: Seq<char>) -> bool {
    exists|i: int| 0 <= i < rows.len() && (#[trigger] rows[i]).battery == battery
}

/// The first of the batteries, from the `n`th on, whose size is wrong.
pub open spec fn wrong_size(rows: Seq<Row>, n: int) -> Option<InvariantView>
    decreases tractor::BATTERIES - n,
{
    if n >= tractor::BATTERIES {
        None
    } else if scored(rows, tractor::battery_dir(n)) && size_of(rows, tractor::battery_dir(n))
        != expected_size(n) {
        Some(
            InvariantView::BatterySize {
                battery: tractor::battery_dir(n),
                got: size_of(rows, tractor::battery_dir(n)),
                expected: expected_size(n),
            },
        )
    } else {
        wrong_size(rows, n + 1)
    }
}

/// There are results of the agent.
pub open spec fn has_agent(agents: Seq<AgentRecord>, name: Seq<char>) -> bool {
    exists|i: int| 0 <= i < agents.len() && (#[trigger] agents[i]).name@ == name
}

/// The first of the agents that must be there and is not.
pub open spec fn missing_agent(agents: Seq<AgentRecord>) -> Option<InvariantView> {
    if !has_agent(agents, "kiro"@) {
        Some(InvariantView::AgentDir { agent: "kiro"@ })
    } else if !has_agent(agents, program::program()) {
        Some(InvariantView::AgentDir { agent: program::program() })
    } else if !has_agent(agents, "codex-gpt54"@) {
        Some(InvariantView::AgentDir { agent: "codex-gpt54"@ })
    } else {
        None
    }
}

/// Some battery of kiro was scored before the verification.
pub open spec fn scored_before(agents: Seq<AgentRecord>) -> bool {
    exists|i: int, j: int|
        0 <= i < agents.len() && agents[i].name@ == "kiro"@ && 0 <= j < agents[i].batteries@.len()
            && (#[trigger] agents[i].batteries@[j]).has_translated_summary
}

/// A battery whose cases must share one source has several.
pub open spec fn unshared(corpus: Seq<CorpusBattery>, battery: Seq<char>) -> Option<InvariantView> {
    let cs = records::corpus_cases(corpus, battery);
    if records::has_battery(corpus, battery) && records::distinct_locs(cs).len() != 1 {
        Some(
            InvariantView::SharedSource {
                battery,
                case_dirs: cs.len(),
                distinct: records::distinct_locs(cs).len(),
            },
        )
    } else {
        None
    }
}

/// The first battery that must share one source and does not.
pub open spec fn wrong_sharing(corpus: Seq<CorpusBattery>) -> Option<InvariantView> {
    match unshared(corpus, "P01_sphincs_plus"@) {
        Some(v) => Some(v),
        None => unshared(corpus, "P00_perlin_noise"@),
    }
}

/// The macros among the lines that nothing emitted defines. A blank line or a comment names none.
pub open spec fn undefined(lines: Seq<Seq<char>>, emitted: Seq<char>) -> Seq<Seq<char>>
    decreases lines.len(),
{
    if lines.len() == 0 {
        Seq::empty()
    } else {
        let before = undefined(lines.drop_last(), emitted);
        let name = text::trimmed(lines.last());
        if name.len() == 0 || name[0] == '#' || text::found(emitted, "{\\"@ + name + "}"@) {
            before
        } else {
            before.push(name)
        }
    }
}

/// The macros that the text uses and nothing defines.
pub open spec fn wrong_macros(used: Option<Seq<char>>, emitted: Seq<char>) -> Option<
    InvariantView,
> {
    match used {
        Some(t) => {
            let names = undefined(text::lines(t), emitted);
            if names.len() > 0 {
                Some(InvariantView::MissingMacros { names })
            } else {
                None
            }
        },
        None => None,
    }
}

/// The first invariant that does not hold.
pub open spec fn broken(
    rows: Seq<Row>,
    agents: Seq<AgentRecord>,
    corpus: Seq<CorpusBattery>,
    used: Option<Seq<char>>,
    emitted: Seq<char>,
) -> Option<InvariantView> {
    if most_tested(rows, agents_of(rows)) != TRACTOR_CASES {
        Some(InvariantView::TractorTotal { got: most_tested(rows, agents_of(rows)) })
    } else if wrong_size(rows, 0) is Some {
        wrong_size(rows, 0)
    } else if missing_agent(agents) is Some {
        missing_agent(agents)
    } else if !scored_before(agents) {
        Some(InvariantView::NoValidate)
    } else if wrong_sharing(corpus) is Some {
        wrong_sharing(corpus)
    } else {
        wrong_macros(used, emitted)
    }
}

fn most_tested_of(rows: &[BatteryRow]) -> (r: u32)
    requires
        rows_fit(records::row_views(rows@)),
    ensures
        r == most_tested(records::row_views(rows@), agents_of(records::row_views(rows@))),
{
    let ghost all = records::row_views(rows@);
    let agents = agent_names(rows);
    let ghost ags = agents_of(all);
    let mut m: u32 = 0;
    let mut i: usize = 0;
    while i < agents.len()
        invariant
            i <= agents.len(),
            all == records::row_views(rows@),
            rows_fit(all),
            ags == text::views(agents@),
            m == most_tested(all, ags.subrange(0, i as int)),
        decreases agents.len() - i,
    {
        proof {
            assert(ags.subrange(0, i + 1).drop_last() =~= ags.subrange(0, i as int));
            assert(ags.subrange(0, i + 1).last() == agents@[i as int]@);
            assert(passed_by(all, agents@[i as int]@) <= u32::MAX);
            assert(tested_by(all, agents@[i as int]@) <= u32::MAX);
            assert(loc_by(all, agents@[i as int]@) <= u32::MAX);
        }
        let t: u32 = sums_by(rows, agents[i].as_str()).tested;
        if t > m {
            m = t;
        }
        i = i + 1;
    }
    assert(ags.subrange(0, agents.len() as int) =~= ags);
    m
}

fn is_scored(rows: &[BatteryRow], battery: &str) -> (r: bool)
    ensures
        r == scored(records::row_views(rows@), battery@),
{
    let ghost all = records::row_views(rows@);
    let mut i: usize = 0;
    while i < rows.len()
        invariant
            i <= rows.len(),
            all == records::row_views(rows@),
            forall|j: int| 0 <= j < i ==> (#[trigger] all[j]).battery != battery@,
        decreases rows.len() - i,
    {
        assert(all[i as int] == rows@[i as int]@);
        if text::same_text(rows[i].battery.as_str(), battery) {
            return true;
        }
        i = i + 1;
    }
    false
}

fn expected_of(i: usize) -> (r: u32)
    ensures
        r == expected_size(i as int),
{
    if i == 0 {
        85
    } else if i == 1 {
        38
    } else if i == 2 {
        42
    } else if i == 3 {
        44
    } else if i == 4 {
        1
    } else {
        128
    }
}

fn check_sizes(rows: &[BatteryRow]) -> (r: Option<Invariant>)
    ensures
        r is Some <==> wrong_size(records::row_views(rows@), 0) is Some,
        r matches Some(v) ==> wrong_size(records::row_views(rows@), 0) == Some(v@),
{
    let ghost all = records::row_views(rows@);
    let mut i: usize = 0;
    while i < tractor::BATTERIES
        invariant
            i <= tractor::BATTERIES,
            all == records::row_views(rows@),
            wrong_size(all, 0) == wrong_size(all, i as int),
        decreases tractor::BATTERIES - i,
    {
        let name = tractor::battery_of(i);
        if is_scored(rows, name) {
            let got: u32 = battery_size(rows, name);
            let expected: u32 = expected_of(i);
            if got != expected {
                return Some(
                    Invariant::BatterySize { battery: text::copy(name), got, expected },
                );
            }
        }
        i = i + 1;
    }
    None
}

fn agent_there(agents: &[AgentRecord], name: &str) -> (r: bool)
    ensures
        r == has_agent(agents@, name@),
{
    let mut i: usize = 0;
    while i < agents.len()
        invariant
            i <= agents.len(),
            forall|j: int| 0 <= j < i ==> (#[trigger] agents@[j]).name@ != name@,
        decreases agents.len() - i,
    {
        if text::same_text(agents[i].name.as_str(), name) {
            assert(agents@[i as int].name@ == name@);
            return true;
        }
        i = i + 1;
    }
    false
}

fn check_agents(agents: &[AgentRecord]) -> (r: Option<Invariant>)
    ensures
        r is Some <==> missing_agent(agents@) is Some,
        r matches Some(v) ==> missing_agent(agents@) == Some(v@),
{
    if !agent_there(agents, "kiro") {
        Some(Invariant::AgentDir { agent: text::copy("kiro") })
    } else if !agent_there(agents, program::program_name().as_str()) {
        Some(Invariant::AgentDir { agent: program::program_name() })
    } else if !agent_there(agents, "codex-gpt54") {
        Some(Invariant::AgentDir { agent: text::copy("codex-gpt54") })
    } else {
        None
    }
}

fn check_scored_before(agents: &[AgentRecord]) -> (r: bool)
    ensures
        r == scored_before(agents@),
{
    let mut i: usize = 0;
    while i < agents.len()
        invariant
            i <= agents.len(),
            forall|p: int, q: int|
                0 <= p < i && agents@[p].name@ == "kiro"@ && 0 <= q < agents@[p].batteries@.len()
                    ==> !(#[trigger] agents@[p].batteries@[q]).has_translated_summary,
        decreases agents.len() - i,
    {
        if text::same_text(agents[i].name.as_str(), "kiro") {
            let bs = &agents[i].batteries;
            let mut j: usize = 0;
            while j < bs.len()
                invariant
                    i < agents.len(),
                    j <= bs.len(),
                    *bs == agents@[i as int].batteries,
                    agents@[i as int].name@ == "kiro"@,
                    forall|q: int| 0 <= q < j ==> !(#[trigger] bs@[q]).has_translated_summary,
                decreases bs.len() - j,
            {
                if bs[j].has_translated_summary {
                    assert(agents@[i as int].batteries@[j as int].has_translated_summary);
                    return true;
                }
                j = j + 1;
            }
        }
        i = i + 1;
    }
    false
}

fn check_battery_sharing(corpus: &[CorpusBattery], battery: &str) -> (r: Option<Invariant>)
    requires
        corpus_countable(corpus@),
    ensures
        r is Some <==> unshared(corpus@, battery@) is Some,
        r matches Some(v) ==> unshared(corpus@, battery@) == Some(v@),
{
    match records::find_battery(corpus, battery) {
        Some(b) => {
            let locs = locs_of(corpus, battery);
            assert(records::nats(locs@).len() == locs@.len());
            if locs.len() != 1 {
                Some(
                    Invariant::SharedSource {
                        battery: text::copy(battery),
                        case_dirs: b.cases.len(),
                        distinct: locs.len(),
                    },
                )
            } else {
                None
            }
        },
        None => None,
    }
}

fn check_sharing(corpus: &[CorpusBattery]) -> (r: Option<Invariant>)
    requires
        corpus_countable(corpus@),
    ensures
        r is Some <==> wrong_sharing(corpus@) is Some,
        r matches Some(v) ==> wrong_sharing(corpus@) == Some(v@),
{
    match check_battery_sharing(corpus, "P01_sphincs_plus") {
        Some(v) => Some(v),
        None => check_battery_sharing(corpus, "P00_perlin_noise"),
    }
}

/// The macros that a list uses and nothing emitted defines.
pub fn undefined_macros(used: &str, emitted: &str) -> (r: Vec<String>)
    ensures
        text::views(r@) == undefined(text::lines(used@), emitted@),
{
    let lines = text::lines_of(&text::chars_of(used));
    let hay = text::chars_of(emitted);
    let ghost all = text::lines(used@);
    let mut out: Vec<String> = Vec::new();
    let mut i: usize = 0;
    assert(text::views(out@) =~= undefined(all.subrange(0, 0), emitted@));
    while i < lines.len()
        invariant
            i <= lines.len(),
            all == text::char_views(lines@),
            hay@ == emitted@,
            text::views(out@) == undefined(all.subrange(0, i as int), emitted@),
        decreases lines.len() - i,
    {
        broadcast use text::lemma_views_push;

        assert(all.subrange(0, i + 1).drop_last() =~= all.subrange(0, i as int));
        assert(all.subrange(0, i + 1).last() == lines@[i as int]@);
        let name = text::trim(&lines[i]);
        if name.len() > 0 && name[0] != '#' {
            let word = text::string_of(&name);
            let needle = text::chars_of(text::join3("{\\", word.as_str(), "}").as_str());
            if !text::contains(&hay, &needle) {
                out.push(word);
            }
        }
        i = i + 1;
    }
    assert(all.subrange(0, lines.len() as int) =~= all);
    out
}

/// The view of an optional text.
pub open spec fn maybe(s: Option<&str>) -> Option<Seq<char>> {
    match s {
        Some(t) => Some(t@),
        None => None,
    }
}

fn check_macros(used: Option<&str>, emitted: &str) -> (r: Option<Invariant>)
    ensures
        r is Some <==> wrong_macros(maybe(used), emitted@) is Some,
        r matches Some(v) ==> wrong_macros(maybe(used), emitted@) == Some(v@),
{
    match used {
        Some(t) => {
            let names = undefined_macros(t, emitted);
            assert(text::views(names@).len() == names@.len());
            if names.len() > 0 {
                Some(Invariant::MissingMacros { names })
            } else {
                None
            }
        },
        None => None,
    }
}

/// Holds the data to the invariants: the first that does not hold, if any.
pub fn check_invariants(
    rows: &[BatteryRow],
    agents: &[AgentRecord],
    corpus: &[CorpusBattery],
    macros_used: Option<&str>,
    emitted: &str,
) -> (r: Result<(), Invariant>)
    requires
        rows_fit(records::row_views(rows@)),
        corpus_countable(corpus@),
    ensures
        r is Ok <==> broken(
            records::row_views(rows@),
            agents@,
            corpus@,
            maybe(macros_used),
            emitted@,
        ) is None,
        r matches Err(v) ==> broken(
            records::row_views(rows@),
            agents@,
            corpus@,
            maybe(macros_used),
            emitted@,
        ) == Some(v@),
{
    let got: u32 = most_tested_of(rows);
    if got != TRACTOR_CASES {
        return Err(Invariant::TractorTotal { got });
    }
    if let Some(v) = check_sizes(rows) {
        return Err(v);
    }
    if let Some(v) = check_agents(agents) {
        return Err(v);
    }
    if !check_scored_before(agents) {
        return Err(Invariant::NoValidate);
    }
    if let Some(v) = check_sharing(corpus) {
        return Err(v);
    }
    match check_macros(macros_used, emitted) {
        Some(v) => Err(v),
        None => Ok(()),
    }
}

// ---------------------------------------------------------------------------
// The report
// ---------------------------------------------------------------------------

/// What the report is made of.
#[derive(Debug, Clone)]
pub struct ReportInput {
    pub agents: Vec<AgentRecord>,
    /// The corpus, where it is checked out.
    pub corpus: Option<Vec<CorpusBattery>>,
    /// The text of the manual constants.
    pub constants: Option<String>,
    /// The text that lists the macros in use.
    pub macros_used: Option<String>,
    pub cost: Option<CostFigures>,
    pub p01_cost: Option<(String, String)>,
    /// The share of unsafe lines of each row, as it is printed.
    pub shares: Vec<String>,
    /// The percentage of unsafe lines in each cell of the TRACTOR table.
    pub cell_shares: Vec<Vec<u32>>,
}

/// The tables. Without the corpus there is no `results.md`: its column of C lines would be zero.
#[derive(Debug, Clone)]
pub struct Tables {
    pub results: Option<String>,
    pub tractor: String,
    pub numbers: String,
    pub datasets: String,
    pub prompt_sensitivity: String,
    pub manual: String,
}

impl ReportInput {
    /// The corpus; empty where it is not checked out.
    pub open spec fn corpus_seq(&self) -> Seq<CorpusBattery> {
        match self.corpus {
            Some(c) => c@,
            None => Seq::empty(),
        }
    }

    /// The rows.
    pub open spec fn rows(&self) -> Seq<Row> {
        records::rows_of_all(self.agents@, self.corpus_seq())
    }

    /// The batteries of the agent with a name.
    pub open spec fn batteries(&self, name: Seq<char>) -> Seq<records::BatteryRecord> {
        batteries_by(self.agents@, name)
    }

    /// What Laertes does to the builds of C2Rust.
    pub open spec fn builds(&self, name: Seq<char>) -> Seq<(Seq<char>, bool)> {
        records::builds_of(self.batteries(name))
    }

    /// The manual constants, where they are TOML.
    pub open spec fn manual(&self) -> Option<toml::Entries> {
        match self.constants {
            Some(t) => toml::read(t@),
            None => None,
        }
    }

    /// Every number fits, and there is a share for every row and cell.
    pub open spec fn fits(&self) -> bool {
        &&& records::agents_fit(self.agents@)
        &&& corpus_countable(self.corpus_seq())
        &&& corpus_loc(self.corpus_seq(), tractor::BATTERIES as int) <= u32::MAX
        &&& rows_fit(self.rows())
        &&& tractor::totals_fit(self.rows())
        &&& tractor::shares_cover(self.cell_shares@)
        &&& self.shares@.len() == self.rows().len()
    }
}

/// The batteries of the agent with a name.
pub open spec fn batteries_by(agents: Seq<AgentRecord>, name: Seq<char>) -> Seq<
    records::BatteryRecord,
>
    decreases agents.len(),
{
    if agents.len() == 0 {
        Seq::empty()
    } else if agents.last().name@ == name {
        agents.last().batteries@
    } else {
        batteries_by(agents.drop_last(), name)
    }
}

fn builds_by(agents: &[AgentRecord], name: &str) -> (r: Vec<(String, bool)>)
    ensures
        records::pair_views(r@) == records::builds_of(batteries_by(agents@, name@)),
{
    let mut i: usize = agents.len();
    assert(agents@.subrange(0, i as int) =~= agents@);
    while i > 0
        invariant
            i <= agents.len(),
            batteries_by(agents@, name@) == batteries_by(agents@.subrange(0, i as int), name@),
        decreases i,
    {
        assert(agents@.subrange(0, i as int).drop_last() =~= agents@.subrange(0, i - 1));
        if text::same_text(agents[i - 1].name.as_str(), name) {
            return records::case_builds(agents[i - 1].batteries.as_slice());
        }
        i = i - 1;
    }
    let none: Vec<(String, bool)> = Vec::new();
    assert(records::pair_views(none@) =~= Seq::<(Seq<char>, bool)>::empty());
    none
}

/// The view of an optional string.
pub open spec fn maybe_string(s: Option<String>) -> Option<Seq<char>> {
    match s {
        Some(t) => Some(t@),
        None => None,
    }
}

/// Makes every table, and holds the data they were made of to the invariants.
pub fn generate(input: &ReportInput) -> (r: (Tables, Result<(), Invariant>))
    requires
        input.fits(),
    ensures
        r.0.results is Some <==> input.corpus is Some,
        r.0.results matches Some(t) ==> t@ == results_md(
            input.rows(),
            text::views(input.shares@),
        ),
        r.0.tractor@ == tractor::tractor_tex(input.rows(), input.cell_shares@),
        r.0.numbers@ == numbers_tex(
            input.rows(),
            input.corpus_seq(),
            input.cost,
            input.p01_cost,
            LaertesDelta {
                broke: records::changed(
                    input.builds("c2rust"@),
                    input.builds("laertes"@),
                    true,
                    false,
                ) as usize,
                fixed: records::changed(
                    input.builds("c2rust"@),
                    input.builds("laertes"@),
                    false,
                    true,
                ) as usize,
            },
        ),
        r.0.datasets@ == datasets_tex(input.corpus_seq()),
        r.0.prompt_sensitivity@ == prompt_sensitivity_tex(input.rows(), input.manual()),
        r.0.manual@ == manual_tex(input.manual()),
        ({
            let verdict = broken(
                input.rows(),
                input.agents@,
                input.corpus_seq(),
                maybe_string(input.macros_used),
                r.0.numbers@ + "\n"@ + r.0.manual@,
            );
            &&& r.1 is Ok <==> verdict is None
            &&& r.1 matches Err(v) ==> verdict == Some(v@)
        }),
{
    let empty: Vec<CorpusBattery> = Vec::new();
    let corpus: &[CorpusBattery] = match &input.corpus {
        Some(c) => c.as_slice(),
        None => empty.as_slice(),
    };
    assert(corpus@ =~= input.corpus_seq());
    let rows = records::collect_rows(input.agents.as_slice(), corpus);
    assert(records::row_views(rows@).len() == rows@.len());
    let constants: Option<&str> = match &input.constants {
        Some(t) => Some(t.as_str()),
        None => None,
    };
    let used: Option<&str> = match &input.macros_used {
        Some(t) => Some(t.as_str()),
        None => None,
    };
    let results = match &input.corpus {
        Some(_) => Some(write_results_md(rows.as_slice(), input.shares.as_slice())),
        None => None,
    };
    let c2rust = builds_by(input.agents.as_slice(), "c2rust");
    let laertes = builds_by(input.agents.as_slice(), "laertes");
    let delta = records::laertes_vs_c2rust(c2rust.as_slice(), laertes.as_slice());
    let numbers = generate_numbers_tex(
        rows.as_slice(),
        corpus,
        &input.cost,
        &input.p01_cost,
        delta,
    );
    let manual = generate_manual_tex(constants);
    let emitted = text::join3(numbers.as_str(), "\n", manual.as_str());
    let verdict = check_invariants(
        rows.as_slice(),
        input.agents.as_slice(),
        corpus,
        used,
        emitted.as_str(),
    );
    let tables = Tables {
        results,
        tractor: tractor::generate_tractor_tex(rows.as_slice(), input.cell_shares.as_slice()),
        numbers,
        datasets: generate_datasets_tex(corpus),
        prompt_sensitivity: generate_prompt_sensitivity_tex(rows.as_slice(), constants),
        manual,
    };
    (tables, verdict)
}

// ---------------------------------------------------------------------------
// Laws
// ---------------------------------------------------------------------------

proof fn lemma_numeral_is_plain(n: nat)
    ensures
        !text::numeral(n).contains('|'),
        !text::numeral(n).contains('/'),
{
    text::lemma_numeral_value(n);
    let s = text::numeral(n);
    assert forall|i: int| 0 <= i < s.len() implies s[i] != '|' && s[i] != '/' by {
        assert(text::is_digit(s[i]));
    }
}

proof fn lemma_no_bar(a: Seq<char>, b: Seq<char>)
    ensures
        (a + b).contains('|') <==> a.contains('|') || b.contains('|'),
{
    let s = a + b;
    if s.contains('|') {
        let i = choose|i: int| 0 <= i < s.len() && s[i] == '|';
        if i < a.len() {
            assert(a[i] == '|');
        } else {
            assert(b[i - a.len()] == '|');
        }
    }
    if a.contains('|') {
        let i = choose|i: int| 0 <= i < a.len() && a[i] == '|';
        assert(s[i] == '|');
    }
    if b.contains('|') {
        let i = choose|i: int| 0 <= i < b.len() && b[i] == '|';
        assert(s[a.len() + i] == '|');
    }
}

/// The cells of a line of a table: what stands between its bars.
pub open spec fn cells_of(line: Seq<char>) -> Seq<Seq<char>> {
    text::split(line, '|')
}

/// A cell with a blank on either side.
pub open spec fn padded(s: Seq<char>) -> Seq<char> {
    " "@ + s + " "@
}

proof fn lemma_padded(s: Seq<char>)
    requires
        !s.contains('|'),
    ensures
        !padded(s).contains('|'),
{
    reveal_strlit(" ");
    lemma_no_bar(" "@ + s, " "@);
    lemma_no_bar(" "@, s);
    assert(!" "@.contains('|')) by {
        assert(" "@[0] == ' ');
    }
}

proof fn lemma_one_cell(cell: Seq<char>, rest: Seq<char>)
    requires
        !cell.contains('|'),
    ensures
        cells_of(cell + "|"@ + rest) == seq![cell] + cells_of(rest),
{
    reveal_strlit("|");
    text::law_a_text_is_split_at_its_separators(cell, '|', rest);
    assert(cell + "|"@ + rest =~= cell.push('|') + rest);
}

proof fn lemma_ratio_is_plain(a: nat, b: nat)
    ensures
        !ratio(a, b).contains('|'),
{
    reveal_strlit("/");
    lemma_numeral_is_plain(a);
    lemma_numeral_is_plain(b);
    lemma_no_bar(text::numeral(a) + "/"@, text::numeral(b));
    lemma_no_bar(text::numeral(a), "/"@);
    assert(!"/"@.contains('|')) by {
        assert("/"@[0] == '/');
    }
}

/// The cells of a row of a battery's table stand under its titles: the agent, then the cases that
/// passed of those that were tested, then the vectors that passed of all, then the lines of C, of Rust
/// and of unsafe Rust, and then the share of these.
pub proof fn law_a_row_holds_what_its_columns_say(r: Row, share: Seq<char>, battery: Seq<char>)
    requires
        !r.agent.contains('|'),
        !share.contains('|'),
    ensures
        ({
            let cells = cells_of(md_row(r, share));
            &&& cells.len() == 9
            &&& cells[1] == padded(r.agent)
            &&& cells[2] == padded(
                text::numeral(r.cases_passed) + "/"@ + text::numeral(r.cases_tested),
            )
            &&& cells[3] == padded(
                text::numeral(r.vectors_passed) + "/"@ + text::numeral(r.vectors_total),
            )
            &&& cells[4] == padded(text::numeral(r.c_loc))
            &&& cells[5] == padded(text::numeral(r.total_loc))
            &&& cells[6] == padded(text::numeral(r.unsafe_lines))
            &&& cells[7] == padded(
                if r.total_loc > 0 {
                    share
                } else {
                    "N/A"@
                },
            )
        }),
        text::found(
            md_head(battery),
            "\n\n| Agent | Cases Passed | Vectors Passed | C LOC | Rust LOC | Unsafe Lines | Unsafe % |\n|-------|-------------|----------------|-------|----------|-------------|----------|\n"@,
        ),
        text::begins(md_head(battery), "## "@ + battery),
{
    lemma_ratio_is_plain(r.cases_passed, r.cases_tested);
    lemma_ratio_is_plain(r.vectors_passed, r.vectors_total);
    lemma_numeral_is_plain(r.c_loc);
    lemma_numeral_is_plain(r.total_loc);
    lemma_numeral_is_plain(r.unsafe_lines);
    let c1 = r.agent;
    let c2 = ratio(r.cases_passed, r.cases_tested);
    let c3 = ratio(r.vectors_passed, r.vectors_total);
    let c4 = text::numeral(r.c_loc);
    let c5 = text::numeral(r.total_loc);
    let c6 = text::numeral(r.unsafe_lines);
    let c7 = share_cell(r, share);
    assert(!c7.contains('|')) by {
        reveal_strlit("N/A");
        assert("N/A"@[0] == 'N' && "N/A"@[1] == '/' && "N/A"@[2] == 'A');
    }
    lemma_seven_cells(c1, c2, c3, c4, c5, c6, c7);
    lemma_bars(c1, c2, c3, c4, c5, c6, c7);
    let titles =
        "\n\n| Agent | Cases Passed | Vectors Passed | C LOC | Rust LOC | Unsafe Lines | Unsafe % |\n|-------|-------------|----------------|-------|----------|-------------|----------|\n"@;
    text::lemma_found_inside("## "@ + battery, titles, Seq::empty());
    assert(md_head(battery) =~= "## "@ + battery + titles + Seq::<char>::empty());
    let first = "## "@ + battery;
    assert(md_head(battery).subrange(0, first.len() as int) =~= first);
}

proof fn lemma_bars(
    a: Seq<char>,
    b: Seq<char>,
    c: Seq<char>,
    d: Seq<char>,
    e: Seq<char>,
    f: Seq<char>,
    g: Seq<char>,
)
    ensures
        "| "@ + a + " | "@ + b + " | "@ + c + " | "@ + d + " | "@ + e + " | "@ + f + " | "@ + g
            + " |\n"@ == seven_cells(a, b, c, d, e, f, g),
{
    reveal_strlit("| ");
    reveal_strlit(" | ");
    reveal_strlit(" |\n");
    reveal_strlit("|");
    reveal_strlit(" ");
    reveal_strlit("\n");
    let bar = "|"@;
    let blank = " "@;
    assert("| "@ =~= bar + blank);
    assert(" | "@ =~= blank + bar + blank);
    assert(" |\n"@ =~= blank + bar + "\n"@);
    assert("| "@ + a + " | "@ + b + " | "@ + c + " | "@ + d + " | "@ + e + " | "@ + f + " | "@ + g
        + " |\n"@ =~= seven_cells(a, b, c, d, e, f, g));
}

spec fn seven_cells(
    a: Seq<char>,
    b: Seq<char>,
    c: Seq<char>,
    d: Seq<char>,
    e: Seq<char>,
    f: Seq<char>,
    g: Seq<char>,
) -> Seq<char> {
    Seq::<char>::empty() + "|"@ + (padded(a) + "|"@ + (padded(b) + "|"@ + (padded(c) + "|"@ + (
    padded(d) + "|"@ + (padded(e) + "|"@ + (padded(f) + "|"@ + (padded(g) + "|"@ + "\n"@)))))))
}

proof fn lemma_seven_cells(
    a: Seq<char>,
    b: Seq<char>,
    c: Seq<char>,
    d: Seq<char>,
    e: Seq<char>,
    f: Seq<char>,
    g: Seq<char>,
)
    requires
        !a.contains('|'),
        !b.contains('|'),
        !c.contains('|'),
        !d.contains('|'),
        !e.contains('|'),
        !f.contains('|'),
        !g.contains('|'),
    ensures
        ({
            let cells = cells_of(seven_cells(a, b, c, d, e, f, g));
            &&& cells.len() == 9
            &&& cells[1] == padded(a)
            &&& cells[2] == padded(b)
            &&& cells[3] == padded(c)
            &&& cells[4] == padded(d)
            &&& cells[5] == padded(e)
            &&& cells[6] == padded(f)
            &&& cells[7] == padded(g)
        }),
{
    lemma_padded(a);
    lemma_padded(b);
    lemma_padded(c);
    lemma_padded(d);
    lemma_padded(e);
    lemma_padded(f);
    lemma_padded(g);
    reveal_strlit("\n");
    assert(!"\n"@.contains('|')) by {
        assert("\n"@[0] == '\n');
    }
    text::law_a_text_is_split_at_its_separators("\n"@, '|', Seq::empty());
    let r7 = padded(g) + "|"@ + "\n"@;
    lemma_one_cell(padded(g), "\n"@);
    let r6 = padded(f) + "|"@ + r7;
    lemma_one_cell(padded(f), r7);
    let r5 = padded(e) + "|"@ + r6;
    lemma_one_cell(padded(e), r6);
    let r4 = padded(d) + "|"@ + r5;
    lemma_one_cell(padded(d), r5);
    let r3 = padded(c) + "|"@ + r4;
    lemma_one_cell(padded(c), r4);
    let r2 = padded(b) + "|"@ + r3;
    lemma_one_cell(padded(b), r3);
    let r1 = padded(a) + "|"@ + r2;
    lemma_one_cell(padded(a), r2);
    lemma_one_cell(Seq::empty(), r1);
}

/// The cases passed are told alike in a battery's table and in the summary of all, and how many cases
/// compiled plays no part in either.
pub proof fn law_the_summary_agrees_with_the_tables(
    rows: Seq<Row>,
    r: Row,
    other: Row,
    share: Seq<char>,
)
    requires
        !r.agent.contains('|'),
        !share.contains('|'),
        last_row(rows, r.agent, r.battery) == Some(r),
        other == (Row { cases_built: other.cases_built, ..r }),
    ensures
        md_cell(rows, r.agent, r.battery) == cells_of(md_row(r, share))[2] + "|"@,
        md_row(r, share) == md_row(other, share),
{
    law_a_row_holds_what_its_columns_say(r, share, r.battery);
    reveal_strlit(" |");
    reveal_strlit(" ");
    reveal_strlit("|");
    assert(" |"@ =~= " "@ + "|"@);
    let c = ratio(r.cases_passed, r.cases_tested);
    assert(" "@ + c + " |"@ =~= padded(c) + "|"@);
}

/// An agent that was not scored on a battery has a dash there.
pub proof fn law_an_unscored_battery_is_a_dash(rows: Seq<Row>, agent: Seq<char>, battery: Seq<char>)
    requires
        forall|i: int|
            0 <= i < rows.len() ==> (#[trigger] rows[i]).agent != agent || rows[i].battery
                != battery,
    ensures
        last_row(rows, agent, battery) is None,
        md_cell(rows, agent, battery) == " — |"@,
    decreases rows.len(),
{
    if rows.len() > 0 {
        let d = rows.drop_last();
        assert forall|i: int| 0 <= i < d.len() implies (#[trigger] d[i]).agent != agent
            || d[i].battery != battery by {
            assert(d[i] == rows[i]);
        }
        law_an_unscored_battery_is_a_dash(d, agent, battery);
        assert(rows[rows.len() - 1] == rows.last());
    }
}

/// The row of an agent and a battery is the last that has both.
pub proof fn law_the_last_row_of_a_battery_counts(
    rows: Seq<Row>,
    agent: Seq<char>,
    battery: Seq<char>,
    k: int,
)
    requires
        0 <= k < rows.len(),
        rows[k].agent == agent,
        rows[k].battery == battery,
        forall|i: int|
            k < i < rows.len() ==> (#[trigger] rows[i]).agent != agent || rows[i].battery
                != battery,
    ensures
        last_row(rows, agent, battery) == Some(rows[k]),
    decreases rows.len(),
{
    if k < rows.len() - 1 {
        let d = rows.drop_last();
        assert(rows[rows.len() - 1].agent != agent || rows[rows.len() - 1].battery != battery);
        assert forall|i: int| k < i < d.len() implies (#[trigger] d[i]).agent != agent
            || d[i].battery != battery by {
            assert(d[i] == rows[i]);
        }
        law_the_last_row_of_a_battery_counts(d, agent, battery, k);
    }
}

/// What an agent passed, was tested on and wrote is summed over its own rows, whatever rows others
/// have.
pub proof fn law_sums_are_over_the_rows_of_an_agent(rows: Seq<Row>, r: Row, agent: Seq<char>)
    ensures
        r.agent == agent ==> {
            &&& passed_by(rows.push(r), agent) == passed_by(rows, agent) + r.cases_passed
            &&& tested_by(rows.push(r), agent) == tested_by(rows, agent) + r.cases_tested
            &&& loc_by(rows.push(r), agent) == loc_by(rows, agent) + r.total_loc
        },
        r.agent != agent ==> {
            &&& passed_by(rows.push(r), agent) == passed_by(rows, agent)
            &&& tested_by(rows.push(r), agent) == tested_by(rows, agent)
            &&& loc_by(rows.push(r), agent) == loc_by(rows, agent)
        },
        passed_by(Seq::empty(), agent) == 0,
        tested_by(Seq::empty(), agent) == 0,
        loc_by(Seq::empty(), agent) == 0,
{
    assert(rows.push(r).drop_last() =~= rows);
}

/// The size of a battery is the most that any row of it was tested on.
pub proof fn law_the_size_of_a_battery_is_the_most_tested(rows: Seq<Row>, battery: Seq<char>)
    ensures
        forall|i: int|
            0 <= i < rows.len() && (#[trigger] rows[i]).battery == battery ==> rows[i].cases_tested
                <= size_of(rows, battery),
        size_of(rows, battery) == 0 || exists|i: int|
            0 <= i < rows.len() && (#[trigger] rows[i]).battery == battery && rows[i].cases_tested
                == size_of(rows, battery),
    decreases rows.len(),
{
    if rows.len() > 0 {
        let d = rows.drop_last();
        law_the_size_of_a_battery_is_the_most_tested(d, battery);
        assert forall|i: int|
            0 <= i < rows.len() && (#[trigger] rows[i]).battery == battery implies rows[i].cases_tested
            <= size_of(rows, battery) by {
            if i < d.len() {
                assert(d[i] == rows[i]);
            }
        }
        if size_of(rows, battery) != 0 {
            if rows.last().battery == battery && rows.last().cases_tested > size_of(d, battery) {
                assert(rows[rows.len() - 1] == rows.last());
            } else {
                let i = choose|i: int|
                    0 <= i < d.len() && (#[trigger] d[i]).battery == battery && d[i].cases_tested
                        == size_of(d, battery);
                assert(rows[i] == d[i]);
            }
        }
    }
}

proof fn lemma_once(s: Seq<Seq<char>>)
    requires
        forall|i: int, j: int|
            0 <= i < j < s.len() ==> !text::precedes(#[trigger] s[j], #[trigger] s[i]),
    ensures
        once(s).len() > 0 <==> s.len() > 0,
        s.len() > 0 ==> once(s).last() == s.last(),
        forall|i: int, j: int|
            0 <= i < j < once(s).len() ==> text::precedes(#[trigger] once(s)[i], #[trigger] once(s)[j]),
        forall|x: Seq<char>| #[trigger] once(s).contains(x) <==> s.contains(x),
    decreases s.len(),
{
    if s.len() > 0 {
        let d = s.drop_last();
        assert forall|i: int, j: int| 0 <= i < j < d.len() implies !text::precedes(
            #[trigger] d[j],
            #[trigger] d[i],
        ) by {
            assert(d[i] == s[i] && d[j] == s[j]);
        }
        lemma_once(d);
        let b = once(d);
        let a = once(s);
        if d.len() > 0 {
            assert(!text::precedes(s[s.len() - 1], s[d.len() - 1]));
            text::lemma_precedes_total(d.last(), s.last());
        }
        assert forall|i: int, j: int| 0 <= i < j < a.len() implies text::precedes(
            #[trigger] a[i],
            #[trigger] a[j],
        ) by {
            if j < b.len() {
                assert(a[i] == b[i] && a[j] == b[j]);
            } else {
                assert(a[j] == s.last());
                assert(a[i] == b[i]);
                if i < b.len() - 1 {
                    assert(text::precedes(b[i], b[b.len() - 1]));
                    text::lemma_precedes_transitive(b[i], b.last(), s.last());
                }
            }
        }
        assert forall|x: Seq<char>| #[trigger] a.contains(x) <==> s.contains(x) by {
            if a.contains(x) {
                let i = choose|i: int| 0 <= i < a.len() && a[i] == x;
                if i < b.len() {
                    assert(b[i] == x);
                    assert(b.contains(x));
                    let k = choose|k: int| 0 <= k < d.len() && d[k] == x;
                    assert(s[k] == x);
                } else {
                    assert(s[s.len() - 1] == x);
                }
            }
            if s.contains(x) {
                let k = choose|k: int| 0 <= k < s.len() && s[k] == x;
                if k < d.len() {
                    assert(d[k] == x);
                    assert(d.contains(x));
                    assert(b.contains(x));
                    let i = choose|i: int| 0 <= i < b.len() && b[i] == x;
                    assert(a[i] == x);
                } else {
                    assert(a[a.len() - 1] == x);
                }
            }
        }
    }
}

proof fn lemma_each_once(s: Seq<Seq<char>>, x: Seq<char>)
    ensures
        once(text::in_order(s)).contains(x) <==> s.contains(x),
        forall|i: int, j: int|
            0 <= i < j < once(text::in_order(s)).len() ==> text::precedes(
                #[trigger] once(text::in_order(s))[i],
                #[trigger] once(text::in_order(s))[j],
            ),
{
    let o = text::in_order(s);
    assert forall|i: int, j: int| 0 <= i < j < o.len() implies !text::precedes(
        #[trigger] o[j],
        #[trigger] o[i],
    ) by {
        text::law_putting_in_order_keeps_every_text(s, i, j);
    }
    text::law_putting_in_order_keeps_every_text(s, 0, 0);
    lemma_once(o);
    vstd::seq_lib::to_multiset_contains(s, x);
    vstd::seq_lib::to_multiset_contains(o, x);
    assert(once(o).contains(x) <==> o.contains(x));
}

/// The tables name each battery and each agent that has a row, once and in order, and no other.
pub proof fn law_every_battery_and_agent_stands_once(rows: Seq<Row>, name: Seq<char>)
    ensures
        batteries_of(rows).contains(name) <==> exists|i: int|
            0 <= i < rows.len() && (#[trigger] rows[i]).battery == name,
        agents_of(rows).contains(name) <==> exists|i: int|
            0 <= i < rows.len() && (#[trigger] rows[i]).agent == name,
        forall|i: int, j: int|
            0 <= i < j < batteries_of(rows).len() ==> text::precedes(
                #[trigger] batteries_of(rows)[i],
                #[trigger] batteries_of(rows)[j],
            ),
        forall|i: int, j: int|
            0 <= i < j < agents_of(rows).len() ==> text::precedes(
                #[trigger] agents_of(rows)[i],
                #[trigger] agents_of(rows)[j],
            ),
{
    let b = rows.map_values(|r: Row| r.battery);
    let a = rows.map_values(|r: Row| r.agent);
    lemma_each_once(b, name);
    lemma_each_once(a, name);
    if b.contains(name) {
        let i = choose|i: int| 0 <= i < b.len() && b[i] == name;
        assert(rows[i].battery == name);
    }
    if exists|i: int| 0 <= i < rows.len() && (#[trigger] rows[i]).battery == name {
        let i = choose|i: int| 0 <= i < rows.len() && (#[trigger] rows[i]).battery == name;
        assert(b[i] == name);
    }
    if a.contains(name) {
        let i = choose|i: int| 0 <= i < a.len() && a[i] == name;
        assert(rows[i].agent == name);
    }
    if exists|i: int| 0 <= i < rows.len() && (#[trigger] rows[i]).agent == name {
        let i = choose|i: int| 0 <= i < rows.len() && (#[trigger] rows[i]).agent == name;
        assert(a[i] == name);
    }
}

/// The number of cases is that of all batteries together, each at its size.
pub proof fn law_all_cases_are_those_of_the_batteries(
    rows: Seq<Row>,
    names: Seq<Seq<char>>,
    name: Seq<char>,
)
    ensures
        sizes(rows, names.push(name)) == sizes(rows, names) + size_of(rows, name),
        sizes(rows, Seq::empty()) == 0,
        case_count(rows) == sizes(rows, batteries_of(rows)),
{
    assert(names.push(name).drop_last() =~= names);
}

/// The table of a battery holds the rows of that battery, in their order, and no other row.
pub proof fn law_a_table_holds_the_rows_of_its_battery(
    rows: Seq<Row>,
    shares: Seq<Seq<char>>,
    battery: Seq<char>,
    n: int,
)
    requires
        0 <= n,
    ensures
        rows[n].battery == battery ==> md_rows(rows, shares, battery, n + 1) == md_rows(
            rows,
            shares,
            battery,
            n,
        ) + md_row(rows[n], shares[n]),
        rows[n].battery != battery ==> md_rows(rows, shares, battery, n + 1) == md_rows(
            rows,
            shares,
            battery,
            n,
        ),
        md_rows(rows, shares, battery, 0).len() == 0,
{
    reveal_strlit("");
}

/// The line of a battery in the summary has a cell for each agent, in the order of the titles.
pub proof fn law_the_summary_has_a_cell_for_each_agent(
    rows: Seq<Row>,
    battery: Seq<char>,
    agents: Seq<Seq<char>>,
    agent: Seq<char>,
)
    ensures
        md_titles(agents.push(agent)) == md_titles(agents) + " "@ + agent + " |"@,
        md_line(rows, battery, agents.push(agent)) == md_line(rows, battery, agents) + md_cell(
            rows,
            agent,
            battery,
        ),
        md_titles(Seq::empty()) == "| Battery |"@,
        md_line(rows, battery, Seq::empty()) == "| "@ + battery + " |"@,
        md_rule(agents.push(agent).len()) == md_rule(agents.len()) + "------|"@,
{
    assert(agents.push(agent).drop_last() =~= agents);
}

/// Each battery has its table, with its name above, and its line in the summary.
pub proof fn law_each_battery_has_a_table_and_a_line(
    rows: Seq<Row>,
    shares: Seq<Seq<char>>,
    names: Seq<Seq<char>>,
    agents: Seq<Seq<char>>,
    name: Seq<char>,
)
    ensures
        text::ends(
            md_tables(rows, shares, names.push(name)),
            md_rows(rows, shares, name, rows.len() as int) + "\n"@,
        ),
        text::begins(
            md_tables(rows, shares, names.push(name)),
            md_tables(rows, shares, names) + "## "@ + name,
        ),
        md_lines(rows, names.push(name), agents) == md_lines(rows, names, agents) + md_line(
            rows,
            name,
            agents,
        ) + "\n"@,
        md_tables(rows, shares, Seq::empty()).len() == 0,
        md_lines(rows, Seq::empty(), agents).len() == 0,
{
    reveal_strlit("");
    assert(names.push(name).drop_last() =~= names);
    let all = md_tables(rows, shares, names.push(name));
    let end = md_rows(rows, shares, name, rows.len() as int) + "\n"@;
    let before = md_tables(rows, shares, names);
    assert(all =~= before + md_head(name) + end);
    assert(all.subrange(all.len() - end.len(), all.len() as int) =~= end);
    let first = before + "## "@ + name;
    assert(all.subrange(0, first.len() as int) =~= first);
}

/// The greatest number is one of them, and none is greater.
pub proof fn law_the_greatest_is_no_smaller_than_any(v: Seq<u32>)
    ensures
        forall|i: int| 0 <= i < v.len() ==> #[trigger] v[i] <= greatest(v),
        v.len() > 0 ==> exists|i: int| 0 <= i < v.len() && #[trigger] v[i] == greatest(v),
    decreases v.len(),
{
    if v.len() > 0 {
        let d = v.drop_last();
        law_the_greatest_is_no_smaller_than_any(d);
        assert forall|i: int| 0 <= i < v.len() implies #[trigger] v[i] <= greatest(v) by {
            if i < d.len() {
                assert(d[i] == v[i]);
            }
        }
        if v.last() > greatest(d) || d.len() == 0 {
            assert(v[v.len() - 1] == greatest(v));
        } else {
            let i = choose|i: int| 0 <= i < d.len() && #[trigger] d[i] == greatest(d);
            assert(v[i] == greatest(v));
        }
    }
}

/// A line of the datasets tells how many sources there are, and then their lines: all of them, the
/// mean, the median and the most, in this order and each behind an ampersand.
pub proof fn law_a_dataset_is_told_by_its_sizes(name: Seq<char>, locs: Seq<u32>)
    ensures
        ({
            let total = records::sum(records::nats(locs));
            let columns = seq![
                name,
                text::numeral(locs.len()),
                numbers::with_commas(total),
                numbers::with_commas(numbers::mean(total, locs.len())),
                numbers::with_commas(numbers::median(locs) as nat),
                numbers::with_commas(greatest(locs)),
            ];
            dataset_line(name, locs) == text::joined(columns, " & "@) + " \\\\\n"@
        }),
{
    let total = records::sum(records::nats(locs));
    let c = seq![
        name,
        text::numeral(locs.len()),
        numbers::with_commas(total),
        numbers::with_commas(numbers::mean(total, locs.len())),
        numbers::with_commas(numbers::median(locs) as nat),
        numbers::with_commas(greatest(locs)),
    ];
    lemma_joined_six(c, " & "@);
}

proof fn lemma_joined_six(c: Seq<Seq<char>>, sep: Seq<char>)
    requires
        c.len() == 6,
    ensures
        text::joined(c, sep) == c[0] + sep + c[1] + sep + c[2] + sep + c[3] + sep + c[4] + sep
            + c[5],
{
    let c1 = seq![c[0]];
    let c2 = c1.push(c[1]);
    let c3 = c2.push(c[2]);
    let c4 = c3.push(c[3]);
    let c5 = c4.push(c[4]);
    assert(c =~= c5.push(c[5]));
    text::law_a_separator_stands_between_two_texts(c1, c[1], sep);
    text::law_a_separator_stands_between_two_texts(c2, c[2], sep);
    text::law_a_separator_stands_between_two_texts(c3, c[3], sep);
    text::law_a_separator_stands_between_two_texts(c4, c[4], sep);
    text::law_a_separator_stands_between_two_texts(c5, c[5], sep);
    text::law_a_separator_stands_between_two_texts(c1, c[0], sep);
}

/// The table of the datasets has a line for each battery that the corpus has, and none for another.
pub proof fn law_each_battery_of_the_corpus_has_a_line(corpus: Seq<CorpusBattery>, n: int)
    requires
        0 <= n < 6,
    ensures
        battery_locs(corpus, n).len() == 0 ==> dataset_lines(corpus, n + 1) == dataset_lines(
            corpus,
            n,
        ),
        battery_locs(corpus, n).len() > 0 ==> dataset_lines(corpus, n + 1) == dataset_lines(
            corpus,
            n,
        ) + dataset_line(display_name(n), narrow(battery_locs(corpus, n))),
        tractor::battery_dir(n) == "B01_synthetic"@ ==> display_name(n) == "B01-synthetic"@,
        tractor::battery_dir(n) == "B01_organic"@ ==> display_name(n) == "B01-organic"@,
        tractor::battery_dir(n) == "B02_synthetic"@ ==> display_name(n) == "B02-synthetic"@,
        tractor::battery_dir(n) == "B02_organic"@ ==> display_name(n) == "B02-organic"@,
        tractor::battery_dir(n) == "P00_perlin_noise"@ ==> display_name(n) == "P00 (Perlin)"@,
        tractor::battery_dir(n) == "P01_sphincs_plus"@ ==> display_name(n)
            == "P01 {\\smaller (SPHINCS+)}"@,
        text::begins(
            datasets_tex(corpus),
            "% GENERATED by harvest-tools report — do not edit\n"@,
        ),
        text::ends(datasets_tex(corpus), dataset_lines(corpus, 6)),
{
    reveal_strlit("B01_synthetic");
    reveal_strlit("B01_organic");
    reveal_strlit("B02_synthetic");
    reveal_strlit("B02_organic");
    reveal_strlit("P00_perlin_noise");
    reveal_strlit("P01_sphincs_plus");
    assert("B01_synthetic"@.len() == 13 && "B02_synthetic"@.len() == 13);
    assert("B01_organic"@.len() == 11 && "B02_organic"@.len() == 11);
    assert("B01_synthetic"@[2] == '1' && "B02_synthetic"@[2] == '2');
    assert("B01_organic"@[2] == '1' && "B02_organic"@[2] == '2');
    assert("P00_perlin_noise"@[2] == '0' && "P01_sphincs_plus"@[2] == '1');
    let h = "% GENERATED by harvest-tools report — do not edit\n"@;
    let t = datasets_tex(corpus);
    let e = dataset_lines(corpus, 6);
    assert(t =~= h + e);
    assert(t.subrange(0, h.len() as int) =~= h);
    assert(t.subrange(t.len() - e.len(), t.len() as int) =~= e);
}

/// The five lines on prompts tell of five directories: the plain prompts, and four that each lack one
/// thing, by the name of what they lack. Every line counts the cases that passed of all that there are.
pub proof fn law_each_prompt_is_told_by_its_own_results(rows: Seq<Row>, n: int)
    requires
        0 <= n < 5,
    ensures
        variant_lines(rows, n + 1) == variant_lines(rows, n) + variant_label(n) + " & "@
            + text::numeral(passed_by(rows, variant_dir(n))) + "/"@ + text::numeral(
            case_count(rows),
        ) + " \\\\\n"@,
        variant_lines(rows, 0).len() == 0,
        variant_dir(0) == program::program(),
        n == 1 ==> variant_dir(n) == program::program() + "-no-subtask"@ && variant_label(n)
            == "\\textit{no-subtask}"@,
        n == 2 ==> variant_dir(n) == program::program() + "-no-iter"@ && variant_label(n)
            == "\\textit{no-iterate}"@,
        n == 3 ==> variant_dir(n) == program::program() + "-no-features"@ && variant_label(n)
            == "\\textit{no-features}"@,
        n == 4 ==> variant_dir(n) == program::program() + "-minimal"@ && variant_label(n)
            == "\\textit{minimal}"@,
{
    reveal_strlit("");
    let p = program::program();
    assert(""@ + p =~= p);
    let a = text::numeral(passed_by(rows, variant_dir(n)));
    let b = text::numeral(case_count(rows));
    let v = variant_lines(rows, n) + variant_label(n) + " & "@;
    assert(v + (a + "/"@ + b) + " \\\\\n"@ =~= v + a + "/"@ + b + " \\\\\n"@);
}

/// The two swaps are told by what the manual constants say of each, under its own name.
pub proof fn law_each_swap_is_told_by_its_own_constant(
    rows: Seq<Row>,
    manual: Option<toml::Entries>,
    key: Seq<char>,
    s: Seq<char>,
)
    ensures
        manual is None ==> manual_text(manual, key).len() == 0,
        manual is Some && toml::value_in(manual->0, "prompt_sensitivity"@, key) == Some(
            toml::TomlItem::Text(s),
        ) ==> manual_text(manual, key) == s,
        text::found(
            prompt_sensitivity_tex(rows, manual),
            "\\textit{lib prompt on execs} & "@ + manual_text(manual, "lib_prompt_on_execs"@),
        ),
        text::found(
            prompt_sensitivity_tex(rows, manual),
            "\\textit{exec prompt on libs} & "@ + manual_text(manual, "exec_prompt_on_libs"@),
        ),
        text::found(prompt_sensitivity_tex(rows, manual), variant_lines(rows, 5)),
{
    reveal_strlit("");
    let h = "% GENERATED by harvest-tools report — do not edit\n"@;
    let v = variant_lines(rows, 5);
    let mid =
        "\\hline \\hline\n\\multicolumn{2}{l}{\\emph{Cross-prompt swap on TRACTOR B0X (n = 210)}} \\\\\n\\hline\n\\textit{lib prompt on execs} & "@;
    let cut =
        "\\hline \\hline\n\\multicolumn{2}{l}{\\emph{Cross-prompt swap on TRACTOR B0X (n = 210)}} \\\\\n\\hline\n"@;
    let lib = "\\textit{lib prompt on execs} & "@;
    let a = manual_text(manual, "lib_prompt_on_execs"@);
    let next = " \\\\\n\\textit{exec prompt on libs} & "@;
    let exec = "\\textit{exec prompt on libs} & "@;
    let end = " \\\\\n"@;
    let b = manual_text(manual, "exec_prompt_on_libs"@);
    reveal_strlit(
        "\\hline \\hline\n\\multicolumn{2}{l}{\\emph{Cross-prompt swap on TRACTOR B0X (n = 210)}} \\\\\n\\hline\n\\textit{lib prompt on execs} & ",
    );
    reveal_strlit(
        "\\hline \\hline\n\\multicolumn{2}{l}{\\emph{Cross-prompt swap on TRACTOR B0X (n = 210)}} \\\\\n\\hline\n",
    );
    reveal_strlit("\\textit{lib prompt on execs} & ");
    reveal_strlit(" \\\\\n\\textit{exec prompt on libs} & ");
    reveal_strlit("\\textit{exec prompt on libs} & ");
    reveal_strlit(" \\\\\n");
    assert(mid =~= cut + lib);
    assert(next =~= end + exec);
    let all = prompt_sensitivity_tex(rows, manual);
    assert(all =~= h + v + (mid + a + next + b + end));
    text::lemma_found_inside(h, v, mid + a + next + b + end);
    assert(all =~= h + v + cut + (lib + a) + (next + b + end));
    text::lemma_found_inside(h + v + cut, lib + a, next + b + end);
    assert(all =~= h + v + mid + a + end + (exec + b) + end);
    text::lemma_found_inside(h + v + mid + a + end, exec + b, end);
}

/// A text defines a macro to have a value.
pub open spec fn defines(t: Seq<char>, name: Seq<char>, value: Seq<char>) -> bool {
    text::found(t, "\\newcommand{\\"@ + name + "}{"@ + value + "}\n"@)
}

proof fn lemma_defines(before: Seq<char>, name: Seq<char>, value: Seq<char>, after: Seq<char>)
    ensures
        defines(before + newcommand(name, value) + after, name, value),
{
    text::lemma_found_inside(before, "\\newcommand{\\"@ + name + "}{"@ + value + "}\n"@, after);
}

/// Every number that is quoted in prose is the one that the rows give: the cases that each system
/// passed of all cases, those of the one battery of 128 that it passed, and what Laertes breaks and
/// mends.
#[verifier::rlimit(60)]
pub proof fn law_quoted_numbers_are_those_of_the_rows(
    rows: Seq<Row>,
    corpus: Seq<CorpusBattery>,
    cost: Option<CostFigures>,
    p01: Option<(String, String)>,
    laertes: LaertesDelta,
)
    ensures
        ({
            let t = numbers_tex(rows, corpus, cost, p01, laertes);
            &&& defines(t, "TractorTotalCases"@, text::numeral(case_count(rows)))
            &&& defines(t, "ActorKiroTests"@, text::numeral(passed_by(rows, "kiro"@)) + "/"@ + text::numeral(case_count(rows)))
            &&& defines(t, "ActorClaudeTests"@, text::numeral(passed_by(rows, program::program())) + "/"@ + text::numeral(case_count(rows)))
            &&& defines(t, "ActorCodexTests"@, text::numeral(passed_by(rows, "codex-gpt54"@)) + "/"@ + text::numeral(case_count(rows)))
            &&& defines(t, "ActorKiroNoValidateTests"@, text::numeral(passed_by(rows, "kiro-translate"@)) + "/"@ + text::numeral(case_count(rows)))
            &&& defines(t, "ActorKiroPOneTests"@, text::numeral(p01_passed(rows, "kiro"@)) + "/"@ + text::numeral(128))
            &&& defines(t, "ActorKiroNoValidatePOneTests"@, text::numeral(p01_passed(rows, "kiro-translate"@)) + "/"@ + text::numeral(128))
            &&& defines(t, "LaertesBreaks"@, text::numeral(laertes.broke as nat))
            &&& defines(t, "LaertesFixes"@, text::numeral(laertes.fixed as nat))
        }),
{
    let cases = case_count(rows);
    let t = numbers_tex(rows, corpus, cost, p01, laertes);
    let h =
        "% GENERATED by `harvest-tools report`. Do not edit by hand.\n% Named constants for result numbers quoted in the prose, so text and\n% tables cannot disagree. Values are derived from results/.\n"@;
    let m0 = newcommand("TractorTotalCases"@, text::numeral(cases));
    let m1 = newcommand("ActorKiroTests"@, text::numeral(passed_by(rows, "kiro"@)) + "/"@ + text::numeral(cases));
    let m2 = newcommand("ActorClaudeTests"@, text::numeral(passed_by(rows, program::program())) + "/"@ + text::numeral(cases));
    let m3 = newcommand("ActorCodexTests"@, text::numeral(passed_by(rows, "codex-gpt54"@)) + "/"@ + text::numeral(cases));
    let m4 = newcommand("ActorKiroNoValidateTests"@, text::numeral(passed_by(rows, "kiro-translate"@)) + "/"@ + text::numeral(cases));
    let m5 = newcommand("ActorKiroPOneTests"@, text::numeral(p01_passed(rows, "kiro"@)) + "/"@ + text::numeral(128));
    let m6 = newcommand("ActorKiroNoValidatePOneTests"@, text::numeral(p01_passed(rows, "kiro-translate"@)) + "/"@ + text::numeral(128));
    let m7 = newcommand("LaertesBreaks"@, text::numeral(laertes.broke as nat));
    let m8 = newcommand("LaertesFixes"@, text::numeral(laertes.fixed as nat));
    let lo = loc_macros(corpus_loc(corpus, tractor::BATTERIES as int), cases);
    let co = cost_macros(cost);
    let p0 = p01_macros(p01);
    assert(t == h + m0 + lo + co + p0 + m1 + m2 + m3 + m4 + m5 + m6 + m7 + m8);
    lemma_defines(h, "TractorTotalCases"@, text::numeral(cases), lo + co + p0 + m1 + m2 + m3 + m4 + m5 + m6 + m7 + m8);
    assert(t =~= (h) + m0 + (lo + co + p0 + m1 + m2 + m3 + m4 + m5 + m6 + m7 + m8));
    lemma_defines(h + m0 + lo + co + p0, "ActorKiroTests"@, text::numeral(passed_by(rows, "kiro"@)) + "/"@ + text::numeral(cases), m2 + m3 + m4 + m5 + m6 + m7 + m8);
    assert(t =~= (h + m0 + lo + co + p0) + m1 + (m2 + m3 + m4 + m5 + m6 + m7 + m8));
    lemma_defines(h + m0 + lo + co + p0 + m1, "ActorClaudeTests"@, text::numeral(passed_by(rows, program::program())) + "/"@ + text::numeral(cases), m3 + m4 + m5 + m6 + m7 + m8);
    assert(t =~= (h + m0 + lo + co + p0 + m1) + m2 + (m3 + m4 + m5 + m6 + m7 + m8));
    lemma_defines(h + m0 + lo + co + p0 + m1 + m2, "ActorCodexTests"@, text::numeral(passed_by(rows, "codex-gpt54"@)) + "/"@ + text::numeral(cases), m4 + m5 + m6 + m7 + m8);
    assert(t =~= (h + m0 + lo + co + p0 + m1 + m2) + m3 + (m4 + m5 + m6 + m7 + m8));
    lemma_defines(h + m0 + lo + co + p0 + m1 + m2 + m3, "ActorKiroNoValidateTests"@, text::numeral(passed_by(rows, "kiro-translate"@)) + "/"@ + text::numeral(cases), m5 + m6 + m7 + m8);
    assert(t =~= (h + m0 + lo + co + p0 + m1 + m2 + m3) + m4 + (m5 + m6 + m7 + m8));
    lemma_defines(h + m0 + lo + co + p0 + m1 + m2 + m3 + m4, "ActorKiroPOneTests"@, text::numeral(p01_passed(rows, "kiro"@)) + "/"@ + text::numeral(128), m6 + m7 + m8);
    assert(t =~= (h + m0 + lo + co + p0 + m1 + m2 + m3 + m4) + m5 + (m6 + m7 + m8));
    lemma_defines(h + m0 + lo + co + p0 + m1 + m2 + m3 + m4 + m5, "ActorKiroNoValidatePOneTests"@, text::numeral(p01_passed(rows, "kiro-translate"@)) + "/"@ + text::numeral(128), m7 + m8);
    assert(t =~= (h + m0 + lo + co + p0 + m1 + m2 + m3 + m4 + m5) + m6 + (m7 + m8));
    lemma_defines(h + m0 + lo + co + p0 + m1 + m2 + m3 + m4 + m5 + m6, "LaertesBreaks"@, text::numeral(laertes.broke as nat), m8);
    assert(t =~= (h + m0 + lo + co + p0 + m1 + m2 + m3 + m4 + m5 + m6) + m7 + (m8));
    lemma_defines(h + m0 + lo + co + p0 + m1 + m2 + m3 + m4 + m5 + m6 + m7, "LaertesFixes"@, text::numeral(laertes.fixed as nat), Seq::<char>::empty());
    assert(t =~= (h + m0 + lo + co + p0 + m1 + m2 + m3 + m4 + m5 + m6 + m7) + m8 + (Seq::<char>::empty()));
}

/// What the runs cost is quoted as it was measured, each figure under its own name; what was not
/// measured is not quoted.
pub proof fn law_costs_are_quoted_as_they_were_measured(
    cost: Option<CostFigures>,
    p01: Option<(String, String)>,
)
    ensures
        cost is None ==> cost_macros(cost).len() == 0,
        cost matches Some(f) ==> {
            &&& defines(cost_macros(cost), "CostTractor"@, f.dollars@)
            &&& defines(cost_macros(cost), "CostTractorMinutes"@, f.minutes@)
            &&& defines(cost_macros(cost), "CostTractorValidatePct"@, f.validate_pct@)
            &&& f.per_kloc is Some ==> defines(
                cost_macros(cost),
                "CostTractorPerKLoc"@,
                (f.per_kloc->0).0@,
            )
            &&& f.per_kloc is Some ==> defines(
                cost_macros(cost),
                "CostTractorMinPerKLoc"@,
                (f.per_kloc->0).1@,
            )
        },
        p01 is None ==> p01_macros(p01).len() == 0,
        p01 matches Some(f) ==> {
            &&& defines(p01_macros(p01), "CostPOne"@, f.0@)
            &&& defines(p01_macros(p01), "CostPOneMinutes"@, f.1@)
        },
{
    reveal_strlit("");
    let none = Seq::<char>::empty();
    if let Some(f) = cost {
        let a = newcommand("CostTractor"@, f.dollars@);
        let b = newcommand("CostTractorMinutes"@, f.minutes@);
        let e = newcommand("CostTractorValidatePct"@, f.validate_pct@);
        let m = match f.per_kloc {
            Some(p) => newcommand("CostTractorPerKLoc"@, p.0@) + newcommand(
                "CostTractorMinPerKLoc"@,
                p.1@,
            ),
            None => ""@,
        };
        let t = cost_macros(cost);
        assert(t == a + b + m + e);
        lemma_defines(none, "CostTractor"@, f.dollars@, b + m + e);
        assert(t =~= none + a + (b + m + e));
        lemma_defines(a, "CostTractorMinutes"@, f.minutes@, m + e);
        assert(t =~= a + b + (m + e));
        lemma_defines(a + b + m, "CostTractorValidatePct"@, f.validate_pct@, none);
        assert(t =~= a + b + m + e + none);
        if let Some(p) = f.per_kloc {
            let c = newcommand("CostTractorPerKLoc"@, p.0@);
            let d = newcommand("CostTractorMinPerKLoc"@, p.1@);
            lemma_defines(a + b, "CostTractorPerKLoc"@, p.0@, d + e);
            assert(t =~= a + b + c + (d + e));
            lemma_defines(a + b + c, "CostTractorMinPerKLoc"@, p.1@, e);
            assert(t =~= a + b + c + d + e);
        }
    }
    if let Some(f) = p01 {
        let a = newcommand("CostPOne"@, f.0@);
        let b = newcommand("CostPOneMinutes"@, f.1@);
        lemma_defines(none, "CostPOne"@, f.0@, b);
        lemma_defines(a, "CostPOneMinutes"@, f.1@, none);
        assert(p01_macros(p01) =~= none + a + b);
        assert(p01_macros(p01) =~= a + b + none);
    }
}

/// The lines of the corpus are quoted in all and on the mean, where there are lines and cases.
pub proof fn law_the_lines_of_the_corpus_are_quoted(total: nat, cases: nat)
    ensures
        total == 0 || cases == 0 ==> loc_macros(total, cases).len() == 0,
        total > 0 && cases > 0 ==> {
            &&& defines(loc_macros(total, cases), "TractorTotalLoc"@, numbers::with_commas(total))
            &&& defines(
                loc_macros(total, cases),
                "TractorMeanLoc"@,
                text::numeral(numbers::mean(total, cases)),
            )
        },
{
    reveal_strlit("");
    let none = Seq::<char>::empty();
    let a = newcommand("TractorTotalLoc"@, numbers::with_commas(total));
    let m = text::numeral(numbers::mean(total, cases));
    let b = newcommand("TractorMeanLoc"@, m);
    lemma_defines(none, "TractorTotalLoc"@, numbers::with_commas(total), b);
    lemma_defines(a, "TractorMeanLoc"@, m, none);
    assert(a + b =~= none + a + b);
    assert(a + b =~= a + b + none);
}

/// The lines of the corpus are those of its six batteries, each distinct source once.
pub proof fn law_the_lines_of_the_corpus_are_those_of_its_batteries(
    corpus: Seq<CorpusBattery>,
    n: int,
)
    requires
        0 <= n,
    ensures
        corpus_loc(corpus, 0) == 0,
        corpus_loc(corpus, n + 1) == corpus_loc(corpus, n) + records::sum(battery_locs(corpus, n)),
        battery_locs(corpus, n) == records::distinct_locs(
            records::corpus_cases(corpus, tractor::battery_dir(n)),
        ),
{
}

/// A manual constant is defined under its section and its key, each word of them with a capital, and
/// has the value that was entered.
pub proof fn law_a_manual_constant_is_defined_as_entered(
    c: toml::Entries,
    section: Seq<char>,
    keys: Seq<Seq<char>>,
    key: Seq<char>,
)
    ensures
        toml::value_in(c, section, key) is Some ==> section_macros(c, section, keys.push(key))
            == section_macros(c, section, keys) + "\\newcommand{\\"@ + (camel_case(section)
            + camel_case(key)) + "}{"@ + rendered(toml::value_in(c, section, key)->0) + "}\n"@,
        toml::value_in(c, section, key) is None ==> section_macros(c, section, keys.push(key))
            == section_macros(c, section, keys),
        section_macros(c, section, Seq::empty()).len() == 0,
{
    reveal_strlit("");
    assert(keys.push(key).drop_last() =~= keys);
    if let Some(v) = toml::value_in(c, section, key) {
        let b = section_macros(c, section, keys);
        let n = camel_case(section) + camel_case(key);
        assert(b + ("\\newcommand{\\"@ + n + "}{"@ + rendered(v) + "}\n"@) =~= b
            + "\\newcommand{\\"@ + n + "}{"@ + rendered(v) + "}\n"@);
    }
}

/// Every section of the manual constants is defined, in its order, and what is no section is not.
pub proof fn law_every_section_of_the_constants_is_defined(
    c: toml::Entries,
    sections: Seq<Seq<char>>,
    section: Seq<char>,
)
    ensures
        toml::table_in(c, section) is Some ==> manual_macros(c, sections.push(section))
            == manual_macros(c, sections) + section_macros(
            c,
            section,
            toml::names(toml::table_in(c, section)->0),
        ),
        toml::table_in(c, section) is None ==> manual_macros(c, sections.push(section))
            == manual_macros(c, sections),
        manual_macros(c, Seq::empty()).len() == 0,
        text::ends(manual_tex(Some(c)), manual_macros(c, toml::names(c))),
        manual_tex(None)
            == "% MANUALLY ENTERED — not derived from data. Source: manual_constants.toml\n"@,
{
    reveal_strlit("");
    assert(sections.push(section).drop_last() =~= sections);
    let h = "% MANUALLY ENTERED — not derived from data. Source: manual_constants.toml\n"@;
    let m = manual_macros(c, toml::names(c));
    let t = manual_tex(Some(c));
    assert(t =~= h + m);
    assert(t.subrange(t.len() - m.len(), t.len() as int) =~= m);
    assert(h + ""@ =~= h);
}

/// A value is shown as it stands: text without quotes, numbers by their digits, truth by its word.
pub proof fn law_a_constant_is_shown_as_it_stands(s: Seq<char>, n: i64)
    ensures
        rendered(toml::TomlItem::Text(s)) == s,
        rendered(toml::TomlItem::Float(s)) == s,
        rendered(toml::TomlItem::Integer(n)) == text::signed_numeral(n as int),
        rendered(toml::TomlItem::Boolean(true)) == "true"@,
        rendered(toml::TomlItem::Boolean(false)) == "false"@,
        rendered(toml::TomlItem::Other(s)) == text::trimmed(s),
{
}

/// A name in camel case is its words between underscores, each with its first letter raised and the
/// rest as it is.
pub proof fn law_camel_case_raises_each_word(a: Seq<char>, b: Seq<char>, c: char)
    requires
        !a.contains('_'),
        c != '_',
    ensures
        camel_case(seq![c] + a) == text::uppercase_form(c) + a,
        camel_case((seq![c] + a).push('_') + b) == camel_case(seq![c] + a) + camel_case(b),
{
    reveal_strlit("");
    let w = seq![c] + a;
    assert(!w.contains('_')) by {
        if w.contains('_') {
            let i = choose|i: int| 0 <= i < w.len() && w[i] == '_';
            if i > 0 {
                assert(a[i - 1] == '_');
            }
        }
    }
    text::law_a_text_is_split_at_its_separators(w, '_', b);
    lemma_raised_of_both(seq![w], text::split(b, '_'));
    assert(w.subrange(1, w.len() as int) =~= a);
    assert(seq![w].drop_last() =~= Seq::<Seq<char>>::empty());
    reveal_with_fuel(raised_all, 2);
    assert(raised_all(seq![w]) =~= ""@ + raised(w));
    assert(raised_all(seq![w]) =~= raised(w));
}

proof fn lemma_raised_of_both(p: Seq<Seq<char>>, q: Seq<Seq<char>>)
    ensures
        raised_all(p + q) == raised_all(p) + raised_all(q),
    decreases q.len(),
{
    reveal_strlit("");
    if q.len() == 0 {
        assert(p + q =~= p);
        assert(raised_all(p) + raised_all(q) =~= raised_all(p));
    } else {
        lemma_raised_of_both(p, q.drop_last());
        assert((p + q).drop_last() =~= p + q.drop_last());
        assert((p + q).last() == q.last());
        assert(raised_all(p + q) =~= raised_all(p) + raised_all(q));
    }
}

/// The six batteries have the sizes that they must have: together the cases of the corpus.
pub proof fn law_the_sizes_of_the_batteries()
    ensures
        expected_size(0) == 85 && tractor::battery_dir(0) == "B01_synthetic"@,
        expected_size(1) == 38 && tractor::battery_dir(1) == "B01_organic"@,
        expected_size(2) == 42 && tractor::battery_dir(2) == "B02_synthetic"@,
        expected_size(3) == 44 && tractor::battery_dir(3) == "B02_organic"@,
        expected_size(4) == 1 && tractor::battery_dir(4) == "P00_perlin_noise"@,
        expected_size(5) == 128 && tractor::battery_dir(5) == "P01_sphincs_plus"@,
        TRACTOR_CASES == 85 + 38 + 42 + 44 + 1 + 128,
{
}

proof fn lemma_right_sizes(rows: Seq<Row>, n: int)
    requires
        0 <= n <= 6,
    ensures
        wrong_size(rows, n) is None <==> forall|i: int|
            n <= i < 6 && scored(rows, #[trigger] tractor::battery_dir(i)) ==> size_of(
                rows,
                tractor::battery_dir(i),
            ) == expected_size(i),
        wrong_size(rows, n) matches Some(v) ==> v is BatterySize,
    decreases 6 - n,
{
    if n < 6 {
        lemma_right_sizes(rows, n + 1);
    }
}

proof fn lemma_most_tested(rows: Seq<Row>, agents: Seq<Seq<char>>)
    ensures
        forall|i: int|
            0 <= i < agents.len() ==> tested_by(rows, #[trigger] agents[i]) <= most_tested(
                rows,
                agents,
            ),
        most_tested(rows, agents) == 0 || exists|i: int|
            0 <= i < agents.len() && tested_by(rows, #[trigger] agents[i]) == most_tested(
                rows,
                agents,
            ),
    decreases agents.len(),
{
    if agents.len() > 0 {
        let d = agents.drop_last();
        lemma_most_tested(rows, d);
        assert forall|i: int| 0 <= i < agents.len() implies tested_by(rows, #[trigger] agents[i])
            <= most_tested(rows, agents) by {
            if i < d.len() {
                assert(d[i] == agents[i]);
            }
        }
        if most_tested(rows, agents) != 0 {
            if tested_by(rows, agents.last()) > most_tested(rows, d) {
                assert(agents[agents.len() - 1] == agents.last());
            } else {
                let i = choose|i: int|
                    0 <= i < d.len() && tested_by(rows, #[trigger] d[i]) == most_tested(rows, d);
                assert(agents[i] == d[i]);
            }
        }
    }
}

/// The most that any agent was tested on is reached by one and exceeded by none.
pub proof fn law_the_most_tested_agent_sets_the_total(rows: Seq<Row>, agents: Seq<Seq<char>>)
    ensures
        forall|i: int|
            0 <= i < agents.len() ==> tested_by(rows, #[trigger] agents[i]) <= most_tested(
                rows,
                agents,
            ),
        most_tested(rows, agents) == 0 || exists|i: int|
            0 <= i < agents.len() && tested_by(rows, #[trigger] agents[i]) == most_tested(
                rows,
                agents,
            ),
{
    lemma_most_tested(rows, agents);
}

/// The tables are sound only where some agent was tested on all 338 cases and none on more, every
/// battery that was scored has its size, the three harnesses have results, the translations were scored
/// before they were verified, the shared sources are shared, and every macro in use is defined.
pub proof fn law_sound_tables_hold_every_invariant(
    rows: Seq<Row>,
    agents: Seq<AgentRecord>,
    corpus: Seq<CorpusBattery>,
    used: Option<Seq<char>>,
    emitted: Seq<char>,
)
    ensures
        broken(rows, agents, corpus, used, emitted) is None <==> {
            &&& most_tested(rows, agents_of(rows)) == 338
            &&& forall|i: int|
                0 <= i < 6 && scored(rows, #[trigger] tractor::battery_dir(i)) ==> size_of(
                    rows,
                    tractor::battery_dir(i),
                ) == expected_size(i)
            &&& has_agent(agents, "kiro"@)
            &&& has_agent(agents, program::program())
            &&& has_agent(agents, "codex-gpt54"@)
            &&& scored_before(agents)
            &&& records::has_battery(corpus, "P01_sphincs_plus"@) ==> records::distinct_locs(
                records::corpus_cases(corpus, "P01_sphincs_plus"@),
            ).len() == 1
            &&& records::has_battery(corpus, "P00_perlin_noise"@) ==> records::distinct_locs(
                records::corpus_cases(corpus, "P00_perlin_noise"@),
            ).len() == 1
            &&& used matches Some(t) ==> undefined(text::lines(t), emitted).len() == 0
        },
{
    lemma_right_sizes(rows, 0);
}

/// A wrong number of cases is told with the number that was found and the one that there must be.
pub proof fn law_a_wrong_number_is_told(battery: Seq<char>, got: nat, expected: nat)
    ensures
        text::ends(
            invariant_words(InvariantView::TractorTotal { got }),
            text::numeral(got) + ", expected 338"@,
        ),
        text::ends(
            invariant_words(InvariantView::BatterySize { battery, got, expected }),
            battery + " max cases_tested is "@ + text::numeral(got) + ", expected "@
                + text::numeral(expected),
        ),
{
    let g = text::numeral(got);
    let e = text::numeral(expected);
    lemma_ends("TRACTOR invariant failed: max agent case total is "@, g + ", expected 338"@);
    assert(invariant_words(InvariantView::TractorTotal { got })
        =~= "TRACTOR invariant failed: max agent case total is "@ + (g + ", expected 338"@));
    let b = "TRACTOR battery-size invariant failed: "@;
    let n = battery + " max cases_tested is "@ + g + ", expected "@ + e;
    lemma_ends(b, n);
    assert(invariant_words(InvariantView::BatterySize { battery, got, expected }) =~= b + n);
}

proof fn lemma_ends(a: Seq<char>, b: Seq<char>)
    ensures
        text::ends(a + b, b),
{
    assert((a + b).subrange(a.len() as int, (a + b).len() as int) =~= b);
}

/// What is missing is told by its name, and a source that is not shared by how many there are.
pub proof fn law_what_is_missing_is_told_by_its_name(
    name: Seq<char>,
    dirs: nat,
    distinct: nat,
    names: Seq<Seq<char>>,
)
    ensures
        text::begins(
            invariant_words(InvariantView::AgentDir { agent: name }),
            "TRACTOR agent-dir invariant failed: results/Test-Corpus/"@ + name,
        ),
        text::begins(
            invariant_words(
                InvariantView::SharedSource { battery: name, case_dirs: dirs, distinct },
            ),
            "shared-source dedup invariant failed: "@ + name + " has "@ + text::numeral(dirs)
                + " case dirs collapsing to "@ + text::numeral(distinct),
        ),
        text::ends(
            invariant_words(InvariantView::MissingMacros { names }),
            text::list_form(names),
        ),
{
    lemma_begins(
        "TRACTOR agent-dir invariant failed: results/Test-Corpus/"@ + name,
        " is missing (a rename would silently emit a 0/338 row). Fix the mapping or restore the dir."@,
    );
    lemma_begins(
        "shared-source dedup invariant failed: "@ + name + " has "@ + text::numeral(dirs)
            + " case dirs collapsing to "@ + text::numeral(distinct),
        " distinct sources, expected 1 — symlinks likely did not survive checkout (core.symlinks=false?), which would inflate LOC. Re-clone with symlink support."@,
    );
    lemma_ends(
        "macros_used.txt lists macros the generator does not emit: "@,
        text::list_form(names),
    );
}

proof fn lemma_begins(a: Seq<char>, b: Seq<char>)
    ensures
        text::begins(a + b, a),
{
    assert((a + b).subrange(0, a.len() as int) =~= a);
}

/// The batteries of an agent are those of the last record of its name.
pub proof fn law_an_agent_is_known_by_its_name(agents: Seq<AgentRecord>, a: AgentRecord)
    ensures
        batteries_by(agents.push(a), a.name@) == a.batteries@,
        forall|n: Seq<char>|
            n != a.name@ ==> #[trigger] batteries_by(agents.push(a), n) == batteries_by(agents, n),
        forall|n: Seq<char>| (#[trigger] batteries_by(Seq::empty(), n)).len() == 0,
{
    assert(agents.push(a).drop_last() =~= agents);
}

/// The whole of the results names the tables of the batteries first and then the summary of them, over
/// the same batteries and agents.
pub proof fn law_the_results_are_tables_and_their_summary(rows: Seq<Row>, shares: Seq<Seq<char>>)
    ensures
        text::found(results_md(rows, shares), md_tables(rows, shares, batteries_of(rows))),
        text::ends(
            results_md(rows, shares),
            "## Summary: Cases Passed\n\n"@ + md_titles(agents_of(rows)) + "\n"@ + md_rule(
                agents_of(rows).len(),
            ) + "\n"@ + md_lines(rows, batteries_of(rows), agents_of(rows)) + "\n"@,
        ),
{
    let h =
        "# Translation Results\n\nAuto-generated from validated `result.json` and `summary.json` files.\n\n"@;
    let m = md_tables(rows, shares, batteries_of(rows));
    let e = "## Summary: Cases Passed\n\n"@ + md_titles(agents_of(rows)) + "\n"@ + md_rule(
        agents_of(rows).len(),
    ) + "\n"@ + md_lines(rows, batteries_of(rows), agents_of(rows)) + "\n"@;
    let t = results_md(rows, shares);
    assert(t =~= h + m + e);
    text::lemma_found_inside(h, m, e);
    assert(t.subrange(t.len() - e.len(), t.len() as int) =~= e);
}

/// A macro in use is missing where its name, trimmed, is no comment and no definition of it is emitted.
pub proof fn law_a_macro_is_missing_where_nothing_defines_it(lines: Seq<Seq<char>>, emitted: Seq<char>, name: Seq<char>)
    ensures
        undefined(lines, emitted).contains(name) <==> exists|k: int| 0 <= k < lines.len() && text::trimmed(#[trigger] lines[k]) == name && name.len() > 0 && name[0] != '#' && !text::found(emitted, "{\\"@ + name + "}"@),
    decreases lines.len(),
{
    let all = undefined(lines, emitted);
    if lines.len() > 0 {
        let d = lines.drop_last();
        let before = undefined(d, emitted);
        law_a_macro_is_missing_where_nothing_defines_it(d, emitted, name);
        if all.contains(name) {
            let i = choose|i: int| 0 <= i < all.len() && all[i] == name;
            if i < before.len() {
                assert(before[i] == name);
                let k = choose|k: int| 0 <= k < d.len() && text::trimmed(#[trigger] d[k]) == name && name.len() > 0 && name[0] != '#' && !text::found(emitted, "{\\"@ + name + "}"@);
                assert(lines[k] == d[k]);
            } else {
                assert(lines[lines.len() - 1] == lines.last());
            }
        }
        if exists|k: int| 0 <= k < lines.len() && text::trimmed(#[trigger] lines[k]) == name && name.len() > 0 && name[0] != '#' && !text::found(emitted, "{\\"@ + name + "}"@) {
            let k = choose|k: int| 0 <= k < lines.len() && text::trimmed(#[trigger] lines[k]) == name && name.len() > 0 && name[0] != '#' && !text::found(emitted, "{\\"@ + name + "}"@);
            if k < d.len() {
                assert(d[k] == lines[k]);
                let i = choose|i: int| 0 <= i < before.len() && before[i] == name;
                assert(all[i] == name);
            } else {
                assert(all[all.len() - 1] == name);
            }
        }
    }
}

} // verus!
