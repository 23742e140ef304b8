//! The body of the TRACTOR table.

use crate::analyse::numbers;
use crate::analyse::records;
use crate::analyse::records::BatteryRow;
use crate::analyse::records::Row;
use crate::analyse::report;
use crate::program;
use crate::text;
use vstd::prelude::*;
use vstd::string::*;

verus! {

/// How many systems the table has.
pub const SYSTEMS: usize = 11;

/// How many of them, at the front, are ACTOR harnesses.
pub const HARNESSES: usize = 4;

/// How many blocks the table has: the batteries, and the total.
pub const BLOCKS: usize = 7;

/// How many batteries there are.
pub const BATTERIES: usize = 6;

/// The label of a system.
pub open spec fn system_label(i: int) -> Seq<char> {
    if i == 0 {
        "ACTOR (Kiro)"@
    } else if i == 1 {
        "ACTOR ("@ + program::title() + ")"@
    } else if i == 2 {
        "ACTOR (Codex)"@
    } else if i == 3 {
        "\\makebox[\\knvLength][l]{ACTOR (Kiro, no validate)}"@
    } else if i == 4 {
        "C2Rust"@
    } else if i == 5 {
        "Laertes"@
    } else if i == 6 {
        "C2SaferRust"@
    } else if i == 7 {
        "SmartC2Rust"@
    } else if i == 8 {
        "Kimi K2.5 (query)"@
    } else if i == 9 {
        "GPT-5.4 (query)"@
    } else {
        "Gemini 3.1 Pro (query)"@
    }
}

/// The results directory of a system.
pub open spec fn system_dir(i: int) -> Seq<char> {
    if i == 0 {
        "kiro"@
    } else if i == 1 {
        program::program()
    } else if i == 2 {
        "codex-gpt54"@
    } else if i == 3 {
        "kiro-translate"@
    } else if i == 4 {
        "c2rust"@
    } else if i == 5 {
        "laertes"@
    } else if i == 6 {
        "c2saferrust"@
    } else if i == 7 {
        "smartc2rust"@
    } else if i == 8 {
        "kimi"@
    } else if i == 9 {
        "gpt-5.4"@
    } else {
        "gemini-3.1-pro-preview"@
    }
}

/// The directory of a battery.
pub open spec fn battery_dir(i: int) -> Seq<char> {
    if i == 0 {
        "B01_synthetic"@
    } else if i == 1 {
        "B01_organic"@
    } else if i == 2 {
        "B02_synthetic"@
    } else if i == 3 {
        "B02_organic"@
    } else if i == 4 {
        "P00_perlin_noise"@
    } else {
        "P01_sphincs_plus"@
    }
}

/// The label of a block on its first line.
pub open spec fn first_line(i: int) -> Seq<char> {
    if i == 0 {
        "B01-syn"@
    } else if i == 1 {
        "B01-org"@
    } else if i == 2 {
        "B02-syn"@
    } else if i == 3 {
        "B02-org"@
    } else if i == 4 {
        "P00"@
    } else if i == 5 {
        "P01"@
    } else {
        "Total"@
    }
}

/// The label of a block on its second line.
pub open spec fn second_line(i: int) -> Seq<char> {
    if i == 4 {
        "(Perlin)"@
    } else if i == 5 {
        "\\makebox[1cm][l]{\\smaller (SPHINCS+)}"@
    } else {
        ""@
    }
}

fn label_of(i: usize) -> (r: String)
    ensures
        r@ == system_label(i as int),
{
    if i == 0 {
        text::copy("ACTOR (Kiro)")
    } else if i == 1 {
        text::join3("ACTOR (", program::title_text().as_str(), ")")
    } else if i == 2 {
        text::copy("ACTOR (Codex)")
    } else if i == 3 {
        text::copy("\\makebox[\\knvLength][l]{ACTOR (Kiro, no validate)}")
    } else if i == 4 {
        text::copy("C2Rust")
    } else if i == 5 {
        text::copy("Laertes")
    } else if i == 6 {
        text::copy("C2SaferRust")
    } else if i == 7 {
        text::copy("SmartC2Rust")
    } else if i == 8 {
        text::copy("Kimi K2.5 (query)")
    } else if i == 9 {
        text::copy("GPT-5.4 (query)")
    } else {
        text::copy("Gemini 3.1 Pro (query)")
    }
}

/// The results directory of a system.
pub fn dir_of(i: usize) -> (r: String)
    ensures
        r@ == system_dir(i as int),
{
    if i == 0 {
        text::copy("kiro")
    } else if i == 1 {
        program::program_name()
    } else if i == 2 {
        text::copy("codex-gpt54")
    } else if i == 3 {
        text::copy("kiro-translate")
    } else if i == 4 {
        text::copy("c2rust")
    } else if i == 5 {
        text::copy("laertes")
    } else if i == 6 {
        text::copy("c2saferrust")
    } else if i == 7 {
        text::copy("smartc2rust")
    } else if i == 8 {
        text::copy("kimi")
    } else if i == 9 {
        text::copy("gpt-5.4")
    } else {
        text::copy("gemini-3.1-pro-preview")
    }
}

/// The directory of a battery.
pub fn battery_of(i: usize) -> (r: &'static str)
    ensures
        r@ == battery_dir(i as int),
{
    if i == 0 {
        "B01_synthetic"
    } else if i == 1 {
        "B01_organic"
    } else if i == 2 {
        "B02_synthetic"
    } else if i == 3 {
        "B02_organic"
    } else if i == 4 {
        "P00_perlin_noise"
    } else {
        "P01_sphincs_plus"
    }
}

fn first_line_of(i: usize) -> (r: &'static str)
    ensures
        r@ == first_line(i as int),
{
    if i == 0 {
        "B01-syn"
    } else if i == 1 {
        "B01-org"
    } else if i == 2 {
        "B02-syn"
    } else if i == 3 {
        "B02-org"
    } else if i == 4 {
        "P00"
    } else if i == 5 {
        "P01"
    } else {
        "Total"
    }
}

fn second_line_of(i: usize) -> (r: &'static str)
    ensures
        r@ == second_line(i as int),
{
    if i == 4 {
        "(Perlin)"
    } else if i == 5 {
        "\\makebox[1cm][l]{\\smaller (SPHINCS+)}"
    } else {
        ""
    }
}

// ---------------------------------------------------------------------------
// Cells
// ---------------------------------------------------------------------------

/// What one system reached on one block.
#[derive(Debug, Copy, Clone, PartialEq, Eq, Structural)]
pub struct Cell {
    pub built: u32,
    pub denom: u32,
    pub tests_pass: u32,
    pub loc: u32,
    pub unsafe_lines: u32,
    pub present: bool,
}

/// A cell, mathematically.
pub struct CellView {
    pub built: nat,
    pub denom: nat,
    pub tests_pass: nat,
    pub loc: nat,
    pub unsafe_lines: nat,
    pub present: bool,
}

impl View for Cell {
    type V = CellView;

    open spec fn view(&self) -> CellView {
        CellView {
            built: self.built as nat,
            denom: self.denom as nat,
            tests_pass: self.tests_pass as nat,
            loc: self.loc as nat,
            unsafe_lines: self.unsafe_lines as nat,
            present: self.present,
        }
    }
}

/// What a system reached on one battery. A case that it never attempted counts as a failure: the
/// size of the battery is the denominator.
pub open spec fn battery_cell(rows: Seq<Row>, agent: Seq<char>, battery: Seq<char>) -> CellView {
    let denom = report::size_of(rows, battery);
    match report::last_row(rows, agent, battery) {
        Some(r) => CellView {
            built: r.cases_built,
            denom,
            tests_pass: r.cases_passed,
            loc: r.total_loc,
            unsafe_lines: r.unsafe_lines,
            present: true,
        },
        None => CellView {
            built: 0,
            denom,
            tests_pass: 0,
            loc: 0,
            unsafe_lines: 0,
            present: false,
        },
    }
}

/// What a system reached on the first `n` batteries together.
pub open spec fn total_cell(rows: Seq<Row>, agent: Seq<char>, n: int) -> CellView
    decreases n,
{
    if n <= 0 {
        CellView { built: 0, denom: 0, tests_pass: 0, loc: 0, unsafe_lines: 0, present: false }
    } else {
        let before = total_cell(rows, agent, n - 1);
        let one = battery_cell(rows, agent, battery_dir(n - 1));
        CellView {
            built: before.built + one.built,
            denom: before.denom + one.denom,
            tests_pass: before.tests_pass + one.tests_pass,
            loc: before.loc + one.loc,
            unsafe_lines: before.unsafe_lines + one.unsafe_lines,
            present: before.present || one.present,
        }
    }
}

/// What a system reached on a block: a battery, or all of them.
pub open spec fn cell(rows: Seq<Row>, agent: Seq<char>, block: int) -> CellView {
    if block < BATTERIES {
        battery_cell(rows, agent, battery_dir(block))
    } else {
        total_cell(rows, agent, BATTERIES as int)
    }
}

/// The totals of every system fit in 32 bits.
pub open spec fn totals_fit(rows: Seq<Row>) -> bool {
    forall|i: int|
        0 <= i < SYSTEMS ==> {
            let t = #[trigger] total_cell(rows, system_dir(i), BATTERIES as int);
            &&& t.built <= u32::MAX
            &&& t.denom <= u32::MAX
            &&& t.tests_pass <= u32::MAX
            &&& t.loc <= u32::MAX
            &&& t.unsafe_lines <= u32::MAX
        }
}

proof fn lemma_total_cell_grows(rows: Seq<Row>, agent: Seq<char>, n: int)
    requires
        0 <= n <= BATTERIES,
    ensures
        total_cell(rows, agent, n).built <= total_cell(rows, agent, BATTERIES as int).built,
        total_cell(rows, agent, n).denom <= total_cell(rows, agent, BATTERIES as int).denom,
        total_cell(rows, agent, n).tests_pass <= total_cell(
            rows,
            agent,
            BATTERIES as int,
        ).tests_pass,
        total_cell(rows, agent, n).loc <= total_cell(rows, agent, BATTERIES as int).loc,
        total_cell(rows, agent, n).unsafe_lines <= total_cell(
            rows,
            agent,
            BATTERIES as int,
        ).unsafe_lines,
    decreases BATTERIES - n,
{
    if n < BATTERIES {
        lemma_total_cell_grows(rows, agent, n + 1);
    }
}

fn battery_cell_of(rows: &[BatteryRow], agent: &str, battery: &str) -> (r: Cell)
    ensures
        r@ == battery_cell(records::row_views(rows@), agent@, battery@),
{
    let denom: u32 = report::battery_size(rows, battery);
    match report::row_at(rows, agent, battery) {
        Some(r) => Cell {
            built: r.cases_built,
            denom,
            tests_pass: r.cases_passed,
            loc: r.total_loc,
            unsafe_lines: r.unsafe_lines,
            present: true,
        },
        None => Cell {
            built: 0,
            denom,
            tests_pass: 0,
            loc: 0,
            unsafe_lines: 0,
            present: false,
        },
    }
}

/// What a system reached on a block.
pub fn cell_of(rows: &[BatteryRow], system: usize, block: usize) -> (r: Cell)
    requires
        system < SYSTEMS,
        totals_fit(records::row_views(rows@)),
    ensures
        r@ == cell(records::row_views(rows@), system_dir(system as int), block as int),
{
    let dir = dir_of(system);
    let agent = dir.as_str();
    if block < BATTERIES {
        return battery_cell_of(rows, agent, battery_of(block));
    }
    let ghost all = records::row_views(rows@);
    let ghost whole = total_cell(all, system_dir(system as int), BATTERIES as int);
    let mut t = Cell {
        built: 0,
        denom: 0,
        tests_pass: 0,
        loc: 0,
        unsafe_lines: 0,
        present: false,
    };
    let mut i: usize = 0;
    while i < BATTERIES
        invariant
            i <= BATTERIES,
            all == records::row_views(rows@),
            agent@ == system_dir(system as int),
            whole == total_cell(all, agent@, BATTERIES as int),
            whole.built <= u32::MAX,
            whole.denom <= u32::MAX,
            whole.tests_pass <= u32::MAX,
            whole.loc <= u32::MAX,
            whole.unsafe_lines <= u32::MAX,
            t@ == total_cell(all, agent@, i as int),
        decreases BATTERIES - i,
    {
        let one = battery_cell_of(rows, agent, battery_of(i));
        proof {
            lemma_total_cell_grows(all, agent@, i + 1);
            assert(one@ == battery_cell(all, agent@, battery_dir(i as int)));
        }
        t = Cell {
            built: t.built + one.built,
            denom: t.denom + one.denom,
            tests_pass: t.tests_pass + one.tests_pass,
            loc: t.loc + one.loc,
            unsafe_lines: t.unsafe_lines + one.unsafe_lines,
            present: t.present || one.present,
        };
        i = i + 1;
    }
    t
}

/// The best score among the first `n` harnesses.
pub open spec fn best_of(rows: Seq<Row>, block: int, n: int) -> nat
    decreases n,
{
    if n <= 0 {
        0
    } else {
        let before = best_of(rows, block, n - 1);
        let one = cell(rows, system_dir(n - 1), block).tests_pass;
        if one > before {
            one
        } else {
            before
        }
    }
}

fn best(rows: &[BatteryRow], block: usize) -> (r: u32)
    requires
        totals_fit(records::row_views(rows@)),
    ensures
        r == best_of(records::row_views(rows@), block as int, HARNESSES as int),
{
    let mut b: u32 = 0;
    let mut i: usize = 0;
    while i < HARNESSES
        invariant
            i <= HARNESSES,
            totals_fit(records::row_views(rows@)),
            b == best_of(records::row_views(rows@), block as int, i as int),
        decreases HARNESSES - i,
    {
        let c = cell_of(rows, i, block);
        if c.tests_pass > b {
            b = c.tests_pass;
        }
        i = i + 1;
    }
    b
}

// ---------------------------------------------------------------------------
// The text
// ---------------------------------------------------------------------------

/// The score of a cell, bold where it is the best and not zero.
pub open spec fn tests_text(c: CellView, best: nat) -> Seq<char> {
    if c.tests_pass == best && best > 0 {
        "\\textbf{"@ + report::ratio(c.tests_pass, c.denom) + "}"@
    } else {
        report::ratio(c.tests_pass, c.denom)
    }
}

/// The size of a cell and its share of unsafe lines; dashes where the system wrote nothing.
pub open spec fn size_text(c: CellView, share: nat) -> Seq<char> {
    if c.present && c.loc > 0 {
        numbers::in_thousands(c.loc) + " & "@ + text::numeral(share) + "\\%"@
    } else {
        "--"@ + " & "@ + "--"@
    }
}

/// The label of a block on a line.
pub open spec fn block_label(block: int, line: int) -> Seq<char> {
    if line == 0 {
        first_line(block)
    } else if line == 1 {
        second_line(block)
    } else {
        ""@
    }
}

/// A line of the table.
pub open spec fn tractor_line(rows: Seq<Row>, block: int, line: int, share: nat) -> Seq<char> {
    let c = cell(rows, system_dir(line), block);
    block_label(block, line) + " & "@ + system_label(line) + " & "@ + report::ratio(
        c.built,
        c.denom,
    ) + " & "@ + tests_text(c, best_of(rows, block, HARNESSES as int)) + " & "@ + size_text(
        c,
        share,
    ) + " \\\\\n"@
}

/// The first `n` lines of a block.
pub open spec fn tractor_lines(rows: Seq<Row>, block: int, shares: Seq<u32>, n: int) -> Seq<char>
    decreases n,
{
    if n <= 0 {
        ""@
    } else {
        tractor_lines(rows, block, shares, n - 1) + tractor_line(
            rows,
            block,
            n - 1,
            shares[n - 1] as nat,
        )
    }
}

/// The rule behind a block: a double one before the total, and none at the end.
pub open spec fn rule_after(block: int) -> Seq<char> {
    if block + 2 == BLOCKS {
        "\\hline\\hline\n"@
    } else if block + 1 < BLOCKS {
        "\\hline\n"@
    } else {
        ""@
    }
}

/// The first `n` blocks.
pub open spec fn tractor_blocks(rows: Seq<Row>, shares: Seq<Vec<u32>>, n: int) -> Seq<char>
    decreases n,
{
    if n <= 0 {
        ""@
    } else {
        tractor_blocks(rows, shares, n - 1) + tractor_lines(
            rows,
            n - 1,
            shares[n - 1]@,
            SYSTEMS as int,
        ) + rule_after(n - 1)
    }
}

/// The whole body of the table.
pub open spec fn tractor_tex(rows: Seq<Row>, shares: Seq<Vec<u32>>) -> Seq<char> {
    "% GENERATED by `harvest-tools report` from results/Test-Corpus/. Do not edit by hand.\n% Builds = crate compiles (result.json error != \"build failed\").\n% Tests = cases passing all vectors. Every system is scored over all cases.\n"@
        + tractor_blocks(rows, shares, BLOCKS as int)
}

/// There is a share for every cell.
pub open spec fn shares_cover(shares: Seq<Vec<u32>>) -> bool {
    shares.len() == BLOCKS && forall|i: int|
        0 <= i < BLOCKS ==> (#[trigger] shares[i])@.len() == SYSTEMS
}

fn write_line(rows: &[BatteryRow], block: usize, line: usize, share: u32, best: u32) -> (s: String)
    requires
        block < BLOCKS,
        line < SYSTEMS,
        totals_fit(records::row_views(rows@)),
        best == best_of(records::row_views(rows@), block as int, HARNESSES as int),
    ensures
        s@ == tractor_line(
            records::row_views(rows@),
            block as int,
            line as int,
            share as nat,
        ),
{
    let c = cell_of(rows, line, block);
    let label = if line == 0 {
        first_line_of(block)
    } else if line == 1 {
        second_line_of(block)
    } else {
        ""
    };
    let mut s = text::join3(label, " & ", label_of(line).as_str());
    s.append(" & ");
    s.append(report::ratio_of(c.built, c.denom).as_str());
    s.append(" & ");
    let score = report::ratio_of(c.tests_pass, c.denom);
    if c.tests_pass == best && best > 0 {
        s.append(text::join3("\\textbf{", score.as_str(), "}").as_str());
    } else {
        s.append(score.as_str());
    }
    s.append(" & ");
    if c.present && c.loc > 0 {
        let mut size = numbers::fmt_k(c.loc);
        size.append(" & ");
        text::push_numeral(&mut size, share as u64);
        size.append("\\%");
        s.append(size.as_str());
    } else {
        s.append(text::join3("--", " & ", "--").as_str());
    }
    s.append(" \\\\\n");
    s
}

/// The body of the table. `shares` holds, for each block and system, the percentage of unsafe lines
/// in its cell.
pub fn generate_tractor_tex(rows: &[BatteryRow], shares: &[Vec<u32>]) -> (s: String)
    requires
        totals_fit(records::row_views(rows@)),
        shares_cover(shares@),
    ensures
        s@ == tractor_tex(records::row_views(rows@), shares@),
{
    let ghost all = records::row_views(rows@);
    let mut body = text::copy("");
    let mut b: usize = 0;
    while b < BLOCKS
        invariant
            b <= BLOCKS,
            all == records::row_views(rows@),
            totals_fit(all),
            shares_cover(shares@),
            body@ == tractor_blocks(all, shares@, b as int),
        decreases BLOCKS - b,
    {
        let top: u32 = best(rows, b);
        let mut lines = text::copy("");
        let mut l: usize = 0;
        assert(shares@[b as int]@.len() == SYSTEMS);
        while l < SYSTEMS
            invariant
                b < BLOCKS,
                l <= SYSTEMS,
                all == records::row_views(rows@),
                totals_fit(all),
                shares@.len() == BLOCKS,
                shares@[b as int]@.len() == SYSTEMS,
                top == best_of(all, b as int, HARNESSES as int),
                lines@ == tractor_lines(all, b as int, shares@[b as int]@, l as int),
            decreases SYSTEMS - l,
        {
            let share: u32 = shares[b][l];
            lines.append(write_line(rows, b, l, share, top).as_str());
            l = l + 1;
        }
        body.append(lines.as_str());
        if b + 2 == BLOCKS {
            body.append("\\hline\\hline\n");
        } else if b + 1 < BLOCKS {
            body.append("\\hline\n");
        } else {
            body.append("");
        }
        b = b + 1;
    }
    text::join2(
        "% GENERATED by `harvest-tools report` from results/Test-Corpus/. Do not edit by hand.\n% Builds = crate compiles (result.json error != \"build failed\").\n% Tests = cases passing all vectors. Every system is scored over all cases.\n",
        body.as_str(),
    )
}

// ---------------------------------------------------------------------------
// Laws
// ---------------------------------------------------------------------------

proof fn lemma_best_covers(rows: Seq<Row>, block: int, n: int, i: int)
    requires
        0 <= i < n,
    ensures
        cell(rows, system_dir(i), block).tests_pass <= best_of(rows, block, n),
    decreases n,
{
    if i < n - 1 {
        lemma_best_covers(rows, block, n - 1, i);
    }
}

/// No harness beats the one whose score is bold.
pub proof fn law_bold_marks_the_best_harness(rows: Seq<Row>, block: int, i: int)
    requires
        0 <= i < HARNESSES,
    ensures
        cell(rows, system_dir(i), block).tests_pass <= best_of(rows, block, HARNESSES as int),
{
    lemma_best_covers(rows, block, HARNESSES as int, i);
}

/// Every system is scored over the same cases: the denominator does not depend on the system.
pub proof fn law_every_system_has_the_same_denominator(
    rows: Seq<Row>,
    one: Seq<char>,
    other: Seq<char>,
    block: int,
)
    ensures
        cell(rows, one, block).denom == cell(rows, other, block).denom,
{
    lemma_same_denominator(rows, one, other, BATTERIES as int);
}

proof fn lemma_same_denominator(rows: Seq<Row>, one: Seq<char>, other: Seq<char>, n: int)
    ensures
        total_cell(rows, one, n).denom == total_cell(rows, other, n).denom,
    decreases n,
{
    if n > 0 {
        lemma_same_denominator(rows, one, other, n - 1);
    }
}

/// Each of the eleven systems is told by its own results: the four harnesses first, and then those that
/// they are held against.
pub proof fn law_each_system_is_told_by_its_own_results()
    ensures
        system_label(0) == "ACTOR (Kiro)"@ && system_dir(0) == "kiro"@,
        system_label(1) == "ACTOR ("@ + program::title() + ")"@ && system_dir(1)
            == program::program(),
        system_label(2) == "ACTOR (Codex)"@ && system_dir(2) == "codex-gpt54"@,
        system_label(3) == "\\makebox[\\knvLength][l]{ACTOR (Kiro, no validate)}"@ && system_dir(3)
            == "kiro-translate"@,
        system_label(4) == "C2Rust"@ && system_dir(4) == "c2rust"@,
        system_label(5) == "Laertes"@ && system_dir(5) == "laertes"@,
        system_label(6) == "C2SaferRust"@ && system_dir(6) == "c2saferrust"@,
        system_label(7) == "SmartC2Rust"@ && system_dir(7) == "smartc2rust"@,
        system_label(8) == "Kimi K2.5 (query)"@ && system_dir(8) == "kimi"@,
        system_label(9) == "GPT-5.4 (query)"@ && system_dir(9) == "gpt-5.4"@,
        system_label(10) == "Gemini 3.1 Pro (query)"@ && system_dir(10)
            == "gemini-3.1-pro-preview"@,
        SYSTEMS == 11 && HARNESSES == 4,
{
}

/// Each block is labelled by its battery, and the last is the total of all.
pub proof fn law_each_block_is_labelled_by_its_battery()
    ensures
        battery_dir(0) == "B01_synthetic"@ && first_line(0) == "B01-syn"@,
        battery_dir(1) == "B01_organic"@ && first_line(1) == "B01-org"@,
        battery_dir(2) == "B02_synthetic"@ && first_line(2) == "B02-syn"@,
        battery_dir(3) == "B02_organic"@ && first_line(3) == "B02-org"@,
        battery_dir(4) == "P00_perlin_noise"@ && first_line(4) == "P00"@ && second_line(4)
            == "(Perlin)"@,
        battery_dir(5) == "P01_sphincs_plus"@ && first_line(5) == "P01"@,
        first_line(6) == "Total"@,
        BLOCKS == 7 && BATTERIES == 6,
{
}

/// A cell of a battery tells what the row of the system says: the crates that compiled, the cases that
/// passed and the lines, of as many cases as the battery has. A system without a row has none.
pub proof fn law_a_cell_tells_the_row_of_its_system(
    rows: Seq<Row>,
    agent: Seq<char>,
    block: int,
)
    requires
        0 <= block < 6,
    ensures
        ({
            let c = cell(rows, agent, block);
            let battery = battery_dir(block);
            &&& c.denom == report::size_of(rows, battery)
            &&& c.present <==> report::last_row(rows, agent, battery) is Some
            &&& report::last_row(rows, agent, battery) matches Some(r) ==> {
                &&& c.built == r.cases_built
                &&& c.tests_pass == r.cases_passed
                &&& c.loc == r.total_loc
                &&& c.unsafe_lines == r.unsafe_lines
            }
            &&& !c.present ==> c.built == 0 && c.tests_pass == 0 && c.loc == 0 && c.unsafe_lines == 0
        }),
{
}

/// The total of a system is the sum over all six batteries, in every column.
pub proof fn law_the_total_is_the_sum_of_the_batteries(rows: Seq<Row>, agent: Seq<char>)
    ensures
        ({
            let t = cell(rows, agent, 6);
            let a = cell(rows, agent, 0);
            let b = cell(rows, agent, 1);
            let c = cell(rows, agent, 2);
            let d = cell(rows, agent, 3);
            let e = cell(rows, agent, 4);
            let f = cell(rows, agent, 5);
            &&& t.built == a.built + b.built + c.built + d.built + e.built + f.built
            &&& t.denom == a.denom + b.denom + c.denom + d.denom + e.denom + f.denom
            &&& t.tests_pass == a.tests_pass + b.tests_pass + c.tests_pass + d.tests_pass
                + e.tests_pass + f.tests_pass
            &&& t.loc == a.loc + b.loc + c.loc + d.loc + e.loc + f.loc
            &&& t.unsafe_lines == a.unsafe_lines + b.unsafe_lines + c.unsafe_lines + d.unsafe_lines
                + e.unsafe_lines + f.unsafe_lines
            &&& t.present <==> a.present || b.present || c.present || d.present || e.present
                || f.present
        }),
{
    reveal_with_fuel(total_cell, 7);
}

proof fn lemma_best_is_reached(rows: Seq<Row>, block: int, n: int)
    ensures
        best_of(rows, block, n) == 0 || exists|i: int|
            0 <= i < n && #[trigger] cell(rows, system_dir(i), block).tests_pass == best_of(
                rows,
                block,
                n,
            ),
    decreases n,
{
    if n > 0 {
        lemma_best_is_reached(rows, block, n - 1);
        if best_of(rows, block, n) != 0 && best_of(rows, block, n) == best_of(rows, block, n - 1) {
            let i = choose|i: int|
                0 <= i < n - 1 && #[trigger] cell(rows, system_dir(i), block).tests_pass == best_of(
                    rows,
                    block,
                    n - 1,
                );
            assert(cell(rows, system_dir(i), block).tests_pass == best_of(rows, block, n));
        } else if best_of(rows, block, n) != 0 {
            assert(cell(rows, system_dir(n - 1), block).tests_pass == best_of(rows, block, n));
        }
    }
}

/// The best number of a block is one that a harness reached, and it is bold wherever it stands; nothing
/// else is, and nought never is.
pub proof fn law_only_the_best_is_bold(rows: Seq<Row>, block: int, c: CellView)
    ensures
        ({
            let best = best_of(rows, block, 4);
            let plain = text::numeral(c.tests_pass) + "/"@ + text::numeral(c.denom);
            &&& best == 0 || exists|i: int|
                0 <= i < 4 && #[trigger] cell(rows, system_dir(i), block).tests_pass == best
            &&& c.tests_pass == best && best > 0 ==> tests_text(c, best) == "\\textbf{"@ + plain
                + "}"@
            &&& c.tests_pass != best || best == 0 ==> tests_text(c, best) == plain
        }),
{
    lemma_best_is_reached(rows, block, 4);
}

/// The size of a system is told with its share of unsafe lines, and by dashes where there is no code.
pub proof fn law_a_system_without_code_has_no_size(c: CellView, share: nat)
    ensures
        c.present && c.loc > 0 ==> size_text(c, share) == numbers::in_thousands(c.loc) + " & "@
            + text::numeral(share) + "\\%"@,
        !c.present || c.loc == 0 ==> size_text(c, share) == "--"@ + " & "@ + "--"@,
{
}

/// A line of the table tells the system, how many crates compiled, how many cases passed, and the size,
/// in this order. The block is named on its first two lines alone.
pub proof fn law_a_line_tells_builds_before_tests(
    rows: Seq<Row>,
    block: int,
    line: int,
    share: nat,
)
    requires
        0 <= line,
    ensures
        ({
            let c = cell(rows, system_dir(line), block);
            let columns = seq![
                block_label(block, line),
                system_label(line),
                text::numeral(c.built) + "/"@ + text::numeral(c.denom),
                tests_text(c, best_of(rows, block, 4)),
                size_text(c, share),
            ];
            tractor_line(rows, block, line, share) == text::joined(columns, " & "@) + " \\\\\n"@
        }),
        block_label(block, 0) == first_line(block),
        block_label(block, 1) == second_line(block),
        line >= 2 ==> block_label(block, line).len() == 0,
{
    reveal_strlit("");
    let c = cell(rows, system_dir(line), block);
    let a1 = block_label(block, line);
    let a2 = system_label(line);
    let a3 = report::ratio(c.built, c.denom);
    let a4 = tests_text(c, best_of(rows, block, 4));
    let a5 = size_text(c, share);
    let sep = " & "@;
    let c1 = seq![a1];
    let c2 = c1.push(a2);
    let c3 = c2.push(a3);
    let c4 = c3.push(a4);
    text::law_a_separator_stands_between_two_texts(c1, a1, sep);
    text::law_a_separator_stands_between_two_texts(c1, a2, sep);
    text::law_a_separator_stands_between_two_texts(c2, a3, sep);
    text::law_a_separator_stands_between_two_texts(c3, a4, sep);
    text::law_a_separator_stands_between_two_texts(c4, a5, sep);
    assert(c4.push(a5) =~= seq![a1, a2, a3, a4, a5]);
}

/// The table has a line for each system in each block, in their order, and a rule behind each block but
/// the last: a double one before the total.
pub proof fn law_every_system_has_a_line_in_every_block(
    rows: Seq<Row>,
    block: int,
    shares: Seq<u32>,
    all: Seq<Vec<u32>>,
    n: int,
)
    requires
        0 <= n,
    ensures
        tractor_lines(rows, block, shares, n + 1) == tractor_lines(rows, block, shares, n)
            + tractor_line(rows, block, n, shares[n] as nat),
        tractor_lines(rows, block, shares, 0).len() == 0,
        tractor_blocks(rows, all, n + 1) == tractor_blocks(rows, all, n) + tractor_lines(
            rows,
            n,
            all[n]@,
            11,
        ) + rule_after(n),
        tractor_blocks(rows, all, 0).len() == 0,
        text::ends(tractor_tex(rows, all), tractor_blocks(rows, all, 7)),
        n < 5 ==> rule_after(n) == "\\hline\n"@,
        rule_after(5) == "\\hline\\hline\n"@,
        rule_after(6).len() == 0,
{
    reveal_strlit("");
    let t = tractor_tex(rows, all);
    let e = tractor_blocks(rows, all, 7);
    assert(t.subrange(t.len() - e.len(), t.len() as int) =~= e);
}

/// Only the two projects have a second line, which says what they are.
pub proof fn law_only_a_project_has_a_second_line(i: int)
    ensures
        second_line(4) == "(Perlin)"@,
        second_line(5) == "\\makebox[1cm][l]{\\smaller (SPHINCS+)}"@,
        i != 4 && i != 5 ==> second_line(i) == ""@,
{
}

} // verus!
