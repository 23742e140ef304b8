//! The completeness of a fuzzing campaign: every public function of the C library was executed.

use crate::bytes;
use crate::json;
use crate::json::Json;
use crate::names;
use crate::names::Names;
use crate::paths;
use crate::text;
use vstd::prelude::*;
use vstd::string::*;

verus! {

// ---------------------------------------------------------------------------
// What was measured
// ---------------------------------------------------------------------------

/// The function that a line of a symbol table names, where it names one: an address, the kind `T` of
/// a text symbol that others may call, and the name.
pub open spec fn symbol_of(line: Seq<char>) -> Option<Seq<char>> {
    let w = text::words(line);
    if w.len() >= 3 && w[1] == "T"@ {
        Some(w[2])
    } else {
        None
    }
}

/// The functions that the lines of a symbol table name.
pub open spec fn symbols_in(lines: Seq<Seq<char>>) -> Seq<Seq<char>>
    decreases lines.len(),
{
    if lines.len() == 0 {
        Seq::empty()
    } else {
        match symbol_of(lines.last()) {
            Some(name) => symbols_in(lines.drop_last()).push(name),
            None => symbols_in(lines.drop_last()),
        }
    }
}

fn read_symbol(line: &[char]) -> (r: Option<String>)
    ensures
        r is Some <==> symbol_of(line@) is Some,
        r matches Some(s) ==> symbol_of(line@) == Some(s@),
{
    let w = text::words_of(line);
    let ghost all = text::words(line@);
    assert(all.len() == w@.len());
    if w.len() < 3 {
        return None;
    }
    assert(all[1] == w@[1]@);
    assert(all[2] == w@[2]@);
    if text::same(&w[1], &text::chars_of("T")) {
        Some(text::string_of(&w[2]))
    } else {
        None
    }
}

/// The public functions of a library, from what `nm -D` lists of it.
pub fn public_function_symbols(listing: &str) -> (r: Names)
    ensures
        r@ == symbols_in(text::lines(listing@)).to_set(),
        names::ascending(r.listed()),
{
    let lines = text::lines_of(&text::chars_of(listing));
    let ghost all = text::char_views(lines@);
    let mut out: Vec<String> = Vec::new();
    let mut i: usize = 0;
    assert(text::views(out@) =~= symbols_in(all.subrange(0, 0)));
    while i < lines.len()
        invariant
            i <= lines.len(),
            all == text::char_views(lines@),
            text::views(out@) == symbols_in(all.subrange(0, i as int)),
        decreases lines.len() - i,
    {
        broadcast use text::lemma_views_push;

        assert(all.subrange(0, i + 1).drop_last() =~= all.subrange(0, i as int));
        assert(all.subrange(0, i + 1).last() == lines@[i as int]@);
        if let Some(name) = read_symbol(&lines[i]) {
            out.push(name);
        }
        i = i + 1;
    }
    assert(all.subrange(0, lines.len() as int) =~= all);
    Names::new(out.as_slice())
}

/// The functions that a coverage report lists, where it lists some.
pub open spec fn functions_in(report: json::JsonView) -> Option<json::JsonView> {
    match json::member(report, "data"@) {
        Some(data) => {
            let first = match data {
                json::JsonView::Object(_) => json::member(data, "0"@),
                _ => json::item(data, 0),
            };
            match first {
                Some(d) => json::member(d, "functions"@),
                None => None,
            }
        },
        None => None,
    }
}

/// The name of a function that was executed.
pub open spec fn executed(f: json::JsonView) -> Option<Seq<char>> {
    match json::number_in(json::member(f, "count"@)) {
        Some(n) => if n > 0 {
            json::text_in(json::member(f, "name"@))
        } else {
            None
        },
        None => None,
    }
}

/// The names of the functions that were executed.
pub open spec fn executed_in(fs: Seq<json::JsonView>) -> Seq<Seq<char>>
    decreases fs.len(),
{
    if fs.len() == 0 {
        Seq::empty()
    } else {
        match executed(fs.last()) {
            Some(name) => executed_in(fs.drop_last()).push(name),
            None => executed_in(fs.drop_last()),
        }
    }
}

/// The functions that a coverage report calls executed.
pub open spec fn coverage_in(report: json::JsonView) -> Seq<Seq<char>> {
    match functions_in(report) {
        Some(json::JsonView::List(fs)) => executed_in(fs),
        _ => Seq::empty(),
    }
}

fn find_functions(report: &Json) -> (r: Option<&Json>)
    ensures
        r is Some <==> functions_in(report@) is Some,
        r matches Some(j) ==> functions_in(report@) == Some(j@),
{
    match report.get("data") {
        Some(data) => {
            let first = match data {
                Json::Object(_) => data.get("0"),
                _ => data.at(0),
            };
            match first {
                Some(d) => d.get("functions"),
                None => None,
            }
        },
        None => None,
    }
}

fn read_executed(f: &Json) -> (r: Option<String>)
    ensures
        r is Some <==> executed(f@) is Some,
        r matches Some(s) ==> executed(f@) == Some(s@),
{
    let count: u64 = match f.get("count") {
        Some(c) => match c.as_u64() {
            Some(n) => n,
            None => 0,
        },
        None => 0,
    };
    if count == 0 {
        return None;
    }
    match f.get("name") {
        Some(n) => match n.as_str() {
            Some(s) => Some(text::copy(s)),
            None => None,
        },
        None => None,
    }
}

/// The functions that were executed, from what `llvm-cov export` reports. Empty, and no error, where
/// the report lists no functions.
pub fn covered_functions(report: &Json) -> (r: Names)
    ensures
        r@ == coverage_in(report@).to_set(),
        names::ascending(r.listed()),
{
    let mut out: Vec<String> = Vec::new();
    assert(text::views(out@) =~= Seq::empty());
    if let Some(Json::List(fs)) = find_functions(report) {
        proof {
            json::lemma_meanings(fs@);
        }
        let ghost all = json::meanings(fs@);
        let mut i: usize = 0;
        assert(text::views(out@) =~= executed_in(all.subrange(0, 0)));
        while i < fs.len()
            invariant
                i <= fs.len(),
                all == json::meanings(fs@),
                all.len() == fs@.len(),
                forall|k: int| 0 <= k < fs@.len() ==> #[trigger] all[k] == fs@[k]@,
                text::views(out@) == executed_in(all.subrange(0, i as int)),
            decreases fs.len() - i,
        {
            broadcast use text::lemma_views_push;

            assert(all.subrange(0, i + 1).drop_last() =~= all.subrange(0, i as int));
            assert(all.subrange(0, i + 1).last() == all[i as int]);
            if let Some(name) = read_executed(&fs[i]) {
                out.push(name);
            }
            i = i + 1;
        }
        assert(all.subrange(0, fs.len() as int) =~= all);
    }
    Names::new(out.as_slice())
}

/// The functions that were executed, from the text that `llvm-cov export` writes; nothing where it is no
/// JSON.
pub fn covered_in_export(export: &str) -> (r: Option<Names>)
    ensures
        r is Some <==> json::read(export@) is Some,
        r matches Some(n) ==> n@ == coverage_in(json::read(export@)->0).to_set()
            && names::ascending(n.listed()),
{
    match json::parse(export) {
        Some(report) => Some(covered_functions(&report)),
        None => None,
    }
}

/// What an export of the coverage gives, by whether it succeeded and by what it wrote: the functions that
/// were executed; nothing, and not none of them, where it failed or wrote no JSON.
pub fn coverage_of_export(success: bool, stdout: &[u8]) -> (r: Option<Names>)
    ensures
        r is Some <==> {
            &&& success
            &&& vstd::utf8::valid_utf8(stdout@)
            &&& json::read(vstd::utf8::decode_utf8(stdout@)) is Some
        },
        r matches Some(n) ==> n@ == coverage_in(
            json::read(vstd::utf8::decode_utf8(stdout@))->0,
        ).to_set() && names::ascending(n.listed()),
{
    if !success {
        return None;
    }
    match bytes::text_of(stdout) {
        Some(export) => {
            proof {
                vstd::utf8::encode_utf8_decode_utf8(export@);
            }
            covered_in_export(export.as_str())
        },
        None => None,
    }
}

// ---------------------------------------------------------------------------
// What is required
// ---------------------------------------------------------------------------

/// What the measurement says of one library.
#[derive(Debug)]
pub struct GateReport {
    /// The public functions of the C reference.
    pub symbols: Names,
    /// The public functions that were executed.
    pub covered: Names,
    /// The public functions that were never executed.
    pub left_behind: Names,
    /// Whether coverage could be measured at all.
    pub measured: bool,
}

impl GateReport {
    /// The requirement is met.
    pub open spec fn passing(&self) -> bool {
        self.measured && self.left_behind@ == Set::<Seq<char>>::empty()
    }

    /// Whether the requirement is met: coverage was measured and no public function was left behind.
    pub fn passed(&self) -> (r: bool)
        ensures
            r == self.passing(),
    {
        let n = self.left_behind.len();
        proof {
            let l = self.left_behind.listed();
            if n == 0 {
                assert(l.to_set() =~= Set::empty());
            } else {
                assert(l.to_set().contains(l[0]));
            }
        }
        self.measured && n == 0
    }
}

/// The report of what was measured.
pub open spec fn evaluated(
    symbols: Set<Seq<char>>,
    covered: Set<Seq<char>>,
    measured: bool,
    r: GateReport,
) -> bool {
    &&& r.symbols@ == symbols
    &&& r.covered@ == covered.intersect(symbols)
    &&& r.left_behind@ == symbols.difference(covered)
    &&& r.measured == measured
}

/// The report that nothing could be measured.
pub open spec fn inconclusive(symbols: Set<Seq<char>>, r: GateReport) -> bool {
    &&& r.symbols@ == symbols
    &&& r.covered@ == Set::<Seq<char>>::empty()
    &&& r.left_behind@ == Set::<Seq<char>>::empty()
    &&& !r.measured
}

/// Holds what was executed against the public functions. A private function that was executed covers
/// nothing.
pub fn evaluate(symbols: Names, covered: Names, measured: bool) -> (r: GateReport)
    ensures
        evaluated(symbols@, covered@, measured, r),
{
    let covered_public = covered.intersection(&symbols);
    let left_behind = symbols.difference(&covered_public);
    assert(left_behind@ =~= symbols@.difference(covered@));
    GateReport { symbols, covered: covered_public, left_behind, measured }
}

fn unmeasured(symbols: Names) -> (r: GateReport)
    ensures
        inconclusive(symbols@, r),
{
    GateReport { symbols, covered: Names::none(), left_behind: Names::none(), measured: false }
}

/// How many public functions a coverage reaches.
pub open spec fn reach(symbols: Set<Seq<char>>, coverage: Option<Names>) -> int {
    match coverage {
        Some(c) => c@.intersect(symbols).len() as int,
        None => -1,
    }
}

/// The coverage that reaches the most public functions, the first of several: that of the library
/// that the profile belongs to.
pub open spec fn best(symbols: Set<Seq<char>>, coverage: Seq<Option<Names>>) -> Option<int>
    decreases coverage.len(),
{
    if coverage.len() == 0 {
        None
    } else {
        let b = best(symbols, coverage.drop_last());
        let last = coverage.len() - 1;
        match coverage[last] {
            None => b,
            Some(_) => match b {
                None => Some(last),
                Some(i) => if reach(symbols, coverage[last]) > reach(symbols, coverage[i]) {
                    Some(last)
                } else {
                    b
                },
            },
        }
    }
}

fn find_best(symbols: &Names, coverage: &[Option<Names>]) -> (r: Option<usize>)
    ensures
        r is Some <==> best(symbols@, coverage@) is Some,
        r matches Some(i) ==> best(symbols@, coverage@) == Some(i as int) && i < coverage.len()
            && coverage@[i as int] is Some,
{
    let mut b: Option<usize> = None;
    let mut most: usize = 0;
    let mut i: usize = 0;
    while i < coverage.len()
        invariant
            i <= coverage.len(),
            b is Some <==> best(symbols@, coverage@.subrange(0, i as int)) is Some,
            b matches Some(k) ==> best(symbols@, coverage@.subrange(0, i as int)) == Some(k as int)
                && k < i && coverage@[k as int] is Some && reach(symbols@, coverage@[k as int])
                == most,
        decreases coverage.len() - i,
    {
        let ghost now = coverage@.subrange(0, i + 1);
        assert(now.drop_last() =~= coverage@.subrange(0, i as int));
        assert(now.last() == coverage@[i as int]);
        if let Some(c) = &coverage[i] {
            let hits: usize = c.intersection(symbols).len();
            match b {
                None => {
                    b = Some(i);
                    most = hits;
                },
                Some(k) => {
                    assert(now[k as int] == coverage@[k as int]);
                    if hits > most {
                        b = Some(i);
                        most = hits;
                    }
                },
            }
        }
        i = i + 1;
    }
    assert(coverage@.subrange(0, coverage.len() as int) =~= coverage@);
    b
}

/// A measurement that can be made is made, wherever some coverage reaches a public function; what it
/// calls executed is what one of the coverages reaches, and no coverage reaches more.
pub open spec fn tells_the_measurement(
    can_be_made: bool,
    symbols: Set<Seq<char>>,
    coverage: Seq<Option<Names>>,
    r: GateReport,
) -> bool {
    &&& r.symbols@ == symbols
    &&& r.measured <==> can_be_made && exists|k: int|
        0 <= k < coverage.len() && coverage[k] is Some && (#[trigger] coverage[k])->0@.intersect(
            symbols,
        ).len() > 0
    &&& r.measured ==> exists|k: int|
        0 <= k < coverage.len() && coverage[k] is Some && r.covered@ == (
        #[trigger] coverage[k])->0@.intersect(symbols)
    &&& r.measured ==> forall|k: int|
        0 <= k < coverage.len() && coverage[k] is Some ==> (#[trigger] coverage[k])->0@.intersect(
            symbols,
        ).len() <= r.covered@.len()
    &&& r.measured ==> forall|n: Seq<char>|
        #[trigger] r.left_behind@.contains(n) <==> symbols.contains(n) && !r.covered@.contains(n)
    &&& !r.measured ==> r.covered@.len() == 0 && !r.passing()
}

/// What the measurement says of the campaigns that were run. It never fails: where no instrumented
/// library was built, no profile was left, or none belongs to a library, nothing was measured, and the
/// report says so. `coverage` holds, for each library, the functions that the merged profile calls
/// executed, where it could be read.
pub fn measure_existing(
    libraries: usize,
    symbols: Names,
    profiles: usize,
    coverage: Vec<Option<Names>>,
) -> (r: Result<GateReport, String>)
    ensures
        r is Ok,
        r matches Ok(report) ==> if libraries == 0 || profiles == 0 {
            inconclusive(symbols@, report)
        } else {
            match best(symbols@, coverage@) {
                None => inconclusive(symbols@, report),
                Some(i) => if reach(symbols@, coverage@[i]) == 0 {
                    inconclusive(symbols@, report)
                } else {
                    evaluated(symbols@, coverage@[i]->0@, true, report)
                },
            }
        },
        r matches Ok(report) ==> tells_the_measurement(
            libraries > 0 && profiles > 0,
            symbols@,
            coverage@,
            report,
        ),
{
    let can_be_made = libraries > 0 && profiles > 0;
    let ghost given = coverage@;
    let ghost public = symbols@;
    let mut coverage = coverage;
    let chosen = find_best(&symbols, coverage.as_slice());
    let report = match chosen {
        Some(i) if can_be_made => {
            let picked = coverage.swap_remove(i);
            assert(picked == given[i as int]);
            match picked {
                None => unmeasured(symbols),
                Some(c) => {
                    let hits: usize = c.intersection(&symbols).len();
                    if hits == 0 {
                        unmeasured(symbols)
                    } else {
                        evaluate(symbols, c, true)
                    }
                },
            }
        },
        _ => unmeasured(symbols),
    };
    proof {
        law_a_measurement_is_made_where_one_can_be(can_be_made, public, given, report);
    }
    Ok(report)
}

// ---------------------------------------------------------------------------
// The files of a campaign
// ---------------------------------------------------------------------------

/// A profile that holds counters: a slot of the pool that no program filled would zero what the
/// others counted.
pub open spec fn is_profile(path: Seq<char>, size: u64) -> bool {
    paths::extension_in(path) == Some("profraw"@) && size > 0
}

/// The profiles among files.
pub open spec fn profiles_in(files: Seq<(String, u64)>) -> Seq<Seq<char>>
    decreases files.len(),
{
    if files.len() == 0 {
        Seq::empty()
    } else {
        let f = files.last();
        if is_profile(f.0@, f.1) {
            profiles_in(files.drop_last()).push(f.0@)
        } else {
            profiles_in(files.drop_last())
        }
    }
}

/// The profiles among files, each given by its path and its size.
pub fn find_profraws(files: &[(String, u64)]) -> (r: Vec<String>)
    ensures
        text::views(r@) == profiles_in(files@),
{
    let mut out: Vec<String> = Vec::new();
    let mut i: usize = 0;
    assert(text::views(out@) =~= profiles_in(files@.subrange(0, 0)));
    while i < files.len()
        invariant
            i <= files.len(),
            text::views(out@) == profiles_in(files@.subrange(0, i as int)),
        decreases files.len() - i,
    {
        broadcast use text::lemma_views_push;

        assert(files@.subrange(0, i + 1).drop_last() =~= files@.subrange(0, i as int));
        assert(files@.subrange(0, i + 1).last() == files@[i as int]);
        if paths::has_extension(files[i].0.as_str(), "profraw") && files[i].1 > 0 {
            out.push(text::copy(files[i].0.as_str()));
        }
        i = i + 1;
    }
    assert(files@.subrange(0, files.len() as int) =~= files@);
    out
}

/// A shared library whose sections hold a coverage map.
pub open spec fn is_instrumented(path: Seq<char>, sections: Seq<char>) -> bool {
    paths::extension_in(path) == Some("so"@) && (paths::name_in(path) matches Some(n)
        && text::begins(n, "lib"@)) && text::found(sections, "__llvm_covmap"@)
}

/// The instrumented libraries among files.
pub open spec fn instrumented_in(files: Seq<(String, String)>) -> Seq<Seq<char>>
    decreases files.len(),
{
    if files.len() == 0 {
        Seq::empty()
    } else {
        let f = files.last();
        if is_instrumented(f.0@, f.1@) {
            instrumented_in(files.drop_last()).push(f.0@)
        } else {
            instrumented_in(files.drop_last())
        }
    }
}

/// Whether a file can be a shared library of the C reference, before its sections are read.
pub fn is_library_name(path: &str) -> (r: bool)
    ensures
        r == (paths::extension_in(path@) == Some("so"@) && (paths::name_in(path@) matches Some(n)
            && text::begins(n, "lib"@))),
{
    if !paths::has_extension(path, "so") {
        return false;
    }
    match paths::file_name(path) {
        Some(n) => text::starts_with(&text::chars_of(n.as_str()), &text::chars_of("lib")),
        None => false,
    }
}

/// The instrumented libraries among files, each given by its path and what `readelf -S` lists of it.
pub fn find_covmapped_sos(files: &[(String, String)]) -> (r: Vec<String>)
    ensures
        text::views(r@) == instrumented_in(files@),
{
    let mut out: Vec<String> = Vec::new();
    let mut i: usize = 0;
    assert(text::views(out@) =~= instrumented_in(files@.subrange(0, 0)));
    while i < files.len()
        invariant
            i <= files.len(),
            text::views(out@) == instrumented_in(files@.subrange(0, i as int)),
        decreases files.len() - i,
    {
        broadcast use text::lemma_views_push;

        assert(files@.subrange(0, i + 1).drop_last() =~= files@.subrange(0, i as int));
        assert(files@.subrange(0, i + 1).last() == files@[i as int]);
        if is_library_name(files[i].0.as_str()) && text::has_text(
            files[i].1.as_str(),
            "__llvm_covmap",
        ) {
            out.push(text::copy(files[i].0.as_str()));
        }
        i = i + 1;
    }
    assert(files@.subrange(0, files.len() as int) =~= files@);
    out
}

// ---------------------------------------------------------------------------
// The report
// ---------------------------------------------------------------------------

/// A list item for each name.
pub open spec fn bullets(names: Seq<Seq<char>>) -> Seq<char>
    decreases names.len(),
{
    if names.len() == 0 {
        Seq::empty()
    } else {
        bullets(names.drop_last()) + "- "@ + names.last() + "\n"@
    }
}

/// The report as it is written beside the log.
pub open spec fn rendered(r: GateReport, lib_name: Seq<char>) -> Seq<char> {
    let head = "# Fuzz-completeness gate — "@ + lib_name + "\n\n"@;
    if !r.measured {
        head
            + "**INCONCLUSIVE** — coverage could not be measured (see log). Falling back to the FUZZ.md manifest check.\n"@
    } else {
        let verdict = if r.passing() {
            "PASS ✅"@
        } else {
            "FAIL ❌"@
        };
        let counts = "**"@ + verdict + "** — "@ + text::numeral(r.covered@.len()) + "/"@
            + text::numeral(r.symbols@.len()) + " public functions fuzzed; "@ + text::numeral(
            r.left_behind@.len(),
        ) + " left behind.\n\n"@;
        if r.left_behind@.len() == 0 {
            head + counts
        } else {
            head + counts + "## Left behind (never executed under fuzzing)\n\n"@ + bullets(
                r.left_behind.listed(),
            )
        }
    }
}

/// The report as it is written beside the log: the verdict, the counts, and what was left behind.
pub fn render_report(report: &GateReport, lib_name: &str) -> (r: String)
    ensures
        r@ == rendered(*report, lib_name@),
{
    let mut s = text::join3("# Fuzz-completeness gate — ", lib_name, "\n\n");
    if !report.measured {
        s.append(
            "**INCONCLUSIVE** — coverage could not be measured (see log). Falling back to the FUZZ.md manifest check.\n",
        );
        return s;
    }
    let ghost head = s@;
    s.append("**");
    s.append(
        if report.passed() {
            "PASS ✅"
        } else {
            "FAIL ❌"
        },
    );
    s.append("** — ");
    text::push_numeral(&mut s, report.covered.len() as u64);
    s.append("/");
    text::push_numeral(&mut s, report.symbols.len() as u64);
    s.append(" public functions fuzzed; ");
    text::push_numeral(&mut s, report.left_behind.len() as u64);
    s.append(" left behind.\n\n");
    let ghost counts = "**"@ + (if report.passing() {
        "PASS ✅"@
    } else {
        "FAIL ❌"@
    }) + "** — "@ + text::numeral(report.covered@.len()) + "/"@ + text::numeral(
        report.symbols@.len(),
    ) + " public functions fuzzed; "@ + text::numeral(report.left_behind@.len())
        + " left behind.\n\n"@;
    assert(s@ =~= head + counts);
    if report.left_behind.len() > 0 {
        s.append("## Left behind (never executed under fuzzing)\n\n");
        let names = report.left_behind.as_slice();
        let ghost all = report.left_behind.listed();
        let ghost above = s@;
        let mut i: usize = 0;
        assert(s@ =~= above + bullets(all.subrange(0, 0)));
        while i < names.len()
            invariant
                i <= names.len(),
                all == text::views(names@),
                s@ == above + bullets(all.subrange(0, i as int)),
            decreases names.len() - i,
        {
            let ghost before = s@;
            assert(all.subrange(0, i + 1).drop_last() =~= all.subrange(0, i as int));
            assert(all.subrange(0, i + 1).last() == names@[i as int]@);
            s.append("- ");
            s.append(names[i].as_str());
            s.append("\n");
            assert(s@ =~= above + bullets(all.subrange(0, i + 1)));
            i = i + 1;
        }
        assert(all.subrange(0, names.len() as int) =~= all);
    }
    s
}

// ---------------------------------------------------------------------------
// Laws
// ---------------------------------------------------------------------------

/// Coverage that was not measured never meets the requirement.
pub proof fn law_unmeasured_coverage_never_passes(symbols: Set<Seq<char>>, r: GateReport)
    requires
        inconclusive(symbols, r),
    ensures
        !r.passing(),
{
}

/// With coverage measured, the requirement is met exactly where every public function was executed, whatever else was.
pub proof fn law_the_gate_passes_when_every_public_function_was_executed(
    symbols: Set<Seq<char>>,
    covered: Set<Seq<char>>,
    r: GateReport,
)
    requires
        evaluated(symbols, covered, true, r),
    ensures
        r.passing() <==> symbols.subset_of(covered),
{
    if r.passing() {
        assert forall|s: Seq<char>| symbols.contains(s) implies covered.contains(s) by {
            assert(!symbols.difference(covered).contains(s));
        }
    } else if symbols.subset_of(covered) {
        assert(symbols.difference(covered) =~= Set::empty());
    }
}

/// What was executed and what was left behind make up the public functions, and share none.
pub proof fn law_covered_and_left_behind_partition_the_symbols(
    symbols: Set<Seq<char>>,
    covered: Set<Seq<char>>,
    measured: bool,
    r: GateReport,
)
    requires
        evaluated(symbols, covered, measured, r),
    ensures
        r.covered@.union(r.left_behind@) == symbols,
        r.covered@.disjoint(r.left_behind@),
{
    assert(r.covered@.union(r.left_behind@) =~= symbols);
}

/// The coverage that is taken is there where any is, and no other that is there reaches more of the
/// public functions; of several that reach as many it is the first.
pub proof fn law_the_coverage_that_reaches_the_most_is_taken(
    symbols: Set<Seq<char>>,
    coverage: Seq<Option<Names>>,
    k: int,
)
    requires
        0 <= k < coverage.len(),
        coverage[k] is Some,
    ensures
        best(symbols, coverage) matches Some(i) && 0 <= i < coverage.len() && coverage[i] is Some
            && coverage[k]->0@.intersect(symbols).len() <= coverage[i]->0@.intersect(symbols).len()
            && (k < i ==> coverage[k]->0@.intersect(symbols).len() < coverage[i]->0@.intersect(
            symbols,
        ).len()),
    decreases coverage.len(),
{
    let d = coverage.drop_last();
    if k < d.len() {
        law_the_coverage_that_reaches_the_most_is_taken(symbols, d, k);
        let i = best(symbols, d)->0;
        assert(d[k] == coverage[k]);
        assert(d[i] == coverage[i]);
    } else {
        lemma_best_is_there(symbols, d);
    }
}

proof fn lemma_best_is_there(symbols: Set<Seq<char>>, coverage: Seq<Option<Names>>)
    ensures
        best(symbols, coverage) matches Some(i) ==> 0 <= i < coverage.len() && coverage[i] is Some,
    decreases coverage.len(),
{
    if coverage.len() > 0 {
        lemma_best_is_there(symbols, coverage.drop_last());
    }
}

/// A measurement is inconclusive only where there is no library or no profile, or where no coverage
/// reaches a public function. Otherwise what it calls executed is what one of the coverages reaches,
/// and no coverage reaches more.
pub proof fn law_a_measurement_is_made_where_one_can_be(
    can_be_made: bool,
    symbols: Set<Seq<char>>,
    coverage: Seq<Option<Names>>,
    r: GateReport,
)
    requires
        match best(symbols, coverage) {
            Some(i) => if can_be_made && reach(symbols, coverage[i]) > 0 {
                evaluated(symbols, coverage[i]->0@, true, r)
            } else {
                inconclusive(symbols, r)
            },
            None => inconclusive(symbols, r),
        },
    ensures
        r.measured <==> can_be_made && exists|k: int|
            0 <= k < coverage.len() && coverage[k] is Some && (
            #[trigger] coverage[k])->0@.intersect(symbols).len() > 0,
        r.measured ==> forall|k: int|
            0 <= k < coverage.len() && coverage[k] is Some ==> (
            #[trigger] coverage[k])->0@.intersect(symbols).len() <= r.covered@.len(),
        tells_the_measurement(can_be_made, symbols, coverage, r),
{
    lemma_best_is_there(symbols, coverage);
    assert forall|k: int| 0 <= k < coverage.len() && coverage[k] is Some implies (best(
        symbols,
        coverage,
    ) matches Some(i) && (#[trigger] coverage[k])->0@.intersect(symbols).len()
        <= coverage[i]->0@.intersect(symbols).len()) by {
        law_the_coverage_that_reaches_the_most_is_taken(symbols, coverage, k);
    }
    if r.measured {
        let i = best(symbols, coverage)->0;
        assert(coverage[i] is Some);
    }
}

/// The public functions are the third words of the lines whose second word is a `T`, and no others.
pub proof fn law_a_public_function_is_a_defined_text_symbol(lines: Seq<Seq<char>>, name: Seq<char>)
    ensures
        symbols_in(lines).contains(name) <==> exists|k: int|
            0 <= k < lines.len() && {
                let w = #[trigger] text::words(lines[k]);
                w.len() >= 3 && w[1] == "T"@ && w[2] == name
            },
    decreases lines.len(),
{
    let all = symbols_in(lines);
    if lines.len() > 0 {
        let d = lines.drop_last();
        let before = symbols_in(d);
        law_a_public_function_is_a_defined_text_symbol(d, name);
        if all.contains(name) {
            let i = choose|i: int| 0 <= i < all.len() && all[i] == name;
            if i < before.len() {
                assert(before[i] == name);
                let k = choose|k: int|
                    0 <= k < d.len() && {
                        let w = #[trigger] text::words(d[k]);
                        w.len() >= 3 && w[1] == "T"@ && w[2] == name
                    };
                assert(text::words(lines[k])[2] == name);
            } else {
                assert(text::words(lines[lines.len() - 1])[2] == name);
            }
        }
        if exists|k: int|
            0 <= k < lines.len() && {
                let w = #[trigger] text::words(lines[k]);
                w.len() >= 3 && w[1] == "T"@ && w[2] == name
            } {
            let k = choose|k: int|
                0 <= k < lines.len() && {
                    let w = #[trigger] text::words(lines[k]);
                    w.len() >= 3 && w[1] == "T"@ && w[2] == name
                };
            if k < d.len() {
                assert(text::words(d[k])[2] == name);
                let i = choose|i: int| 0 <= i < before.len() && before[i] == name;
                assert(all[i] == name);
            } else {
                assert(all[all.len() - 1] == name);
            }
        }
    }
}

/// A function of an export was executed where its count is more than nothing; one that was counted at
/// nothing was not.
pub proof fn law_a_function_is_executed_where_it_was_counted(
    fs: Seq<json::JsonView>,
    name: Seq<char>,
)
    ensures
        executed_in(fs).contains(name) <==> exists|k: int|
            0 <= k < fs.len() && json::text_in(json::member(#[trigger] fs[k], "name"@)) == Some(
                name,
            ) && (json::number_in(json::member(fs[k], "count"@)) matches Some(n) && n > 0),
    decreases fs.len(),
{
    let all = executed_in(fs);
    if fs.len() > 0 {
        let d = fs.drop_last();
        let before = executed_in(d);
        law_a_function_is_executed_where_it_was_counted(d, name);
        if all.contains(name) {
            let i = choose|i: int| 0 <= i < all.len() && all[i] == name;
            if i < before.len() {
                assert(before[i] == name);
                let k = choose|k: int|
                    0 <= k < d.len() && json::text_in(json::member(#[trigger] d[k], "name"@))
                        == Some(name) && (json::number_in(json::member(d[k], "count"@)) matches Some(
                        n,
                    ) && n > 0);
                assert(fs[k] == d[k]);
            } else {
                assert(executed(fs[fs.len() - 1]) == Some(name));
            }
        }
        if exists|k: int|
            0 <= k < fs.len() && json::text_in(json::member(#[trigger] fs[k], "name"@)) == Some(
                name,
            ) && (json::number_in(json::member(fs[k], "count"@)) matches Some(n) && n > 0) {
            let k = choose|k: int|
                0 <= k < fs.len() && json::text_in(json::member(#[trigger] fs[k], "name"@)) == Some(
                    name,
                ) && (json::number_in(json::member(fs[k], "count"@)) matches Some(n) && n > 0);
            if k < d.len() {
                assert(d[k] == fs[k]);
                let i = choose|i: int| 0 <= i < before.len() && before[i] == name;
                assert(all[i] == name);
            } else {
                assert(all[all.len() - 1] == name);
            }
        }
    }
}

/// What an export covers is what the functions of its first datum say, and nothing where there are
/// none.
pub proof fn law_coverage_is_read_from_the_first_datum(
    report: json::JsonView,
    first: json::JsonView,
    rest: Seq<json::JsonView>,
)
    requires
        json::member(report, "data"@) == Some(json::JsonView::List(seq![first] + rest)),
    ensures
        json::member(first, "functions"@) matches Some(json::JsonView::List(fs)) ==> coverage_in(
            report,
        ) == executed_in(fs),
        json::member(first, "functions"@) is None ==> coverage_in(report).len() == 0,
{
    let all = seq![first] + rest;
    assert(all[0] == first);
}

/// A profile is a file of that kind that is not empty: one that no program filled is left out.
pub proof fn law_an_empty_profile_is_left_out(files: Seq<(String, u64)>, path: Seq<char>)
    ensures
        profiles_in(files).contains(path) <==> exists|k: int|
            0 <= k < files.len() && (#[trigger] files[k]).0@ == path && files[k].1 > 0
                && paths::extension_in(path) == Some("profraw"@),
    decreases files.len(),
{
    let all = profiles_in(files);
    if files.len() > 0 {
        let d = files.drop_last();
        let before = profiles_in(d);
        law_an_empty_profile_is_left_out(d, path);
        if all.contains(path) {
            let i = choose|i: int| 0 <= i < all.len() && all[i] == path;
            if i < before.len() {
                assert(before[i] == path);
                let k = choose|k: int|
                    0 <= k < d.len() && (#[trigger] d[k]).0@ == path && d[k].1 > 0
                        && paths::extension_in(path) == Some("profraw"@);
                assert(files[k] == d[k]);
            } else {
                assert(files[files.len() - 1].0@ == path);
            }
        }
        if exists|k: int|
            0 <= k < files.len() && (#[trigger] files[k]).0@ == path && files[k].1 > 0
                && paths::extension_in(path) == Some("profraw"@) {
            let k = choose|k: int|
                0 <= k < files.len() && (#[trigger] files[k]).0@ == path && files[k].1 > 0
                    && paths::extension_in(path) == Some("profraw"@);
            if k < d.len() {
                assert(d[k] == files[k]);
                let i = choose|i: int| 0 <= i < before.len() && before[i] == path;
                assert(all[i] == path);
            } else {
                assert(all[all.len() - 1] == path);
            }
        }
    }
}

/// A library is instrumented where its sections name a coverage map; it is a shared library by its
/// name.
pub proof fn law_a_library_is_instrumented_by_its_sections(
    files: Seq<(String, String)>,
    path: Seq<char>,
)
    ensures
        instrumented_in(files).contains(path) <==> exists|k: int|
            0 <= k < files.len() && (#[trigger] files[k]).0@ == path && text::found(
                files[k].1@,
                "__llvm_covmap"@,
            ) && paths::extension_in(path) == Some("so"@) && (paths::name_in(path) matches Some(n)
                && text::begins(n, "lib"@)),
    decreases files.len(),
{
    let all = instrumented_in(files);
    if files.len() > 0 {
        let d = files.drop_last();
        let before = instrumented_in(d);
        law_a_library_is_instrumented_by_its_sections(d, path);
        if all.contains(path) {
            let i = choose|i: int| 0 <= i < all.len() && all[i] == path;
            if i < before.len() {
                assert(before[i] == path);
                let k = choose|k: int|
                    0 <= k < d.len() && (#[trigger] d[k]).0@ == path && text::found(
                        d[k].1@,
                        "__llvm_covmap"@,
                    );
                assert(files[k] == d[k]);
            } else {
                assert(files[files.len() - 1].0@ == path);
            }
        }
        if exists|k: int|
            0 <= k < files.len() && (#[trigger] files[k]).0@ == path && is_instrumented(
                path,
                files[k].1@,
            ) {
            let k = choose|k: int|
                0 <= k < files.len() && (#[trigger] files[k]).0@ == path && is_instrumented(
                    path,
                    files[k].1@,
                );
            if k < d.len() {
                assert(d[k] == files[k]);
                let i = choose|i: int| 0 <= i < before.len() && before[i] == path;
                assert(all[i] == path);
            } else {
                assert(all[all.len() - 1] == path);
            }
        }
    }
}

/// A name stands in a list as an item of its own.
proof fn lemma_bullets(names: Seq<Seq<char>>, i: int)
    requires
        0 <= i < names.len(),
    ensures
        text::found(bullets(names), "- "@ + names[i] + "\n"@),
    decreases names.len(),
{
    let d = names.drop_last();
    let item = "- "@ + names.last() + "\n"@;
    assert(bullets(names) =~= bullets(d) + item + Seq::<char>::empty());
    if i == names.len() - 1 {
        text::lemma_found_inside(bullets(d), item, Seq::empty());
    } else {
        lemma_bullets(d, i);
        let n = "- "@ + d[i] + "\n"@;
        let at = choose|at: int| text::occurs_at(bullets(d), n, at);
        text::lemma_found_inside(
            bullets(d).subrange(0, at),
            n,
            bullets(d).subrange(at + n.len(), bullets(d).len() as int) + item,
        );
        assert(bullets(names) =~= bullets(d).subrange(0, at) + n + (bullets(d).subrange(
            at + n.len(),
            bullets(d).len() as int,
        ) + item));
    }
}

/// What is written of a measurement: for which library, then whether it could be measured at all, and
/// then whether the requirement is met and how many of the public functions were executed, of how many,
/// and how many were not. Every function that was left behind is listed.
pub proof fn law_a_report_says_what_was_measured(r: GateReport, lib: Seq<char>, name: Seq<char>)
    ensures
        ({
            let title = "# Fuzz-completeness gate — "@ + lib + "\n\n"@;
            let counts = text::numeral(r.covered@.len()) + "/"@ + text::numeral(r.symbols@.len())
                + " public functions fuzzed; "@ + text::numeral(r.left_behind@.len())
                + " left behind.\n\n"@;
            &&& !r.measured ==> text::begins(rendered(r, lib), title + "**INCONCLUSIVE**"@)
            &&& r.measured && r.left_behind@ == Set::<Seq<char>>::empty() ==> rendered(r, lib)
                == title + "**PASS ✅** — "@ + counts
            &&& r.measured && r.left_behind@ != Set::<Seq<char>>::empty() ==> text::begins(
                rendered(r, lib),
                title + "**FAIL ❌** — "@ + counts,
            )
            &&& r.measured && r.left_behind.listed().contains(name) ==> text::found(
                rendered(r, lib),
                "- "@ + name + "\n"@,
            )
        }),
{
    let title = "# Fuzz-completeness gate — "@ + lib + "\n\n"@;
    let counts = text::numeral(r.covered@.len()) + "/"@ + text::numeral(r.symbols@.len())
        + " public functions fuzzed; "@ + text::numeral(r.left_behind@.len())
        + " left behind.\n\n"@;
    let all = rendered(r, lib);
    let l = r.left_behind.listed();
    vstd::seq_lib::seq_to_set_is_finite(l);
    if !r.measured {
        reveal_strlit("**INCONCLUSIVE**");
        reveal_strlit(
            "**INCONCLUSIVE** — coverage could not be measured (see log). Falling back to the FUZZ.md manifest check.\n",
        );
        let first = title + "**INCONCLUSIVE**"@;
        assert(all.subrange(0, first.len() as int) =~= first);
    } else {
        reveal_strlit("**");
        reveal_strlit("** — ");
        reveal_strlit("PASS ✅");
        reveal_strlit("FAIL ❌");
        reveal_strlit("**PASS ✅** — ");
        reveal_strlit("**FAIL ❌** — ");
        assert("**PASS ✅** — "@ =~= "**"@ + "PASS ✅"@ + "** — "@);
        assert("**FAIL ❌** — "@ =~= "**"@ + "FAIL ❌"@ + "** — "@);
        if r.left_behind@ == Set::<Seq<char>>::empty() {
            assert(all =~= title + "**PASS ✅** — "@ + counts);
            if l.contains(name) {
                assert(l.to_set().contains(name));
            }
        } else {
            assert(r.left_behind@.len() > 0) by {
                if r.left_behind@.len() == 0 {
                    r.left_behind@.lemma_len0_is_empty();
                }
            }
            let first = title + "**FAIL ❌** — "@ + counts;
            let more = "## Left behind (never executed under fuzzing)\n\n"@;
            assert(all =~= first + more + bullets(l));
            assert(all.subrange(0, first.len() as int) =~= first);
            if l.contains(name) {
                let i = choose|i: int| 0 <= i < l.len() && l[i] == name;
                lemma_bullets(l, i);
                let n = "- "@ + name + "\n"@;
                let at = choose|at: int| text::occurs_at(bullets(l), n, at);
                let b = bullets(l);
                text::lemma_found_inside(
                    first + more + b.subrange(0, at),
                    n,
                    b.subrange(at + n.len(), b.len() as int),
                );
                assert(all =~= first + more + b.subrange(0, at) + n + b.subrange(
                    at + n.len(),
                    b.len() as int,
                ));
            }
        }
    }
}

} // verus!
