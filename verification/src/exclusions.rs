//! The CRUST-Bench projects that are not reported: one list, from which the reported denominator
//! follows.

use crate::text;
use vstd::prelude::*;
use vstd::string::*;

verus! {

/// The projects that the benchmark ships.
pub const CRUST_TOTAL: usize = 100;

/// The projects that are reported.
pub const CRUST_REPORTED: usize = 87;

/// The projects that are skipped when projects are discovered, and so never translated or scored.
pub open spec fn not_run_projects() -> Seq<Seq<char>> {
    seq![
        "Genetic_neural_network_for_simple_control"@,
        "Holdem_Odds"@,
        "VaultSync"@,
        "bitset"@,
        "clog"@,
    ]
}

/// The projects that are translated and not counted, because their own tests are broken.
pub open spec fn uncounted_projects() -> Seq<Seq<char>> {
    seq![
        "cissy"@,
        "libpgn"@,
        "libwecan"@,
        "razz_simulation"@,
        "fs_c"@,
        "utf8"@,
        "inversion_list"@,
        "tisp"@,
    ]
}

/// The form in which names are compared: a corpus directory writes a hyphen where a results directory
/// writes an underscore.
pub open spec fn normal(name: Seq<char>) -> Seq<char> {
    text::lowercase_form(text::exchanged(name, '-', '_'))
}

/// A name is that of one of the projects.
pub open spec fn names_one_of(projects: Seq<Seq<char>>, name: Seq<char>) -> bool {
    exists|i: int| 0 <= i < projects.len() && normal(#[trigger] projects[i]) == normal(name)
}

/// The projects that are skipped when projects are discovered: C tests that run for minutes,
/// contradictory tests, and tests that hold a path or a file name of their author's.
pub fn not_run() -> (r: Vec<String>)
    ensures
        text::views(r@) == not_run_projects(),
{
    let mut v: Vec<String> = Vec::new();
    v.push(text::copy("Genetic_neural_network_for_simple_control"));
    v.push(text::copy("Holdem_Odds"));
    v.push(text::copy("VaultSync"));
    v.push(text::copy("bitset"));
    v.push(text::copy("clog"));
    assert(text::views(v@) =~= not_run_projects());
    v
}

/// The projects that are translated and not counted: the C reference fails their tests too, or a test
/// asserts what C does not define.
pub fn excluded_from_count() -> (r: Vec<String>)
    ensures
        text::views(r@) == uncounted_projects(),
{
    let mut v: Vec<String> = Vec::new();
    v.push(text::copy("cissy"));
    v.push(text::copy("libpgn"));
    v.push(text::copy("libwecan"));
    v.push(text::copy("razz_simulation"));
    v.push(text::copy("fs_c"));
    v.push(text::copy("utf8"));
    v.push(text::copy("inversion_list"));
    v.push(text::copy("tisp"));
    assert(text::views(v@) =~= uncounted_projects());
    v
}

fn norm(name: &str) -> (r: String)
    ensures
        r@ == normal(name@),
{
    let v = text::exchange(&text::chars_of(name), '-', '_');
    text::to_lowercase(text::string_of(&v).as_str())
}

fn is_one_of(projects: &[String], name: &str) -> (r: bool)
    ensures
        r == names_one_of(text::views(projects@), name@),
{
    let n = norm(name);
    let ghost all = text::views(projects@);
    let mut i: usize = 0;
    while i < projects.len()
        invariant
            i <= projects.len(),
            all == text::views(projects@),
            n@ == normal(name@),
            forall|k: int| 0 <= k < i ==> normal(#[trigger] all[k]) != normal(name@),
        decreases projects.len() - i,
    {
        assert(all[i as int] == projects@[i as int]@);
        if text::same_text(norm(projects[i].as_str()).as_str(), n.as_str()) {
            return true;
        }
        i = i + 1;
    }
    false
}

/// Whether a project is skipped when projects are discovered.
pub fn is_not_run(name: &str) -> (r: bool)
    ensures
        r == names_one_of(not_run_projects(), name@),
{
    is_one_of(not_run().as_slice(), name)
}

/// Whether a project is left out of the reported denominator, for either reason.
pub fn is_excluded(name: &str) -> (r: bool)
    ensures
        r == (names_one_of(not_run_projects(), name@) || names_one_of(uncounted_projects(), name@)),
{
    is_not_run(name) || is_one_of(excluded_from_count().as_slice(), name)
}

/// The number of projects that are left out.
pub fn excluded_count() -> (r: usize)
    ensures
        r == not_run_projects().len() + uncounted_projects().len(),
        r == 13,
{
    let skipped = not_run();
    let uncounted = excluded_from_count();
    assert(text::views(skipped@).len() == skipped@.len());
    assert(text::views(uncounted@).len() == uncounted@.len());
    skipped.len() + uncounted.len()
}

/// What is shipped less what is left out is what is reported.
pub proof fn law_exclusions_yield_the_reported_projects()
    ensures
        CRUST_TOTAL - not_run_projects().len() - uncounted_projects().len() == CRUST_REPORTED,
{
}

/// No project is in both lists.
pub proof fn law_no_project_is_excluded_twice(i: int, j: int)
    requires
        0 <= i < not_run_projects().len(),
        0 <= j < uncounted_projects().len(),
    ensures
        not_run_projects()[i] != uncounted_projects()[j],
{
    reveal_strlit("Genetic_neural_network_for_simple_control");
    reveal_strlit("Holdem_Odds");
    reveal_strlit("VaultSync");
    reveal_strlit("bitset");
    reveal_strlit("clog");
    reveal_strlit("cissy");
    reveal_strlit("libpgn");
    reveal_strlit("libwecan");
    reveal_strlit("razz_simulation");
    reveal_strlit("fs_c");
    reveal_strlit("utf8");
    reveal_strlit("inversion_list");
    reveal_strlit("tisp");
    let a = not_run_projects()[i];
    let b = uncounted_projects()[j];
    assert(a.len() == 41 || a.len() == 11 || a.len() == 9 || a.len() == 6 || a.len() == 4);
    assert(b.len() == 5 || b.len() == 6 || b.len() == 8 || b.len() == 15 || b.len() == 4 || b.len()
        == 14);
    if a.len() == 6 {
        assert(a[0] == 'b');
    }
    if a.len() == 4 {
        assert(a[0] == 'c');
    }
}

/// A project is known by its name whichever of the two strokes it is written with.
pub proof fn law_a_stroke_does_not_change_a_project(one: Seq<char>, other: Seq<char>)
    requires
        text::exchanged(one, '-', '_') == text::exchanged(other, '-', '_'),
    ensures
        normal(one) == normal(other),
        names_one_of(not_run_projects(), one) == names_one_of(not_run_projects(), other),
        names_one_of(uncounted_projects(), one) == names_one_of(uncounted_projects(), other),
        normal(one) == text::lowercase_form(text::exchanged(one, '-', '_')),
{
}

/// Thirteen projects are left out: five that are not run, and eight that are run and not counted.
pub proof fn law_thirteen_projects_are_left_out()
    ensures
        not_run_projects() == seq![
            "Genetic_neural_network_for_simple_control"@,
            "Holdem_Odds"@,
            "VaultSync"@,
            "bitset"@,
            "clog"@,
        ],
        uncounted_projects() == seq![
            "cissy"@,
            "libpgn"@,
            "libwecan"@,
            "razz_simulation"@,
            "fs_c"@,
            "utf8"@,
            "inversion_list"@,
            "tisp"@,
        ],
        names_one_of(not_run_projects(), "VaultSync"@),
        names_one_of(uncounted_projects(), "tisp"@),
        CRUST_TOTAL == CRUST_REPORTED + 13,
{
    assert(not_run_projects()[2] == "VaultSync"@);
    assert(uncounted_projects()[7] == "tisp"@);
}

} // verus!
