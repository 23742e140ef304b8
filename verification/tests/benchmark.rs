//! What a run covers, what it needs, and when its number may be published.

use harvest_tools::battery;
use harvest_tools::battery::all_case_names;
use harvest_tools::battery::CaseEntry;
use harvest_tools::battery::DiscoverError;
use harvest_tools::battery::Link;
use harvest_tools::benchmark::accept_cmake;
use harvest_tools::benchmark::attests;
use harvest_tools::benchmark::cmake_version;
use harvest_tools::benchmark::find_repo_root;
use harvest_tools::benchmark::for_dataset;
use harvest_tools::benchmark::harvest_bench_jobs;
use harvest_tools::benchmark::no_filter_here;
use harvest_tools::benchmark::one_filter;
use harvest_tools::benchmark::parse_target;
use harvest_tools::benchmark::refusals_line;
use harvest_tools::benchmark::test_corpus_jobs;
use harvest_tools::benchmark::Above;
use harvest_tools::benchmark::Benchmark;
use harvest_tools::benchmark::Covers;
use harvest_tools::benchmark::InScope;
use harvest_tools::benchmark::NoJobs;
use harvest_tools::benchmark::Probe;
use harvest_tools::benchmark::Roots;
use harvest_tools::benchmark::Scope;
use harvest_tools::benchmark::CMAKE_MIN_MAJOR;
use harvest_tools::benchmark::CMAKE_MIN_MINOR;
use harvest_tools::chain;
use harvest_tools::chain::Artifact;
use harvest_tools::chain::Job;
use harvest_tools::chain::Role;
use harvest_tools::chain::Shape;
use harvest_tools::cli::Dataset;
use harvest_tools::eval::Resolved;

const CMAKE_MIN: (u32, u32) = (CMAKE_MIN_MAJOR, CMAKE_MIN_MINOR);

fn roots() -> Roots {
    Roots {
        corpus_dir: "/repo/harvest-bench/tests".into(),
        results_dir: "/repo/results/HB/codex".into(),
    }
}

fn owned(names: &[&str]) -> Vec<String> {
    names.iter().map(|s| s.to_string()).collect()
}

fn entry(name: &str, link: Link) -> CaseEntry {
    CaseEntry {
        file_name: name.into(),
        name: name.into(),
        has_case: true,
        has_vectors: true,
        link,
        presets: None,
        runner_main: None,
    }
}

// Two cases of their own, and three that share one source.
fn tc_corpus() -> Vec<CaseEntry> {
    let real = "/repo/test-corpus/Public-Tests/B02_synthetic/macrodepth_add_5/test_case";
    vec![
        entry("alpha_lib", Link::Own),
        entry("beta", Link::Own),
        entry("macrodepth_add_5", Link::Own),
        entry("macrodepth_add_10", Link::To(real.into())),
        entry("macrodepth_add_20", Link::To(real.into())),
    ]
}

fn tc_roots() -> Roots {
    Roots {
        corpus_dir: "/repo/test-corpus".into(),
        results_dir: "/repo/results/Test-Corpus/codex".into(),
    }
}

fn c_of(battery: &str, entries: &[CaseEntry]) -> Vec<String> {
    entries
        .iter()
        .map(|e| format!("/repo/test-corpus/Public-Tests/{battery}/{}/test_case", e.name))
        .collect()
}

// The jobs of a battery whose C is all there.
fn tc_jobs(
    battery: &str,
    entries: &[CaseEntry],
    filter: Option<&str>,
) -> Result<Vec<Job>, NoJobs> {
    test_corpus_jobs(&tc_roots(), battery, true, entries, &c_of(battery, entries), filter)
}

#[test]
fn a_harvest_bench_project_is_one_case_at_its_own_layout() {
    let r = roots();
    let jobs = harvest_bench_jobs(&r, "libsodium", true, None)
        .expect("a project in harvest-bench's own layout must be discoverable");
    assert_eq!(jobs.len(), 1, "a project IS one case");
    let job = &jobs[0];
    assert_eq!(job.name, "libsodium");
    assert_eq!(
        job.corpus,
        format!("{}/test_case", job.case_inputs),
        "the C the chain assembles must be inside case_inputs"
    );
    assert_eq!(
        job.case_dir,
        r.output_dir("libsodium"),
        "and it must publish exactly where the harvest-bench scorer reads"
    );
    assert_eq!(
        job.case_dir.rsplit_once('/').map(|(p, _)| p),
        Some(r.results_dir.as_str()),
        "no battery level above it and no case level below it"
    );
    assert!(matches!(job.shape, Shape::Library));
    assert!(
        matches!(&job.artifact, Artifact::Cdylib { lib_name } if lib_name == "libsodium"),
        "the suite links lib<project>.so by ABI, so the name comes from the project"
    );
    assert!(job.followers.is_empty());

    let missing = test_corpus_jobs(&r, "libsodium", false, &[], &[], None);
    match missing {
        Err(NoJobs::Undiscovered(DiscoverError::NoBattery(m))) => {
            assert!(m.contains("Public-Tests"), "{m}")
        }
        other => panic!("the Test-Corpus layout holds no such battery: {other:?}"),
    }
}

fn served_at(place: &str) -> Resolved {
    let mut served = Resolved::new();
    served.extend(vec![(place.to_string(), Vec::new())]);
    served
}

#[test]
fn a_unit_attests_only_when_every_case_dir_it_publishes_into_was_served() {
    let r = roots();
    let jobs = harvest_bench_jobs(&r, "lz4", true, None).unwrap();
    assert!(
        attests(&jobs, &Resolved::new()).is_err(),
        "a store that served nothing must not publish a number"
    );
    let served = served_at(&format!("{}/{}", jobs[0].case_dir, Role::Translate.dir()));
    attests(&jobs, &served).expect("the dir the chain publishes into must attest it");
    let asked_for = format!("{}/{}", r.output_dir("lz4"), Role::Translate.dir());
    assert!(
        served.get(&asked_for).is_some(),
        "the scorer must find the very tree the chain published"
    );
    let nested = served_at(&format!("{}/lz4/translated", r.output_dir("lz4")));
    assert!(
        nested.get(&asked_for).is_none(),
        "non-vacuous: an extra case level really is invisible to that lookup"
    );

    let err = attests(&[], &served).expect_err("an empty unit attests nothing");
    assert!(err.contains("no case at all"), "{err}");
    let beside = served_at(&format!("{}2/translated", jobs[0].case_dir));
    assert_eq!(
        attests(&jobs, &beside).unwrap_err(),
        "the store serves 0 of its 1 case(s), 1 unresolved"
    );
}

#[test]
fn a_run_publishes_the_units_that_were_served_in_full() {
    let r = roots();
    let units: Vec<(String, Vec<Job>)> = ["lz4", "zlib"]
        .iter()
        .map(|u| (u.to_string(), harvest_bench_jobs(&r, u, true, None).unwrap()))
        .collect();
    let (scope, notes) = InScope::derive(&units, &served_at("/repo/results/HB/codex/zlib/verified"));
    assert_eq!(scope.unwrap().units(), ["zlib"]);
    assert_eq!(
        notes,
        ["⏭️  lz4: out of scope — the store serves 0 of its 1 case(s), 1 unresolved"]
    );
    let (nothing, _) = InScope::derive(&units, &Resolved::new());
    assert_eq!(
        nothing.unwrap_err(),
        "the store serves no unit of lz4, zlib in full, so this run can publish nothing"
    );
}

#[test]
fn a_cmake_too_old_for_the_gtest_suites_is_refused_before_the_money() {
    for text in ["cmake version 3.24.0", "cmake version 3.31.1", "cmake 4.0.1"] {
        accept_cmake(text, CMAKE_MIN).unwrap_or_else(|e| panic!("{text} must pass: {e:#}"));
    }
    let text = accept_cmake("cmake version 3.22.2", CMAKE_MIN)
        .expect_err("3.22 is the version this box ships and it cannot build a suite");
    assert!(
        text.contains("3.22") && text.contains("3.24"),
        "the refusal must name what was found and what is needed: {text}"
    );
    assert!(accept_cmake("", CMAKE_MIN).is_err());
    assert!(accept_cmake("cmake version banana", CMAKE_MIN).is_err());
    assert_eq!(
        accept_cmake("cmake version banana", CMAKE_MIN).unwrap_err(),
        "`cmake --version` printed no version this can read: \"cmake version banana\""
    );
}

#[test]
fn a_version_is_the_first_word_that_begins_with_a_digit() {
    assert_eq!(cmake_version("cmake version 3.24.0-rc1\n\nCMake suite 9.9"), Some((3, 24)));
    assert_eq!(cmake_version("cmake 4"), Some((4, 0)));
    assert_eq!(cmake_version("cmake 3.x"), Some((3, 0)));
    assert_eq!(cmake_version("cmake 3x.1 4.0"), None);
    assert_eq!(cmake_version("cmake 4294967296.0"), None);
}

#[test]
fn a_run_that_lacks_something_is_refused_by_its_name() {
    let all = || Probe {
        corpus_is_dir: true,
        python: Ok(true),
        runner: None,
        cmake: Ok("cmake version 3.24.0"),
    };
    let tc = Benchmark::TestCorpus;
    let hb = Benchmark::HarvestBench;
    assert_eq!(tc.preflight(tc_roots(), &all()).unwrap().paths().corpus_dir, "/repo/test-corpus");
    assert!(hb.preflight(roots(), &all()).is_ok());

    let absent = Probe { corpus_is_dir: false, ..all() };
    let said = tc.preflight(tc_roots(), &absent).unwrap_err();
    assert!(said.starts_with("the test-corpus submodule is absent at /repo/test-corpus"), "{said}");
    let said = hb.preflight(roots(), &absent).unwrap_err();
    assert!(said.contains("harvest-bench"), "{said}");

    let old = Probe { python: Ok(false), ..all() };
    assert_eq!(
        tc.preflight(tc_roots(), &old).unwrap_err(),
        "python3 is older than 3.10, which MIT runtests needs"
    );
    assert!(hb.preflight(roots(), &old).is_ok(), "another dataset does not need it");
    let none = Probe { python: Err("not found".into()), ..all() };
    assert_eq!(
        tc.preflight(tc_roots(), &none).unwrap_err(),
        "python3 is not runnable (not found), and scoring goes through it"
    );
    let no_runner = Probe { runner: Some("no runner".into()), ..all() };
    assert_eq!(hb.preflight(roots(), &no_runner).unwrap_err(), "no runner");
    let no_cmake = Probe { cmake: Err("not found".into()), ..all() };
    assert_eq!(
        hb.preflight(roots(), &no_cmake).unwrap_err(),
        "cmake is not runnable (not found), and the gtest suites are configured with it"
    );
    let old_cmake = Probe { cmake: Ok("cmake version 3.22.2"), ..all() };
    assert!(hb.preflight(roots(), &old_cmake).unwrap_err().contains("3.22"));
}

#[test]
fn a_test_corpus_battery_keeps_its_battery_level_and_its_shared_source_followers() {
    let entries = tc_corpus();
    let jobs = tc_jobs("B02_synthetic", &entries, None).unwrap();
    assert_eq!(jobs.len(), 3, "two independent cases and one shared group");

    let shared: Vec<&Job> = jobs.iter().filter(|j| !j.followers.is_empty()).collect();
    assert_eq!(shared.len(), 1, "the macrodepth cases are one shared-source group");
    assert_eq!(shared[0].followers.len(), 2);
    let g = shared[0];
    assert!(matches!(g.shape, Shape::Shared));
    assert!(
        matches!(g.artifact, Artifact::Template { .. }),
        "the real case is the template its followers are derived from"
    );
    for f in &g.followers {
        assert_eq!(
            f.case_dir,
            format!("/repo/results/Test-Corpus/codex/B02_synthetic/{}", f.cfg.name),
            "a Test-Corpus case keeps its battery level"
        );
        assert_eq!(f.corpus, format!("{}/test_case", f.case_inputs));
    }
    let found = battery::discover("", true, "B02_synthetic", &entries, None).unwrap();
    assert_eq!(chain::case_dirs(&jobs).len(), all_case_names(&found).len());
}

#[test]
fn a_library_is_named_by_its_runner_or_else_by_its_case() {
    let mut entries = tc_corpus();
    let lib_name = |entries: &[CaseEntry]| {
        let jobs = tc_jobs("B", entries, Some("^alpha_lib$")).unwrap();
        match &jobs[0].artifact {
            Artifact::Cdylib { lib_name } => lib_name.clone(),
            other => panic!("a case that ends in _lib is a library: {other:?}"),
        }
    };
    assert_eq!(lib_name(&entries), "alpha_lib");
    entries[0].runner_main = Some("harness! { library: \"alpha\" }".into());
    assert_eq!(lib_name(&entries), "alpha");
}

#[test]
fn the_features_of_a_template_are_those_of_its_presets() {
    let mut entries = tc_corpus();
    entries[2].presets = Some("{ no json".into());
    match tc_jobs("B", &entries, None) {
        Err(NoJobs::Unreadable(m)) => assert_eq!(m, "parsing CMakePresets.json"),
        other => panic!("{other:?}"),
    }
    entries[2].presets = Some("{}".into());
    let jobs = tc_jobs("B", &entries, None).unwrap();
    assert!(jobs.iter().any(|j| matches!(
        &j.artifact,
        Artifact::Template { default_features, needs_driver: true } if default_features.is_empty()
    )));
}

#[test]
fn a_case_named_in_the_target_becomes_the_filter() {
    assert_eq!(
        parse_target("B01_synthetic/001_helloworld"),
        ("B01_synthetic".into(), Some("001_helloworld$".into())),
        "anchored at the end, so 001_helloworld does not also select 001_helloworld_lib"
    );
    assert_eq!(parse_target("B01_synthetic"), ("B01_synthetic".into(), None));
}

#[test]
fn the_include_regex_flag_reaches_the_case_list() {
    assert_eq!(
        one_filter(None, Some("01[0-9]_")).unwrap(),
        Some("01[0-9]_".to_string()),
        "a flag with no case in the target must be the filter, not be dropped"
    );
}

#[test]
fn a_filter_named_twice_is_refused_rather_than_half_applied() {
    let text = one_filter(Some("001_helloworld$".into()), Some("01[0-9]_"))
        .expect_err("two filters for one list cannot both apply");
    assert!(
        text.contains("001_helloworld$") && text.contains("01[0-9]_"),
        "and the refusal must name both, or the operator cannot tell which to drop: {text}"
    );
}

#[test]
fn a_case_named_in_the_target_narrows_the_unit_and_the_score_alike() {
    let tc = Benchmark::TestCorpus;
    let one = Scope::resolve(tc, "B01_organic/bin2hex_lib", None, &[]).unwrap();
    assert_eq!(one.units(), ["B01_organic".to_string()], "the unit is the BATTERY");
    assert_eq!(one.filter(), Some("bin2hex_lib$"));
    assert!(matches!(one.covers(), Covers::Subset("bin2hex_lib$")));

    let whole = Scope::resolve(tc, "B01_organic", None, &[]).unwrap();
    assert_eq!(whole.units(), ["B01_organic".to_string()]);
    assert_eq!(whole.filter(), None);
    assert!(matches!(whole.covers(), Covers::WholeBattery));
}

#[test]
fn a_target_may_name_every_unit() {
    let all = owned(&["B01", "B02"]);
    assert_eq!(Scope::resolve(Benchmark::TestCorpus, "all", None, &all).unwrap().units(), all);
    assert_eq!(Scope::resolve(Benchmark::HarvestBench, "Hb", None, &all).unwrap().units(), all);
    assert_eq!(
        Scope::resolve(Benchmark::HarvestBench, "lz4", None, &all).unwrap().units(),
        ["lz4"]
    );
    assert_eq!(
        Scope::resolve(Benchmark::TestCorpus, "hb", None, &all).unwrap().units(),
        ["hb"]
    );
}

#[test]
fn a_filter_harvest_bench_cannot_honour_is_refused_rather_than_ignored() {
    assert!(no_filter_here(None).is_ok(), "no flag is not an error");
    let err = no_filter_here(Some("libsodium")).expect_err(
        "harvest-bench filters nothing below a project, so accepting this would be the \
         silent-ignore bug again",
    );
    assert!(err.contains("libsodium"));
    assert!(harvest_bench_jobs(&roots(), "lz4", true, Some("x")).is_err());
    assert!(Scope::resolve(Benchmark::HarvestBench, "lz4", Some("x"), &[]).is_err());
}

#[test]
fn only_a_run_of_everything_writes_the_tables_anew() {
    let tc = for_dataset(Dataset::TestCorpus);
    let hb = for_dataset(Dataset::HarvestBench);
    assert_eq!((tc.name(), hb.name()), ("test-corpus", "harvest-bench"));
    assert!(tc.whole_scope("all", None));
    assert!(!tc.whole_scope("all", Some("x")));
    assert!(!tc.whole_scope("B01", None));
    assert!(hb.whole_scope("HB", None));
    assert!(!hb.whole_scope("all", None));
}

#[test]
fn refusals_are_counted_apart() {
    assert_eq!(refusals_line("codex", &[]), None);
    assert_eq!(
        refusals_line("codex", &owned(&["a/translate", "b/verify"])).unwrap(),
        "codex 🚫 provider refusals: 2 (a/translate, b/verify)"
    );
}

#[test]
fn the_root_of_the_repository_is_the_nearest_that_holds_both() {
    let above = |dir: &str, corpus, results| Above { dir: dir.into(), corpus, results };
    let dirs = vec![
        above("/r/tools/src", false, false),
        above("/r/tools", true, false),
        above("/r", true, true),
        above("/", true, true),
    ];
    assert_eq!(find_repo_root(&dirs).unwrap(), "/r");
    assert_eq!(
        find_repo_root(&dirs[..2]).unwrap_err(),
        "Could not find repo root (looking for test-corpus/ and results/)"
    );
}

#[test]
fn a_case_whose_c_is_absent_is_refused_rather_than_run_on_nothing() {
    let words = |place: &str| {
        format!("no C corpus at {place}: an absent input would otherwise be keyed as a real one")
    };
    assert_eq!(
        harvest_bench_jobs(&roots(), "lz4", false, None).unwrap_err(),
        words("/repo/harvest-bench/tests/lz4/test_case")
    );

    let entries = tc_corpus();
    for (gone, named) in [(1, "beta"), (4, "macrodepth_add_20")] {
        let mut there = c_of("B", &entries);
        there.remove(gone);
        match test_corpus_jobs(&tc_roots(), "B", true, &entries, &there, None) {
            Err(NoJobs::NoCorpus(m)) => {
                let place = format!("/repo/test-corpus/Public-Tests/B/{named}/test_case");
                assert_eq!(m, words(&place))
            }
            other => panic!("{other:?}"),
        }
    }
    let mut there = c_of("B", &entries);
    there.remove(1);
    let jobs =
        test_corpus_jobs(&tc_roots(), "B", true, &entries, &there, Some("^alpha_lib$")).unwrap();
    assert_eq!(jobs.len(), 1, "a case out of scope is not asked for");
}
