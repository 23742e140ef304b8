//! Batteries: which cases there are, which share a source, what their logs say, where results go.

use harvest_tools::analyse::metrics;
use harvest_tools::analyse::metrics::Region;
use harvest_tools::analyse::metrics::RegionKind;
use harvest_tools::analyse::metrics::SourceFile;
use harvest_tools::battery;
use harvest_tools::battery::all_batteries;
use harvest_tools::battery::all_case_names;
use harvest_tools::battery::count_unsafe;
use harvest_tools::battery::discover;
use harvest_tools::battery::extract_agent_meta;
use harvest_tools::battery::extract_features_from_path;
use harvest_tools::battery::extract_lib_name;
use harvest_tools::battery::has_shared_source_groups;
use harvest_tools::battery::parse_duration;
use harvest_tools::battery::resolve_features;
use harvest_tools::battery::Case;
use harvest_tools::battery::CaseEntry;
use harvest_tools::battery::CrustProject;
use harvest_tools::battery::DiscoverError;
use harvest_tools::battery::Link;
use harvest_tools::battery::Paths;

fn owned(names: &[&str]) -> Vec<String> {
    names.iter().map(|s| s.to_string()).collect()
}

fn case(name: &str) -> CaseEntry {
    CaseEntry {
        file_name: name.into(),
        name: name.into(),
        has_case: true,
        has_vectors: true,
        link: Link::Own,
        presets: None,
        runner_main: None,
    }
}

fn linked(name: &str, to: &str) -> CaseEntry {
    CaseEntry { link: Link::To(to.into()), ..case(name) }
}

#[test]
fn mixed_battery_separates_independent_and_shared() {
    let real = "/corpus/Public-Tests/mixed/macrodepth_add_5/test_case";
    let entries = [
        case("arity_lib"),
        case("strcmp"),
        case("cleanup_lib"),
        case("macrodepth_add_5"),
        linked("macrodepth_mul_4", real),
        linked("macrodepth_sub_6", real),
    ];
    assert!(has_shared_source_groups(&entries));
    let result = discover("/corpus", true, "mixed", &entries, None).unwrap();

    let mut independent_count = 0;
    let mut shared_count = 0;
    for case in &result.cases {
        match case {
            Case::Independent(_) => independent_count += 1,
            Case::SharedSource(g) => {
                shared_count += 1;
                assert_eq!(g.real_case, "macrodepth_add_5");
                assert_eq!(g.configs.len(), 2);
                let names: Vec<_> = g.configs.iter().map(|c| c.name.as_str()).collect();
                assert!(names.contains(&"macrodepth_mul_4"));
                assert!(names.contains(&"macrodepth_sub_6"));
            }
        }
    }
    assert_eq!(independent_count, 3, "should have 3 independent cases");
    assert_eq!(shared_count, 1, "should have 1 shared-source group");
    assert_eq!(
        all_case_names(&result),
        [
            "arity_lib",
            "cleanup_lib",
            "macrodepth_add_5",
            "macrodepth_mul_4",
            "macrodepth_sub_6",
            "strcmp",
        ],
    );
}

#[test]
fn no_symlinks_all_independent() {
    let entries = [case("case_a"), case("case_b_lib"), case("case_c")];
    assert!(!has_shared_source_groups(&entries));
    let result = discover("/corpus", true, "simple", &entries, None).unwrap();
    assert_eq!(result.cases.len(), 3);
    for case in &result.cases {
        assert!(matches!(case, Case::Independent(_)));
    }
}

#[test]
fn lib_detection_from_name() {
    let entries = [case("foo_lib"), case("bar"), case("baz_lib")];
    let result = discover("/corpus", true, "libtest", &entries, None).unwrap();
    for case in &result.cases {
        if let Case::Independent(c) = case {
            assert_eq!(c.is_lib, c.name.ends_with("_lib"), "is_lib wrong for {}", c.name);
        }
    }
}

#[test]
fn extract_lib_name_from_runner() {
    let main = r#"fn main() { let lib = cando2::Library::new(library: "blake", path: "..."); }"#;
    assert_eq!(extract_lib_name(&Some(main.to_string())), Some("blake".to_string()));
    assert_eq!(extract_lib_name(&Some("fn main() {}".to_string())), None);
}

#[test]
fn extract_lib_name_missing_runner() {
    assert_eq!(extract_lib_name(&None), None);
}

#[test]
fn filter_regex_selects_matching_cases() {
    let entries = [case("alpha"), case("beta_lib"), case("gamma")];
    let result = discover("/corpus", true, "filtered", &entries, Some("_lib$")).unwrap();
    assert_eq!(result.cases.len(), 1);
    if let Case::Independent(c) = &result.cases[0] {
        assert_eq!(c.name, "beta_lib");
    } else {
        panic!("expected Independent");
    }
}

#[test]
fn a_battery_that_cannot_be_discovered_says_why() {
    match discover("/corpus/B", false, "B", &[], None) {
        Err(DiscoverError::NoBattery(m)) => assert_eq!(m, "Battery not found: /corpus/B"),
        other => panic!("{other:?}"),
    }
    match discover("/corpus/B", true, "B", &[], Some("(")) {
        Err(DiscoverError::BadFilter(f)) => assert_eq!(f, "("),
        other => panic!("{other:?}"),
    }
    let broken = CaseEntry { link: Link::Broken, ..case("x") };
    match discover("/corpus/B", true, "B", &[broken], None) {
        Err(DiscoverError::BadLink(m)) => assert_eq!(m, "resolving symlink for x"),
        other => panic!("{other:?}"),
    }
    match discover("/corpus/B", true, "B", &[linked("x", "/")], None) {
        Err(DiscoverError::BadLink(m)) => assert_eq!(m, "extracting real case name from /"),
        other => panic!("{other:?}"),
    }
    let hollow = CaseEntry { has_vectors: false, ..case("y") };
    assert!(discover("/corpus/B", true, "B", &[hollow], None).unwrap().cases.is_empty());
}

#[test]
fn the_batteries_of_a_corpus_are_its_directories_in_order() {
    let found = vec![("B02".to_string(), true), ("notes.md".to_string(), false), ("B01".to_string(), true)];
    assert_eq!(all_batteries("/corpus/Public-Tests", true, &found).unwrap(), ["B01", "B02"]);
    assert!(all_batteries("/corpus/Public-Tests", false, &found).is_err());
}

#[test]
fn presets_select_features() {
    let presets = r#"{"configurePresets":[{"name":"base"},{"cacheVariables":{
        "HASH_BACKEND":"SHA2","THASH":"simple","SECPAR":"128F"}}]}"#;
    assert_eq!(extract_features_from_path(Some(presets)).unwrap(), ["sha2", "simple", "128f"]);
    let one = r#"{"configurePresets":[{"cacheVariables":{"HASH_BACKEND":"sha2"}}]}"#;
    assert!(extract_features_from_path(Some(one)).unwrap().is_empty());
    assert!(extract_features_from_path(None).unwrap().is_empty());
    assert_eq!(
        extract_features_from_path(Some("{")).unwrap_err(),
        "parsing CMakePresets.json"
    );
}

#[test]
fn a_feature_is_resolved_against_those_that_the_crate_defines() {
    let manifest = "[package]\nname = \"x\"\n\n[features]\nsha2 = []\nsha2_simple = []\n";
    let got = resolve_features(manifest, &owned(&["sha2", "simple", "128f"])).unwrap();
    assert!(got.contains(&"sha2".to_string()), "{got:?}");
    assert!(!got.contains(&"128f".to_string()), "{got:?}");
    assert!(resolve_features("[", &[]).is_err());
}

#[test]
fn translate_and_verify_dirs_are_distinct_newtypes() {
    let paths = Paths::new("/repo", battery::Agent::Kiro, battery::Dataset::BlindCrust);
    let t = paths.translate_dir("vec");
    let v = paths.verify_dir("vec");
    assert_ne!(t.as_path(), v.as_path());
    assert!(t.as_path().ends_with("vec/translate"));
    assert!(v.as_path().ends_with("vec/verify"));
    assert_eq!(
        t.as_path().rsplit_once('/').map(|p| p.0),
        v.as_path().rsplit_once('/').map(|p| p.0)
    );
    assert_eq!(t.join("src"), "/repo/results/CRUST-blind/kiro/vec/translate/src");
}

#[test]
fn the_directories_of_a_run_follow_from_its_agent_and_dataset() {
    let p = Paths::new("/repo", battery::Agent::C2rust, battery::Dataset::TestCorpus);
    assert_eq!(p.corpus_dir, "/repo/test-corpus");
    assert_eq!(p.results_dir, "/repo/results/Test-Corpus/c2rust");
    assert_eq!(p.prompts_dir, "/repo/scripts/prompts");
    assert_eq!(p.input_dir("B01"), "/repo/test-corpus/Public-Tests/B01");
    assert_eq!(p.output_dir("B01"), "/repo/results/Test-Corpus/c2rust/B01");
    assert_eq!(p.case_dir("B01", "x"), "/repo/results/Test-Corpus/c2rust/B01/x");
}

#[test]
fn the_last_cost_line_of_a_log_counts() {
    let log = "▸ Credits: 0.10 • Time: 5s\nwork\n▸ Credits: 1.25 • Time: 3m 4s\n";
    let meta = extract_agent_meta(log).unwrap();
    assert_eq!(meta.credits, "1.25");
    assert_eq!(meta.wall_secs, 184);
    assert!(extract_agent_meta("no cost here").is_none());
    assert!(extract_agent_meta("Credits: 1.2.3 Time: 5s").is_none());
    assert!(extract_agent_meta("Credits: . Time: 5s").is_none());
}

#[test]
fn a_duration_is_minutes_and_seconds() {
    assert_eq!(parse_duration("3m 4s"), 184);
    assert_eq!(parse_duration("59s"), 59);
    assert_eq!(parse_duration("2h 1m"), 60);
    assert_eq!(parse_duration("xm ys"), 0);
    assert_eq!(parse_duration(""), 0);
}

#[test]
fn a_skipped_project_is_never_made() {
    let dirs = owned(&["/d/RBench/vec", "/d/CBench/vec", "/d/RBench/bitset"]);
    let vec = CrustProject::validated("/d", "vec", &dirs);
    if let Ok(p) = &vec {
        assert_eq!(p.name(), "vec");
        assert_eq!(p.c_source(), "/d/CBench/vec");
    }
    assert_eq!(
        CrustProject::validated("/d", "bitset", &dirs).unwrap_err(),
        "bitset is in the CRUST skip list"
    );
    assert_eq!(
        CrustProject::discover("/d", false, &[], &dirs, None).unwrap_err(),
        "RBench not found: /d/RBench"
    );
}

fn source(path: &str, text: &str, regions: Vec<Region>) -> SourceFile {
    SourceFile { path: path.into(), text: Some(text.into()), regions: Some(regions) }
}

#[test]
fn nested_unsafe_regions_are_counted_once_so_the_share_cannot_exceed_the_code() {
    let text = "pub unsafe fn f(p: *const u8) -> u8 {\n    let mut n = 0u8;\n    unsafe {\n        n = *p;\n    }\n    unsafe {\n        n = n.wrapping_add(*p);\n    }\n    n\n}\n";
    let sources = [("lib.rs".to_string(), Some(text.to_string()))];
    let u = metrics::count_unsafe_in(&sources).unwrap();
    let loc = metrics::count_loc(&metrics::source_files(&sources));
    assert_eq!(u.fns, 1);
    assert_eq!(u.blocks, 2, "both nested blocks are still COUNTED as blocks");
    assert!(u.lines <= loc.code, "{} of {}", u.lines, loc.code);
    assert!(u.lines >= 9, "the fn body is 9 lines: {}", u.lines);
    assert_eq!(u.lines, 10);

    let summed = battery::count_unsafe_in(&sources).unwrap();
    assert_eq!((summed.fns, summed.blocks, summed.lines), (1, 2, 16));
    assert_eq!(summed.total(), 3);
}

#[test]
fn the_regions_of_a_text_are_those_that_its_parse_finds() {
    let text = "unsafe impl Send for A {}\nimpl A {\n    unsafe fn g(&self) {}\n    fn h(&self) { let u = \"unsafe {\"; }\n}\n";
    let read = metrics::source_file("a.rs", Some(text.to_string()));
    let found: Vec<(RegionKind, usize, usize)> =
        metrics::regions_for(&read).iter().map(|r| (r.kind, r.start, r.end)).collect();
    assert_eq!(found, [(RegionKind::Impl, 1, 1), (RegionKind::Fn, 3, 3)]);
    let u = metrics::count_unsafe_in(&[("a.rs".into(), Some(text.into()))]).unwrap();
    assert_eq!((u.impls, u.fns, u.blocks, u.lines), (1, 1, 0, 2));
}

#[test]
fn a_file_that_does_not_parse_or_is_not_read_counts_for_nothing() {
    let sources = [
        ("a.rs".to_string(), Some("unsafe fn f() {".to_string())),
        ("b.rs".to_string(), None),
        ("tests/c.rs".to_string(), Some("unsafe fn f() {}\n".to_string())),
        ("d.txt".to_string(), Some("unsafe fn f() {}\n".to_string())),
    ];
    let u = metrics::count_unsafe_in(&sources).unwrap();
    assert_eq!((u.fns, u.blocks, u.impls, u.lines), (0, 0, 0, 0));
    assert_eq!(battery::count_unsafe_in(&sources).unwrap().total(), 0);
    assert!(metrics::source_file("a.rs", sources[0].1.clone()).regions.is_none());
}

#[test]
fn lines_are_counted_once_by_file_and_summed_by_region() {
    let files = [source(
        "lib.rs",
        "",
        vec![
            Region { kind: RegionKind::Fn, start: 1, end: 10 },
            Region { kind: RegionKind::Block, start: 3, end: 5 },
            Region { kind: RegionKind::Block, start: 6, end: 8 },
        ],
    )];
    assert_eq!(metrics::count_unsafe(&files).lines, 10);
    assert_eq!(count_unsafe(&files).lines, 16);
    let endless =
        [source("lib.rs", "", vec![Region { kind: RegionKind::Fn, start: 0, end: usize::MAX }])];
    assert!(battery::try_count_unsafe(&endless).is_none(), "more than can be counted");
}

#[test]
fn code_is_counted_without_blanks_comments_tests_and_programs() {
    assert_eq!(metrics::count_code_lines("fn a() {}\n\n  // note\n/// doc\nlet x = 1; // tail\n"), 2);
    assert!(metrics::is_counted("src/lib.rs"));
    assert!(!metrics::is_counted("src/lib.c"));
    assert!(!metrics::is_counted("src/bin/tool.rs"));
    assert!(!metrics::is_counted("tests/a.rs"));
    assert!(metrics::is_counted("src/bin.rs"));
}

fn groups(of: &[Option<&str>]) -> Vec<Option<String>> {
    of.iter().map(|g| g.map(str::to_string)).collect()
}

#[test]
fn a_library_is_named_by_the_first_match() {
    let two = vec![groups(&[Some("a"), Some("x")]), groups(&[Some("b"), Some("y")])];
    assert_eq!(battery::first_named(&Some(two)), Some("x".to_string()));
    assert_eq!(battery::first_named(&Some(vec![groups(&[Some("a"), None])])), None);
    assert_eq!(battery::first_named(&Some(vec![groups(&[Some("a")])])), None);
    assert_eq!(battery::first_named(&Some(Vec::new())), None);
    assert_eq!(battery::first_named(&None), None);

    let main = r#"Library::new(library: "one"); Library::new(library: "two");"#;
    assert_eq!(extract_lib_name(&Some(main.to_string())), Some("one".to_string()));
}

#[test]
fn a_run_costs_what_its_last_match_says() {
    let of = |credits, time| groups(&[Some("line"), Some(credits), Some(time)]);
    let meta = battery::cost_of(&Some(vec![of("0.1", "5s"), of("2", "1m 1s")])).unwrap();
    assert_eq!((meta.credits.as_str(), meta.wall_secs), ("2", 61));
    assert!(battery::cost_of(&Some(vec![of("2", "5s"), groups(&[Some("line"), None])])).is_none());
    assert!(battery::cost_of(&Some(Vec::new())).is_none());
    assert!(battery::cost_of(&None).is_none());
}

#[test]
fn a_name_makes_one_case_whatever_entries_have_it() {
    let as_file = |raw: &[u8], e: CaseEntry| CaseEntry { file_name: raw.to_vec(), ..e };
    let names = |entries: &[CaseEntry]| {
        all_case_names(&discover("/corpus/B", true, "B", entries, None).unwrap())
    };
    let odd = "x\u{fffd}";
    let twice = [
        as_file(b"x\xff", case(odd)),
        as_file(b"x\xfe", case(odd)),
        case("a"),
    ];
    assert_eq!(names(&twice), ["a", odd]);

    let real = "/corpus/Public-Tests/B/a/test_case";
    let behind = [
        as_file(b"x\xfe", case(odd)),
        as_file(b"x\xff", linked(odd, real)),
        case("a"),
    ];
    match &discover("/corpus/B", true, "B", &behind, None).unwrap().cases[..] {
        [Case::SharedSource(g)] => {
            assert_eq!(g.real_case, "a");
            assert_eq!(g.configs.len(), 1);
            assert_eq!(g.configs[0].name, odd);
        }
        other => panic!("a name behind a link is no case of its own: {other:?}"),
    }
}

#[test]
fn cases_stand_in_the_order_of_the_names_that_the_directory_has() {
    let entries = [
        CaseEntry { file_name: b"\xff".to_vec(), ..case("\u{fffd}") },
        case("\u{10000}"),
        case("b"),
    ];
    let found = discover("/corpus/B", true, "B", &entries, None).unwrap();
    assert_eq!(all_case_names(&found), ["b", "\u{10000}", "\u{fffd}"]);
}
