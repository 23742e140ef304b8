//! Manifests, tables and the numbers in them.

use harvest_tools::analyse::cargo_toml::strip_for_lib;
use harvest_tools::analyse::cargo_toml::CargoToml;
use harvest_tools::analyse::numbers::fmt_commas;
use harvest_tools::analyse::numbers::fmt_k;
use harvest_tools::analyse::numbers::mean_round;
use harvest_tools::analyse::numbers::median_round;
use harvest_tools::analyse::records;
use harvest_tools::analyse::records::AgentRecord;
use harvest_tools::analyse::records::BatteryRecord;
use harvest_tools::analyse::records::BatteryRow;
use harvest_tools::analyse::records::Below;
use harvest_tools::analyse::records::CFile;
use harvest_tools::analyse::records::CaseRecord;
use harvest_tools::analyse::records::CaseResult;
use harvest_tools::analyse::records::CorpusBattery;
use harvest_tools::analyse::records::CorpusCase;
use harvest_tools::analyse::records::Summary;
use harvest_tools::analyse::report;
use harvest_tools::analyse::report::Invariant;
use harvest_tools::analyse::report::ReportInput;
use harvest_tools::analyse::tractor;
use harvest_tools::cli;
use harvest_tools::cli::CacheAction;
use harvest_tools::cli::Cli;
use harvest_tools::cli::Command;
use harvest_tools::cli::Dataset;
use harvest_tools::cli::Tool;
use harvest_tools::cli::Variant;
use harvest_tools::json;
use harvest_tools::program;
use harvest_tools::store::Mode;

fn owned(names: &[&str]) -> Vec<String> {
    names.iter().map(|s| s.to_string()).collect()
}

#[test]
fn set_lib_name_and_cdylib() {
    let mut cargo =
        CargoToml::open("Cargo.toml", "[package]\nname = \"mylib\"\nversion = \"0.1.0\"\n").unwrap();
    cargo.set_lib("blake");
    let content = cargo.text();
    assert!(content.contains(r#"name = "blake""#));
    assert!(content.contains(r#""cdylib""#));
}

#[test]
fn set_bin_driver() {
    let mut cargo = CargoToml::open("Cargo.toml", "[package]\nname = \"mybin\"\n").unwrap();
    cargo.set_bin_driver();
    assert!(cargo.text().contains(r#"name = "driver""#));
}

#[test]
fn remove_bin_section() {
    let mut cargo = CargoToml::open(
        "Cargo.toml",
        "[package]\nname = \"mylib\"\n\n[[bin]]\nname = \"driver\"\npath = \"src/main.rs\"\n",
    )
    .unwrap();
    cargo.remove_bin();
    let content = cargo.text();
    assert!(!content.contains("[[bin]]"));
    assert!(!content.contains("driver"));
    assert!(content.contains("mylib"));
}

#[test]
fn add_workspace_idempotent() {
    let mut cargo =
        CargoToml::open("Cargo.toml", "[package]\nname = \"test\"\n\n[workspace]\n").unwrap();
    cargo.add_workspace();
    assert_eq!(cargo.text().matches("[workspace]").count(), 1);
    let mut bare = CargoToml::open("Cargo.toml", "[package]\nname = \"test\"\n").unwrap();
    bare.add_workspace();
    bare.add_workspace();
    assert_eq!(bare.text().matches("[workspace]").count(), 1);
}

#[test]
fn set_default_features() {
    let mut cargo = CargoToml::open(
        "Cargo.toml",
        "[package]\nname = \"test\"\n\n[features]\nblake = []\nsha2 = []\n\"128f\" = []\n",
    )
    .unwrap();
    cargo.set_default_features(&owned(&["blake", "128f"]));
    let content = cargo.text();
    assert!(content.contains("default"));
    assert!(content.contains("blake"));
    assert!(content.contains("128f"));
    assert_eq!(cargo.defined_features(), ["blake", "sha2", "128f"]);
}

#[test]
fn a_manifest_that_is_no_toml_is_not_opened() {
    assert_eq!(CargoToml::open("/x/Cargo.toml", "[package").err().unwrap(), "parsing /x/Cargo.toml");
}

#[test]
fn strip_for_lib_removes_main_and_tests() {
    assert_eq!(strip_for_lib("/d", true, true), ["/d/src/main.rs", "/d/tests"]);
}

#[test]
fn strip_for_lib_noop_when_missing() {
    assert!(strip_for_lib("/d", false, false).is_empty());
}

#[test]
fn thousands_are_written_as_floating_point_rounds_them() {
    for loc in 0..200_000u32 {
        let want = if loc < 1000 {
            loc.to_string()
        } else if loc < 2000 {
            format!("{:.1}k", loc as f64 / 1000.0)
        } else {
            format!("{}k", (loc as f64 / 1000.0).round() as u32)
        };
        assert_eq!(fmt_k(loc), want, "{loc}");
    }
    assert_eq!(fmt_k(u32::MAX), "4294967k");
}

#[test]
fn digits_are_grouped_by_three() {
    assert_eq!(fmt_commas(7), "7");
    assert_eq!(fmt_commas(1000), "1,000");
    assert_eq!(fmt_commas(1_020_304), "1,020,304");
    assert_eq!(fmt_commas(u32::MAX), "4,294,967,295");
}

#[test]
fn means_and_medians_are_rounded_half_up() {
    assert_eq!(median_round(&[]), 0);
    assert_eq!(median_round(&[5, 1, 3]), 3);
    assert_eq!(median_round(&[1, 2]), 2);
    assert_eq!(median_round(&[4, 1, 2, 9]), 3);
    assert_eq!(mean_round(5, 2), 3);
    assert_eq!(mean_round(7, 3), 2);
    assert_eq!(mean_round(7, 0), 0);
    for total in 0..300u32 {
        for cases in 1..20u32 {
            assert_eq!(mean_round(total, cases), (total as f64 / cases as f64).round() as u32);
        }
    }
}

fn result(loc: u32, unsafe_lines: u32, error: Option<&str>) -> CaseResult {
    CaseResult {
        error: error.map(|e| e.to_string()),
        loc: Some(loc),
        unsafe_lines: Some(unsafe_lines),
    }
}

fn case(name: &str, verified: Option<CaseResult>, translated: Option<CaseResult>) -> CaseRecord {
    CaseRecord {
        name: name.into(),
        verified_scored: verified.is_some(),
        verified,
        translated,
        follower: false,
    }
}

fn corpus() -> Vec<CorpusBattery> {
    let c = |source: &str, text: &str| CorpusCase {
        source: source.into(),
        files: vec![CFile { path: "lib.c".into(), text: Some(text.into()) }],
    };
    vec![CorpusBattery {
        name: "B01_synthetic".into(),
        cases: vec![c("/s/a", "int a;\nint b;\n"), c("/s/a", "int a;\nint b;\n"), c("/s/b", "int c;\n")],
    }]
}

fn agents() -> Vec<AgentRecord> {
    let summary = Summary { cases_passed: 1, cases_tested: 2, vectors_passed: 30, vectors_failed: 10 };
    let cases = vec![
        case("x", Some(result(10, 2, None)), Some(result(11, 4, None))),
        case("y", None, Some(result(5, 1, Some("build failed")))),
    ];
    let battery = |translated| BatteryRecord {
        name: "B01_synthetic".into(),
        summary: Some(summary),
        has_translated_summary: translated,
        translated_summary: if translated { Some(summary) } else { None },
        cases: cases.clone(),
        corpus_present: true,
    };
    vec![
        AgentRecord { name: "kiro".into(), batteries: vec![battery(true)] },
        AgentRecord { name: "c2rust".into(), batteries: vec![battery(false)] },
    ]
}

#[test]
fn the_rows_of_a_table_add_up_the_cases() {
    let rows = records::collect_rows(&agents(), &corpus());
    let names: Vec<&str> = rows.iter().map(|r| r.agent.as_str()).collect();
    assert_eq!(names, ["kiro", "kiro-translate", "c2rust"]);
    let kiro = &rows[0];
    assert_eq!((kiro.cases_passed, kiro.cases_tested), (1, 2));
    assert_eq!((kiro.vectors_passed, kiro.vectors_total), (30, 40));
    assert_eq!(kiro.cases_built, 1);
    assert_eq!((kiro.total_loc, kiro.unsafe_lines), (15, 3));
    assert_eq!(kiro.c_loc, 3, "a shared source counts once");
    assert_eq!((rows[1].total_loc, rows[1].unsafe_lines), (16, 5));
}

#[test]
fn a_case_is_costed_once_and_not_by_its_phases() {
    let below = |dir: &str, translated| Below { dir: dir.into(), translated };
    let dirs = vec![
        below("/r/B01", false),
        below("/r/B01/x", true),
        below("/r/B01/x/translated", true),
        below("/r/B01/y", true),
        below("/r/B01/xy", true),
    ];
    assert_eq!(records::cost_cases(&dirs), ["/r/B01/x", "/r/B01/y", "/r/B01/xy"]);
    let one = json::parse(r#"{"translate":{"wall_secs":3},"verify":{"wall_secs":40,"credits":1.5}}"#);
    let two = json::parse(r#"{"translate":{"wall_secs":-1}}"#);
    assert_eq!(records::wall_seconds(&[one.unwrap(), two.unwrap()]), 43);
}

fn input() -> ReportInput {
    let rows = records::collect_rows(&agents(), &corpus()).len();
    ReportInput {
        agents: agents(),
        corpus: Some(corpus()),
        constants: Some(
            "[prompt_sensitivity]\nlib_prompt_on_execs = \"0.81\"\n\n[some_group]\nfirst_value = 7\n".into(),
        ),
        macros_used: None,
        cost: None,
        p01_cost: None,
        shares: vec!["20.0%".to_string(); rows],
        cell_shares: vec![vec![0; tractor::SYSTEMS]; tractor::BLOCKS],
    }
}

#[test]
fn the_tables_are_made_and_the_data_held_to_its_invariants() {
    let (tables, held) = report::generate(&input());
    match held {
        Err(Invariant::TractorTotal { got }) => assert_eq!(got, 2),
        other => panic!("two cases are not all: {other:?}"),
    }
    let md = tables.results.unwrap();
    assert!(md.contains("B01_synthetic") && md.contains("kiro"), "{md}");
    assert!(tables.tractor.contains("ACTOR (Kiro)"));
    assert!(tables.tractor.contains(&format!("ACTOR ({})", program::title_text())));
    assert!(tables.numbers.contains("\\newcommand{\\TractorTotalLoc}{3}"), "{}", tables.numbers);
    assert!(tables.datasets.contains("B01"));
    assert!(tables.prompt_sensitivity.contains("0.81"));
    assert!(tables.manual.contains("FirstValue"), "{}", tables.manual);
    let without = ReportInput { corpus: None, ..input() };
    assert!(report::generate(&without).0.results.is_none());
}

#[test]
fn a_broken_invariant_is_put_in_words() {
    let said = Invariant::TractorTotal { got: 7 }.message();
    assert!(said.starts_with("TRACTOR invariant failed: max agent case total is 7"), "{said}");
    let said = Invariant::AgentDir { agent: "kiro".into() }.message();
    assert!(said.contains("kiro"), "{said}");
}

#[test]
fn a_macro_in_use_must_be_defined() {
    let emitted = report::write_newcommand("KnownOne", "3");
    assert_eq!(emitted, "\\newcommand{\\KnownOne}{3}\n");
    assert_eq!(report::undefined_macros("KnownOne\nOtherOne\n", &emitted), ["OtherOne"]);
    assert_eq!(report::camel("first_value"), "FirstValue");
    assert_eq!(report::ratio_of(3, 7), "3/7");
}

#[test]
fn a_cell_of_a_system_without_results_is_absent() {
    let rows: Vec<BatteryRow> = records::collect_rows(&agents(), &corpus());
    let there = tractor::cell_of(&rows, 0, 0);
    assert!(there.present);
    assert_eq!(there.tests_pass, 1);
    assert!(!tractor::cell_of(&rows, 2, 0).present);
}

fn flags(replay_only: bool, command: Command) -> Cli {
    Cli {
        tool: vec![Tool::Codex],
        variant: Variant::Default,
        parallel: 1,
        model: None,
        replay_only,
        allow_dirty: false,
        allow_unsandboxed: false,
        keep_eval_tree: false,
        allow_infra_failures: false,
        command,
    }
}

#[test]
fn replay_only_is_the_only_flag_that_stops_the_store_paying() {
    let run = || Command::Run { target: "B01".into(), steps: None, include_regex: None };
    assert_eq!(flags(false, run()).cache_mode(), Mode::ReadWrite);
    assert_eq!(flags(true, run()).cache_mode(), Mode::ReplayOnly);
    assert!(run().produces_artifacts());
    assert!(Command::Enrich { target: "B01".into() }.produces_artifacts());
    assert!(!Command::Cache { action: CacheAction::Stats }.produces_artifacts());
}

#[test]
fn a_target_names_its_dataset() {
    assert_eq!(Dataset::detect("B01_organic"), Dataset::TestCorpus);
    assert_eq!(Dataset::detect("hB"), Dataset::HarvestBench);
    assert_eq!(Dataset::detect("HB/lz4"), Dataset::HarvestBench);
    assert_eq!(Dataset::detect("hb/lz4"), Dataset::TestCorpus);
    assert_eq!(Dataset::strip_prefix("HB/lz4"), "lz4");
    assert_eq!(Dataset::strip_prefix("HB"), "HB");
}

#[test]
fn no_two_tools_share_a_directory() {
    let tools = [
        Tool::Claude,
        Tool::Codex,
        Tool::Kiro,
        Tool::OpenCode,
        Tool::Oneshot,
        Tool::Kimi,
        Tool::C2rust,
        Tool::Laertes,
        Tool::C2SaferRust,
        Tool::SmartC2Rust,
    ];
    for (i, a) in tools.iter().enumerate() {
        for b in &tools[i + 1..] {
            assert_ne!(cli::tool_dir(*a), cli::tool_dir(*b));
        }
    }
    assert_eq!(format!("{}_plain", cli::tool_dir(Tool::Claude)), "claude_plain");
    assert!(cli::is_agentic(Tool::Kiro) && !cli::is_agentic(Tool::Kimi));
    assert_eq!(Variant::NoIter.dir(), "no-iter");
}

#[test]
fn a_follower_is_built_but_adds_no_lines() {
    let mut cases = vec![
        case("leader", Some(result(100, 7, None)), Some(result(90, 9, None))),
        case("follower", Some(result(100, 7, None)), None),
        case("broken", None, Some(result(40, 4, Some("build failed")))),
    ];
    cases[1].follower = true;
    let mut b = BatteryRecord {
        name: "P01".into(),
        summary: None,
        has_translated_summary: false,
        translated_summary: None,
        cases,
        corpus_present: true,
    };
    let t = records::aggregate_cases(&b);
    assert_eq!((t.total_loc, t.unsafe_lines, t.cases_built), (140, 11, 2));
    let t = records::aggregate_cases_phase(&b, true);
    assert_eq!((t.total_loc, t.unsafe_lines, t.cases_built), (130, 13, 1));
    b.corpus_present = false;
    let t = records::aggregate_cases(&b);
    assert_eq!((t.total_loc, t.unsafe_lines, t.cases_built), (240, 18, 2));
}
