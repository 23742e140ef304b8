//! Which public functions a fuzzing campaign executed.

use harvest_tools::fuzz_gate::covered_functions;
use harvest_tools::fuzz_gate::coverage_of_export;
use harvest_tools::fuzz_gate::covered_in_export;
use harvest_tools::fuzz_gate::evaluate;
use harvest_tools::fuzz_gate::find_covmapped_sos;
use harvest_tools::fuzz_gate::find_profraws;
use harvest_tools::fuzz_gate::is_library_name;
use harvest_tools::fuzz_gate::measure_existing;
use harvest_tools::fuzz_gate::public_function_symbols;
use harvest_tools::fuzz_gate::render_report;
use harvest_tools::json;
use harvest_tools::names::Names;

fn set(names: &[&str]) -> Names {
    let owned: Vec<String> = names.iter().map(|s| s.to_string()).collect();
    Names::new(&owned)
}

#[test]
fn evaluate_flags_left_behind() {
    let r = evaluate(set(&["a", "b", "c"]), set(&["a", "b"]), true);
    assert!(!r.passed());
    assert_eq!(r.left_behind.as_slice(), ["c"]);
}

#[test]
fn evaluate_passes_when_all_covered() {
    let r = evaluate(set(&["a", "b"]), set(&["a", "b", "helper_priv"]), true);
    assert!(r.passed());
    assert_eq!(r.left_behind.len(), 0);
    assert!(!r.covered.contains("helper_priv"), "private funcs excluded from covered-public");
}

#[test]
fn evaluate_inconclusive_when_unmeasured() {
    let r = evaluate(set(&["a"]), Names::none(), false);
    assert!(!r.passed(), "unmeasured coverage never passes");
}

#[test]
fn find_profraws_skips_empty_pool_slots() {
    let files = vec![
        ("/ve/cov/empty.profraw".to_string(), 0),
        ("/ve/cov/real.profraw".to_string(), 9),
        ("/ve/cov/notprof.txt".to_string(), 9),
    ];
    let found = find_profraws(&files);
    assert_eq!(found.len(), 1, "only the non-empty .profraw is kept");
    assert!(found[0].ends_with("real.profraw"));
}

#[test]
fn the_functions_of_a_library_are_the_public_ones_of_its_text_section() {
    let listing = "0000000000001139 T zeta\n\
                   0000000000001140 T alpha\n\
                   0000000000004010 D some_data\n\
                   0000000000001141 t local\n\
                                    U printf\n";
    let names = public_function_symbols(listing);
    assert_eq!(names.as_slice(), ["alpha", "zeta"]);
}

#[test]
fn a_function_is_covered_where_it_was_counted() {
    let report = r#"{"data":[{"functions":[
        {"name":"alpha","count":3},
        {"name":"beta","count":0},
        {"name":"/src/x.c:gamma","count":1}
    ]}]}"#;
    let covered = covered_functions(&json::parse(report).unwrap());
    assert!(covered.contains("alpha"));
    assert!(!covered.contains("beta"));
    assert!(!covered_functions(&json::parse("{}").unwrap()).contains("alpha"));
    assert!(covered_in_export(report).unwrap().contains("alpha"));
    assert!(!covered_in_export("{}").unwrap().contains("alpha"));
    assert!(covered_in_export("no report").is_none(), "what cannot be read is not measured");
    assert!(coverage_of_export(true, report.as_bytes()).unwrap().contains("alpha"));
    assert!(coverage_of_export(false, report.as_bytes()).is_none(), "a failed export says nothing");
    assert!(coverage_of_export(true, b"{\xff}").is_none());
    assert!(coverage_of_export(true, b"no report").is_none());
}

#[test]
fn without_an_instrumented_library_nothing_is_measured() {
    let r = measure_existing(0, Names::none(), 1, vec![]).unwrap();
    assert!(!r.measured && !r.passed());
    let r = measure_existing(0, set(&["a"]), 1, vec![Some(set(&["a"]))]).unwrap();
    assert!(!r.measured && !r.passed());
    assert!(r.left_behind.as_slice().is_empty());
    let r = measure_existing(1, set(&["a", "b"]), 2, vec![Some(set(&["a"])), None]).unwrap();
    assert!(r.measured);
    assert_eq!(r.left_behind.as_slice(), ["b"]);
    let none = measure_existing(1, set(&["a"]), 0, vec![]).unwrap();
    assert!(!none.measured);
}

#[test]
fn a_library_is_instrumented_where_its_sections_say_so() {
    assert!(is_library_name("/x/libfoo.so"));
    assert!(!is_library_name("/x/foo.so"));
    assert!(!is_library_name("/x/libfoo.a"));
    let files = vec![
        ("/x/liba.so".to_string(), "  [12] __llvm_covmap  PROGBITS".to_string()),
        ("/x/libb.so".to_string(), "  [12] .text  PROGBITS".to_string()),
    ];
    assert_eq!(find_covmapped_sos(&files), ["/x/liba.so"]);
}

#[test]
fn the_report_names_what_was_left_behind() {
    let failed = render_report(&evaluate(set(&["a", "b"]), set(&["a"]), true), "libx");
    assert!(failed.contains("1/2 public functions fuzzed; 1 left behind."), "{failed}");
    assert!(failed.ends_with("- b\n"), "{failed}");
    let unknown = render_report(&evaluate(set(&["a"]), Names::none(), false), "libx");
    assert!(unknown.contains("**INCONCLUSIVE**"), "{unknown}");
}
