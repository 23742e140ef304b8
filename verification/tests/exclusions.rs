//! Which projects count.

use harvest_tools::exclusions;
use harvest_tools::exclusions::excluded_count;
use harvest_tools::exclusions::CRUST_REPORTED;
use harvest_tools::exclusions::CRUST_TOTAL;

#[test]
fn thirteen_exclusions_yield_eighty_seven() {
    assert_eq!(excluded_count(), 13, "expected 13 excluded projects");
    assert_eq!(
        CRUST_TOTAL - excluded_count(),
        CRUST_REPORTED,
        "100 - 13 must equal the reported 87"
    );
}

#[test]
fn no_overlap_between_categories() {
    let uncounted = exclusions::excluded_from_count();
    for p in exclusions::not_run() {
        assert!(!uncounted.contains(&p), "{p} in both lists");
    }
}

#[test]
fn a_project_is_excluded_where_either_list_names_it() {
    assert!(exclusions::is_not_run("Holdem_Odds"));
    assert!(exclusions::is_excluded("Holdem_Odds"));
    assert!(!exclusions::is_not_run("libpgn"));
    assert!(exclusions::is_excluded("libpgn"));
    assert!(exclusions::is_excluded("holdem_odds"), "whatever the case of its letters");
    assert!(!exclusions::is_excluded("holdem"));
}
