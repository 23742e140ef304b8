//! What an agent may read and write, and when it may not be started.

use harvest_tools::io::sandbox::denied_read_roots;
use harvest_tools::io::sandbox::is_enforceable;
use harvest_tools::io::sandbox::may_start;
use harvest_tools::io::sandbox::require_enforceable;
use harvest_tools::io::sandbox::roots_to_deny;
use harvest_tools::io::sandbox::settings_json;
use harvest_tools::io::sandbox::write_settings;
use harvest_tools::io::sandbox::Enforcement;
use harvest_tools::io::sandbox::Policy;
use harvest_tools::io::sandbox::Sandboxed;
use harvest_tools::json;
use harvest_tools::program;
use serde_json::Value;

fn owned(names: &[&str]) -> Vec<String> {
    names.iter().map(|s| s.to_string()).collect()
}

fn policy(repo: &str, work: &str) -> Value {
    let p = Policy { repo_root: repo, work_root: work, enforcement: Enforcement::Required };
    serde_json::from_str(&json::compact(&settings_json(&p, "/scratch/base", &[]))).unwrap()
}

#[test]
fn deny_list_covers_the_repo_root_not_a_results_subdirectory() {
    let p = policy("/repo", "/scratch/base/harvest-work-x");
    let deny = p["sandbox"]["filesystem"]["denyRead"].as_array().unwrap();
    assert!(deny.iter().any(|d| d == "/repo"), "repo root must be denied: {deny:?}");
    assert!(
        !deny.iter().any(|d| d.as_str().unwrap().contains("results")),
        "deny root must not be a results subdirectory: {deny:?}"
    );
}

#[test]
fn deny_list_covers_the_shared_scratch_base_so_siblings_are_not_readable() {
    let p = policy("/repo", "/scratch/base/harvest-work-x");
    let deny = p["sandbox"]["filesystem"]["denyRead"].as_array().unwrap();
    assert!(deny.iter().any(|d| d == "/scratch/base"), "scratch base must be denied: {deny:?}");
}

#[test]
fn own_work_root_is_regranted_for_read_and_write() {
    let p = policy("/repo", "/scratch/base/harvest-work-x");
    let fs = &p["sandbox"]["filesystem"];
    assert_eq!(fs["allowRead"][0], "/scratch/base/harvest-work-x");
    assert_eq!(fs["allowWrite"][0], "/scratch/base/harvest-work-x");
}

#[test]
fn policy_is_identical_regardless_of_dataset_depth() {
    let tc = policy("/repo", "/scratch/base/w1");
    let hb = policy("/repo", "/scratch/base/w2");
    assert_eq!(
        tc["sandbox"]["filesystem"]["denyRead"],
        hb["sandbox"]["filesystem"]["denyRead"],
        "deny list must not depend on how deep the case dir happens to be"
    );
}

#[test]
fn sandbox_stanza_shape_is_what_claude_code_expects() {
    let p = policy("/repo", "/w");
    assert_eq!(p["sandbox"]["enabled"], true);
    assert_eq!(p["sandbox"]["allowUnsandboxedCommands"], false);
    for k in ["denyRead", "allowRead", "allowWrite"] {
        assert!(p["sandbox"]["filesystem"][k].is_array(), "{k} must be an array");
    }
}

#[test]
fn write_settings_creates_the_file_where_settings_flag_looks_for_it() {
    let p = Policy {
        repo_root: "/repo",
        work_root: "/scratch/base/root",
        enforcement: Enforcement::AllowUnsandboxed,
    };
    let (file, text, warning) =
        write_settings(&p, &[], "/scratch/base", &[]).expect("writes policy");
    assert_eq!(file, program::named("/scratch/base/root/.", "/settings.json"));
    assert!(warning.is_some(), "an agent that is not confined is announced");
    let v: Value = serde_json::from_str(&text).unwrap();
    assert_eq!(v["sandbox"]["enabled"], true);
    let deny = v["sandbox"]["filesystem"]["denyRead"].as_array().unwrap();
    assert!(deny.iter().any(|d| d == "/repo"));
    assert_eq!(deny.len(), 3, "repo root + repo parent + scratch base");
    assert!(deny.iter().any(|d| d == "/"), "the parent of /repo is /");
}

#[test]
fn a_policy_that_cannot_be_enforced_is_refused() {
    for found in [owned(&[]), owned(&["bwrap"]), owned(&["socat", "bwrap"])] {
        let refused = write_settings(
            &Policy {
                repo_root: "/repo",
                work_root: "/w",
                enforcement: Enforcement::Required,
            },
            &found,
            "/scratch/base",
            &[],
        );
        assert_eq!(refused.is_ok(), is_enforceable(&found), "{found:?}");
        if let Err(msg) = refused {
            assert!(msg.contains("cannot be enforced"), "{msg}");
            assert!(msg.contains("--allow-unsandboxed"), "must name the escape hatch: {msg}");
        }
        let anyway = Policy {
            repo_root: "/repo",
            work_root: "/w",
            enforcement: Enforcement::AllowUnsandboxed,
        };
        assert!(write_settings(&anyway, &found, "/scratch/base", &[]).is_ok());
    }
}

#[test]
fn the_refusal_names_what_is_missing() {
    let said = require_enforceable(&owned(&["socat"])).unwrap_err();
    assert!(said.starts_with("the agent sandbox cannot be enforced: bwrap not on PATH."), "{said}");
    assert!(said.contains(&format!("{} would print", program::title_text())), "{said}");
    let said = require_enforceable(&[]).unwrap_err();
    assert!(said.contains("bwrap and socat"), "{said}");
    assert!(require_enforceable(&owned(&["bwrap", "socat"])).is_ok());
}

#[test]
fn the_deny_list_covers_the_repos_parent() {
    let roots = denied_read_roots("/local/home/x/research/ACTOR", "/scratch/base", &[]);
    assert!(
        roots.iter().any(|s| s.ends_with("/research")),
        "the repo's parent must be denied: {roots:?}"
    );
}

#[test]
fn what_is_not_recorded_was_not_enforced() {
    assert_eq!(Sandboxed::default(), Sandboxed::NotSupportedByBackend);
    assert_eq!(Enforcement::from_allow_unsandboxed_flag(false), Enforcement::Required);
    assert_eq!(Enforcement::from_allow_unsandboxed_flag(true), Enforcement::AllowUnsandboxed);
    let both = owned(&["bwrap", "socat"]);
    assert_eq!(may_start(Enforcement::AllowUnsandboxed, &both), Ok(None));
}

#[test]
fn a_denied_directory_is_named_as_the_filesystem_resolves_it() {
    assert_eq!(roots_to_deny("/home/x/repo", "/scratch"), ["/home/x/repo", "/scratch", "/home/x"]);
    let resolved = [Some("/local/home/x/repo".to_string()), None];
    assert_eq!(
        denied_read_roots("/home/x/repo", "/scratch", &resolved),
        ["/local/home/x/repo", "/scratch", "/home/x"]
    );
}
