//! What a file of an artifact contributes to, by its path.

use harvest_tools::domain::contents::classify;
use harvest_tools::domain::contents::Carry;
use harvest_tools::domain::contents::Disposition;
use harvest_tools::domain::relpath::RelPath;
use harvest_tools::program;

fn rel(s: &str) -> RelPath {
    RelPath::new(s).unwrap()
}

#[test]
fn classify_ignores_harness_output_and_logs() {
    assert_eq!(classify(&rel("result.json"), false), Disposition::Ignore);
    assert_eq!(
        classify(&rel("verification.json"), false),
        Disposition::Ignore
    );
    assert_eq!(
        classify(&rel("logs/verify.log"), false),
        Disposition::Ignore
    );
    assert_eq!(classify(&rel("src/x.rs.bak"), false), Disposition::Ignore);
}

#[test]
fn an_agents_build_directory_is_build_output_whatever_suffix_it_uses() {
    for at in [
        "target/debug/deps/x.o",
        "target-cfg/debug/deps/symbols-ee8e5db53eac8eab",
        "target-release/x",
        "cbuild/x.o",
        "cbuild-ninja/x.o",
        "translation/target-cfg/debug/build/x",
    ] {
        assert_eq!(
            classify(&rel(at), false),
            Disposition::BuildOutput,
            "{at} is build output and must be neither carried nor hashed"
        );
    }
    for at in ["src/targets.rs", "src/lib.rs", "include/target.h"] {
        assert_eq!(
            classify(&rel(at), false),
            Disposition::StoreAndHash,
            "{at} is the agent's work"
        );
    }
}

#[test]
fn harness_bookkeeping_inside_the_published_crate_is_not_hashed() {
    for at in [
        "result.json",
        "translation/result.json",
        "translation/harvest_bench_report.json",
        "translation/logs/verify.log",
    ] {
        assert_eq!(
            classify(&rel(at), false),
            Disposition::Ignore,
            "{at} is the harness's own output and must stay outside the digest"
        );
    }
    for at in [
        "translation/src/lib.rs",
        "translation/Cargo.toml",
        "translation/src/result.json",
        "translation/src/logs/mod.rs",
    ] {
        assert_eq!(
            classify(&rel(at), false),
            Disposition::StoreAndHash,
            "{at} is the agent's work and must be inside the digest"
        );
    }
}

#[test]
fn harness_bookkeeping_is_ignored_only_at_the_artifact_root() {
    for name in [
        "result.json",
        "verification.json",
        "translation.json",
        "harvest_bench_report.json",
        "harvest_batch_report.json",
    ] {
        assert_eq!(
            classify(&rel(name), false),
            Disposition::Ignore,
            "{name} at the root"
        );
        let nested = format!("src/data/{name}");
        assert_eq!(
            classify(&rel(&nested), false),
            Disposition::StoreAndHash,
            "{nested} belongs to the translation, not the harness"
        );
    }
    assert_eq!(
        classify(&rel("src/logs/mod.rs"), false),
        Disposition::StoreAndHash,
        "a source module named logs/ is source"
    );
}

#[test]
fn nothing_under_the_c_oracle_is_ignored() {
    for p in [
        "c_src/doc/footer.html.bak",
        "c_src/tests/expected.log",
        "c_src/lib.c.sha256",
        "c_src/logs/note.txt",
        "c_src/result.json",
    ] {
        assert_eq!(classify(&rel(p), false), Disposition::StoreAndHash, "{p}");
    }
    assert_eq!(
        classify(&rel("c_src/build/CMakeCache.txt"), false),
        Disposition::BuildOutput
    );
}

#[test]
fn classify_treats_named_build_dirs_as_build_output() {
    for p in [
        "target/debug/x",
        "cbuild/a",
        "gtest_build/b",
        "artifacts/cbuild_sub_7/c",
    ] {
        assert_eq!(classify(&rel(p), false), Disposition::BuildOutput, "{p}");
    }
}

#[test]
fn classify_catches_nested_build_dirs_a_toplevel_check_would_miss() {
    assert_eq!(
        classify(&rel("c_src/build/CMakeCache.txt"), false),
        Disposition::BuildOutput
    );
    assert_eq!(
        classify(&rel("weird_name/CMakeCache.txt"), true),
        Disposition::BuildOutput
    );
}

#[test]
fn classify_keeps_source_and_dotfiles() {
    assert_eq!(
        classify(&rel("src/lib.rs"), false),
        Disposition::StoreAndHash
    );
    assert_eq!(
        classify(&rel("Cargo.lock"), false),
        Disposition::StoreAndHash
    );
    assert_eq!(
        classify(&rel(".cargo/config.toml"), false),
        Disposition::StoreAndHash
    );
    assert_eq!(
        classify(&rel("c_src/src/lib.c"), false),
        Disposition::StoreAndHash
    );
}

#[test]
fn the_settings_of_an_agent_are_ignored_at_an_artifact_root_only() {
    let dir = program::settings_dir_name();
    assert_eq!(format!("{dir}_plain"), ".claude_plain");
    for at in [format!("{dir}/settings.json"), format!("translation/{dir}/settings.json")] {
        assert_eq!(classify(&rel(&at), false), Disposition::Ignore, "{at}");
    }
    let deeper = format!("src/{dir}/settings.json");
    assert_eq!(classify(&rel(&deeper), false), Disposition::StoreAndHash);
}

#[test]
fn what_is_ignored_is_left_behind_by_the_phase_before_alone() {
    for carry in [Carry::IntoWorkTree, Carry::FromPreviousPhase, Carry::FromArtifact] {
        assert!(carry.admits(Disposition::StoreAndHash));
        assert!(!carry.admits(Disposition::BuildOutput));
        assert_eq!(carry.admits(Disposition::Ignore), carry != Carry::FromPreviousPhase);
    }
}

#[test]
fn relpath_rejects_escapes() {
    assert!(RelPath::new("a/b").is_ok());
    assert!(RelPath::new("/abs").is_err(), "absolute must be refused");
    assert!(RelPath::new("../up").is_err(), "parent traversal must be refused");
    assert!(RelPath::new("").is_err());
}

#[test]
fn a_path_keeps_its_bytes() {
    assert_eq!(RelPath::new("a/b.c").unwrap().as_path(), "a/b.c".as_bytes());
    assert_eq!(RelPath::from_bytes(&[97, 255]).unwrap().as_path(), [97, 255]);
    assert!(RelPath::from_bytes("a/../b".as_bytes()).is_none());
    assert!(RelPath::new("a/..b").is_ok());
}
