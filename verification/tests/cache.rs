//! The store of finished runs: what keys an entry, and when one is served.

use harvest_tools::artifact::digest_tree;
use harvest_tools::artifact::scrub;
use harvest_tools::artifact::seal;
use harvest_tools::artifact::Access;
use harvest_tools::artifact::CDir;
use harvest_tools::artifact::Entry;
use harvest_tools::artifact::Node;
use harvest_tools::artifact::Sealed;
use harvest_tools::artifact::Sealing;
use harvest_tools::artifact::TreeDigest;
use harvest_tools::artifact::Verify;
use harvest_tools::cache::load;
use harvest_tools::cache::normalise;
use harvest_tools::cache::prompt_digest;
use harvest_tools::cache::stats;
use harvest_tools::cache::Consulted;
use harvest_tools::cache::Found;
use harvest_tools::cache::KeyInputs;
use harvest_tools::cache::Mode;
use harvest_tools::cache::ModelId;
use harvest_tools::cache::Produced;
use harvest_tools::cache::PromptDigest;
use harvest_tools::cache::Recipe;
use harvest_tools::cache::RecipeDigest;
use harvest_tools::cache::Settled;
use harvest_tools::cache::Store;
use harvest_tools::cache::ToolchainId;
use harvest_tools::cache::Unusable;
use harvest_tools::cache::SCHEMA;
use harvest_tools::domain::health::classify;
use harvest_tools::domain::health::Exit;
use harvest_tools::domain::health::LogFormat;
use harvest_tools::json;
use harvest_tools::json::Json;
use harvest_tools::program;

// A tree of files, by their paths.
fn tree(files: &[(&str, &str)]) -> Vec<Entry> {
    let mut out: Vec<Entry> = Vec::new();
    let mut seen: Vec<String> = Vec::new();
    for (path, body) in files {
        match path.split_once('/') {
            None => out.push(Entry {
                name: path.as_bytes().to_vec(),
                link: false,
                node: Node::File(body.as_bytes().to_vec()),
            }),
            Some((dir, _)) => {
                if seen.iter().any(|d| d == dir) {
                    continue;
                }
                seen.push(dir.to_string());
                let below: Vec<(&str, &str)> = files
                    .iter()
                    .filter_map(|(p, b)| match p.split_once('/') {
                        Some((d, rest)) if d == dir => Some((rest, *b)),
                        _ => None,
                    })
                    .collect();
                out.push(Entry {
                    name: dir.as_bytes().to_vec(),
                    link: false,
                    node: Node::Dir(tree(&below)),
                });
            }
        }
    }
    out
}

fn a_crate(lib: &str) -> Vec<Entry> {
    tree(&[
        ("Cargo.toml", "[package]\nname=\"x\""),
        ("src/lib.rs", lib),
        ("c_src/src/lib.c", "int a(void){return 0;}"),
        ("target/debug/junk", "build output"),
    ])
}

fn reference() -> CDir {
    CDir { link: false, entries: Some(tree(&[("src/lib.c", "int a(void){return 0;}")])) }
}

fn seal_verify(edit: &str) -> Sealed<Verify> {
    let finished = classify("done\n", LogFormat::Opaque, Exit::Success).completed().unwrap();
    let before = reference().snapshot().unwrap();
    match seal(&finished, &before, &scrub(&a_crate(edit), "/scratch/w", "/scratch")).unwrap() {
        Sealing::Done(s) => s,
        Sealing::Drop(left) => panic!("nothing was built under the reference: {left:?}"),
    }
}

fn provenance() -> Json {
    let mut m = Vec::new();
    json::set(&mut m, "duration_secs", json::natural(42));
    Json::Object(m)
}

fn produced(edit: &str) -> Option<Produced<Verify>> {
    Some(Produced { sealed: seal_verify(edit), provenance: provenance() })
}

fn toolchain(release: &str) -> ToolchainId {
    let report = format!("rustc {release}\nhost: x86_64-unknown-linux-gnu\nrelease: {release}\n");
    ToolchainId::detect(false, Some(&report)).unwrap()
}

fn recipe(data_kb: u64, env: &[(&str, &str)]) -> RecipeDigest {
    Recipe {
        max_turns: 1000,
        permission_mode: "bypassPermissions".into(),
        timeout_secs: 10_800,
        ulimit_fsize_blocks: 4 * 1024 * 1024,
        ulimit_data_kb: data_kb,
        agents_json: "{}".into(),
        sandbox_shape: "deny=$REPO,$WORKBASE allow=$WORK".into(),
        agent_env: env.iter().map(|(k, v)| (k.to_string(), v.to_string())).collect(),
    }
    .digest()
}

fn recipe_with_env(env: &[(&str, &str)]) -> RecipeDigest {
    recipe(6 * 1024 * 1024, env)
}

fn fixtures() -> (ModelId, ToolchainId, RecipeDigest) {
    (
        ModelId::new(&program::named("", "-opus-5[1m]")).unwrap(),
        toolchain("1.94.0"),
        recipe_with_env(&[("CLAUDE_CODE_MAX_RETRIES", "20")]),
    )
}

fn prompt(text: &str) -> PromptDigest {
    prompt_digest(text, "/w", "/r", None, None)
}

fn input(text: &str) -> TreeDigest {
    digest_tree(&tree(&[("lib.c", text)]))
}

fn inputs<'a>(
    m: &'a ModelId,
    t: &'a ToolchainId,
    p: &'a PromptDigest,
    r: &'a RecipeDigest,
    i: &'a TreeDigest,
) -> KeyInputs<'a> {
    KeyInputs {
        phase: "verified",
        agent: "codex",
        model: m,
        toolchain: t,
        prompt: p,
        recipe: r,
        input_tree: i,
    }
}

fn nothing() -> Found {
    Found { meta: None, code: None, run: None }
}

// What a settled run leaves in the store.
fn kept(settled: &Settled<Verify>, lib: &str) -> Found {
    match settled {
        Settled::Done { entry: Some(e), .. } => {
            Found { meta: Some(e.meta.clone()), code: Some(a_crate(lib)), run: Some(e.run.clone()) }
        }
        _ => panic!("nothing was stored"),
    }
}

#[test]
fn model_id_refuses_shell_metacharacters() {
    assert!(ModelId::new(&program::named("", "-opus-5[1m]")).is_ok());
    assert!(ModelId::new("").is_err());
    assert!(ModelId::new("x$(whoami)").is_err());
    assert!(ModelId::new("x'y").is_err());
    assert_eq!(ModelId::new("  ").unwrap_err(), "model id must not be empty");
    assert_eq!(
        ModelId::new("x'y").unwrap_err(),
        "model id contains shell metacharacters: x'y"
    );
}

#[test]
fn normalise_removes_every_machine_specific_path() {
    let work = "/home/alice/.harvest/work/harvest-work-AbCdEf";
    let repo = "/home/alice/src/ACTOR";
    let text = format!("cd {work} && ls {repo}/prompts");
    let n = normalise(&text, work, repo, None, None);
    assert!(!n.contains("alice"), "no username may survive: {n}");
    assert!(!n.contains("harvest-work-AbCdEf"), "no scratch name may survive: {n}");
    assert!(n.contains("$WORK") && n.contains("$REPO"), "{n}");
}

#[test]
fn the_longest_path_is_put_as_its_token_first() {
    let n = normalise("/h/u/repo and /h/u", "/w", "/h/u/repo", Some("/b"), Some("/h/u"));
    assert!(!n.contains("/h"), "{n}");
    assert!(n.starts_with("$REPO and "), "{n}");
}

#[test]
fn prompt_digest_is_machine_independent() {
    let a = prompt_digest(
        "work in /home/alice/.harvest/work/w-1 on /home/alice/src/ACTOR",
        "/home/alice/.harvest/work/w-1",
        "/home/alice/src/ACTOR",
        None,
        None,
    );
    let b = prompt_digest(
        "work in /local/home/bob/.harvest/work/w-2 on /local/home/bob/repo/ACTOR",
        "/local/home/bob/.harvest/work/w-2",
        "/local/home/bob/repo/ACTOR",
        None,
        None,
    );
    assert_eq!(a.as_str(), b.as_str(), "prompt digest must not depend on where anything lives");
    assert!(a.as_str().starts_with("sha256:") && a.as_str().len() == 71);
}

#[test]
fn prompt_digest_changes_when_the_prompt_changes() {
    assert_ne!(
        prompt_digest("verify X", "/w", "/r", None, None).as_str(),
        prompt_digest("verify Y", "/w", "/r", None, None).as_str()
    );
}

#[test]
fn key_changes_with_every_component() {
    let (m, t, r) = fixtures();
    let p = prompt("p");
    let i = input("i");
    let base = inputs(&m, &t, &p, &r, &i).key();

    let m2 = ModelId::new(&program::named("", "-sonnet-5")).unwrap();
    assert_ne!(base.as_str(), inputs(&m2, &t, &p, &r, &i).key().as_str(), "model must matter");

    let t2 = toolchain("1.97.1");
    assert_eq!(t2.as_str(), "1.97.1 x86_64-unknown-linux-gnu");
    assert_ne!(base.as_str(), inputs(&m, &t2, &p, &r, &i).key().as_str(), "toolchain must matter");

    let p2 = prompt("p2");
    assert_ne!(base.as_str(), inputs(&m, &t, &p2, &r, &i).key().as_str(), "prompt must matter");

    let i2 = input("i2");
    assert_ne!(base.as_str(), inputs(&m, &t, &p, &r, &i2).key().as_str(), "input tree must matter");

    let mut ki = inputs(&m, &t, &p, &r, &i);
    ki.phase = "translate";
    assert_ne!(base.as_str(), ki.key().as_str(), "phase must matter");

    let mut ki = inputs(&m, &t, &p, &r, &i);
    ki.agent = "kiro";
    assert_ne!(base.as_str(), ki.key().as_str(), "agent must matter");
}

#[test]
fn key_is_stable_for_identical_inputs() {
    let (m, t, r) = fixtures();
    let p = prompt("p");
    let i = input("i");
    assert_eq!(
        inputs(&m, &t, &p, &r, &i).key().as_str(),
        inputs(&m, &t, &p, &r, &i).key().as_str()
    );
}

#[test]
fn recipe_digest_changes_with_the_resource_caps() {
    let (_, _, base) = fixtures();
    let changed = recipe(2 * 1024 * 1024, &[("CLAUDE_CODE_MAX_RETRIES", "20")]);
    assert_ne!(
        base.as_str(),
        changed.as_str(),
        "a different cap can change what the agent produces"
    );
}

#[test]
fn recipe_digest_covers_the_agent_runtime_env() {
    let twenty = recipe_with_env(&[("CLAUDE_CODE_MAX_RETRIES", "20")]);
    let one = recipe_with_env(&[("CLAUDE_CODE_MAX_RETRIES", "1")]);
    assert_ne!(twenty.as_str(), one.as_str(), "retry policy must change the key");

    let extra = recipe_with_env(&[("CLAUDE_CODE_MAX_RETRIES", "20"), ("API_TIMEOUT_MS", "5")]);
    assert_ne!(twenty.as_str(), extra.as_str(), "adding a setting must change the key");
}

#[test]
fn recipe_digest_is_insensitive_to_env_ordering() {
    let a = recipe_with_env(&[("A", "1"), ("B", "2")]);
    let b = recipe_with_env(&[("B", "2"), ("A", "1")]);
    assert_eq!(a.as_str(), b.as_str());
}

#[test]
fn the_policy_of_a_verification_is_part_of_its_recipe() {
    let a = Recipe::for_verify("deny /repo", "/w", "/repo", None, None);
    assert_eq!(a.sandbox_shape, "deny $REPO");
    assert_eq!(a.timeout_secs, 10_800);
    let b = Recipe::for_verify("deny /other", "/w", "/other", None, None);
    assert_eq!(a.digest().as_str(), b.digest().as_str(), "the machine is no part of it");
    let c = Recipe::for_verify("allow /repo", "/w", "/repo", None, None);
    assert_ne!(a.digest().as_str(), c.digest().as_str());
}

#[test]
fn a_digest_survives_the_round_trip_through_the_store() {
    let store = Store::open("/repo", Mode::ReadWrite);
    let (m, t, r) = fixtures();
    let p = prompt("p");
    let i = input("in");
    let k = inputs(&m, &t, &p, &r, &i);
    let lib = "pub fn a() { /* fixed */ }";
    let want = seal_verify(lib).into_digest();
    let settled = store.settle(&k, "commit", produced(lib));
    let found = kept(&settled, lib);
    let loaded = load::<Verify>(&k, &found)
        .expect("a freshly written entry must validate")
        .expect("and must be found");
    assert_eq!(
        loaded.sealed.digest().as_str(),
        want.as_str(),
        "the exported copy must hash to what was recorded, or no hit ever validates"
    );
}

#[test]
fn obtain_computes_once_and_replays_thereafter() {
    let store = Store::open("/repo", Mode::ReadWrite);
    let (m, t, r) = fixtures();
    let p = prompt("p");
    let i = input("in");
    let k = inputs(&m, &t, &p, &r, &i);
    let lib = "pub fn a() { /* v1 */ }";
    assert!(matches!(store.consult::<Verify>(&k, &nothing()), Consulted::Run { aside: None }));
    let settled = store.settle(&k, "commit", produced(lib));
    let first = match &settled {
        Settled::Done { obtained, .. } => obtained,
        Settled::Nothing => panic!("the run finished"),
    };
    assert!(!first.replayed);
    match store.consult::<Verify>(&k, &kept(&settled, lib)) {
        Consulted::Replay(second) => {
            assert!(second.replayed, "the second obtain must be served from the store");
            assert_eq!(first.sealed.digest().as_str(), second.sealed.digest().as_str());
            assert_eq!(
                second.provenance.get("duration_secs").and_then(|v| v.as_u64()),
                Some(42),
                "a replay must carry the ORIGINAL invocation's provenance, not a blank"
            );
        }
        other => panic!("the agent must NOT be invoked on a hit: {other:?}"),
    }
}

#[test]
fn a_failed_invocation_is_not_stored() {
    let store = Store::open("/repo", Mode::ReadWrite);
    let (m, t, r) = fixtures();
    let p = prompt("p");
    let i = input("in");
    let k = inputs(&m, &t, &p, &r, &i);
    assert!(matches!(store.settle::<Verify>(&k, "commit", None), Settled::Nothing));
    assert!(
        matches!(store.consult::<Verify>(&k, &nothing()), Consulted::Run { aside: None }),
        "a later run must get another chance, not a cached failure"
    );
}

#[test]
fn bypass_neither_reads_nor_writes() {
    let (m, t, r) = fixtures();
    let p = prompt("p");
    let i = input("in");
    let k = inputs(&m, &t, &p, &r, &i);
    let rw = Store::open("/repo", Mode::ReadWrite);
    let found = kept(&rw.settle(&k, "commit", produced("pub fn a() {}")), "pub fn a() {}");

    let off = Store::open("/repo", Mode::Bypass);
    assert!(!off.reads());
    assert!(
        matches!(off.consult::<Verify>(&k, &found), Consulted::Run { aside: None }),
        "bypass must not read"
    );
    match off.settle(&k, "commit", produced("pub fn a() { /* again */ }")) {
        Settled::Done { obtained, entry } => {
            assert!(!obtained.replayed);
            assert!(entry.is_none(), "bypass must not write");
        }
        Settled::Nothing => panic!("the run finished"),
    }
}

#[test]
fn refresh_ignores_the_stored_entry_and_replaces_it() {
    let (m, t, r) = fixtures();
    let p = prompt("p");
    let i = input("in");
    let k = inputs(&m, &t, &p, &r, &i);
    let rw = Store::open("/repo", Mode::ReadWrite);
    let old_lib = "pub fn a() { /* old */ }";
    let old = kept(&rw.settle(&k, "commit", produced(old_lib)), old_lib);

    let refresh = Store::open("/repo", Mode::Refresh);
    assert!(matches!(refresh.consult::<Verify>(&k, &old), Consulted::Run { aside: None }));
    let new_lib = "pub fn a() { /* new */ }";
    let settled = refresh.settle(&k, "commit", produced(new_lib));
    let key = k.key();
    match &settled {
        Settled::Done { entry: Some(e), .. } => {
            assert_eq!(e.dir, rw.entry_dir(&k, &key), "the same place, so the old one is gone");
        }
        _ => panic!("refresh must write"),
    }
    match rw.consult::<Verify>(&k, &kept(&settled, new_lib)) {
        Consulted::Replay(o) => {
            assert_eq!(o.sealed.digest().as_str(), seal_verify(new_lib).digest().as_str());
            assert_ne!(o.sealed.digest().as_str(), seal_verify(old_lib).digest().as_str());
        }
        other => panic!("must hit: {other:?}"),
    }
}

#[test]
fn a_stored_entry_is_read_only_on_disk() {
    assert_eq!(Access::ReadOnly.dir_mode(), 0o555);
    assert_eq!(Access::ReadOnly.file_mode(), 0o444);
    assert_eq!(Access::Writable.dir_mode(), 0o755);
    assert_eq!(Access::Writable.file_mode(), 0o644);
}

#[test]
fn a_tampered_entry_is_a_miss_rather_than_a_lie() {
    let store = Store::open("/repo", Mode::ReadWrite);
    let (m, t, r) = fixtures();
    let p = prompt("p");
    let i = input("in");
    let k = inputs(&m, &t, &p, &r, &i);
    let settled = store.settle(&k, "commit", produced("pub fn a() {}"));
    let mut found = kept(&settled, "pub fn a() {}");
    found.code = Some(a_crate("pub fn a() { /* smuggled */ }"));
    match store.consult::<Verify>(&k, &found) {
        Consulted::Run { aside: Some(why) } => {
            assert!(matches!(why, Unusable::Edited { stored: Some(_), .. }));
            let said = why.message();
            assert!(
                said.starts_with("code/ does not match its recorded digest (stored Some(\"sha256:"),
                "{said}"
            );
            assert!(said.contains("\"), recomputed \"sha256:"), "{said}");
        }
        other => panic!("a corrupted entry must be recomputed, never served: {other:?}"),
    }
    let key = k.key();
    assert_eq!(
        store.quarantine_dir(&key),
        format!("/repo/results/.cache/quarantine/{}", key.as_str()),
    );
    let replay = Store::open("/repo", Mode::ReplayOnly);
    assert!(matches!(replay.consult::<Verify>(&k, &found), Consulted::Unavailable));
}

#[test]
fn an_entry_that_cannot_be_read_says_why() {
    let store = Store::open("/repo", Mode::ReadWrite);
    let (m, t, r) = fixtures();
    let p = prompt("p");
    let i = input("in");
    let k = inputs(&m, &t, &p, &r, &i);
    let settled = store.settle(&k, "commit", produced("pub fn a() {}"));

    let mut broken = kept(&settled, "pub fn a() {}");
    broken.meta = Some("{".to_string());
    assert_eq!(load::<Verify>(&k, &broken).unwrap_err().message(), "parsing meta.json");

    let mut hollow = kept(&settled, "pub fn a() {}");
    hollow.code = None;
    assert_eq!(
        load::<Verify>(&k, &hollow).unwrap_err().message(),
        "entry has no code/ directory"
    );

    let m2 = ModelId::new("another").unwrap();
    let k2 = inputs(&m2, &t, &p, &r, &i);
    assert_eq!(
        load::<Verify>(&k2, &kept(&settled, "pub fn a() {}")).unwrap_err().message(),
        format!(
            "meta.json disagrees on model: stored Some(String({:?})), computed Some(String(\"another\"))",
            program::named("", "-opus-5[1m]")
        )
    );
    let mut silent = kept(&settled, "pub fn a() {}");
    silent.meta = Some("{}".to_string());
    let said = load::<Verify>(&k, &silent).unwrap_err().message();
    assert!(said.starts_with("meta.json disagrees on "), "{said}");
    assert!(said.contains(": stored None, computed Some("), "{said}");
    assert!(load::<Verify>(&k, &nothing()).unwrap().is_none());
}

#[test]
fn replay_only_never_asks_for_a_run() {
    let store = Store::open("/repo", Mode::ReplayOnly);
    let (m, t, r) = fixtures();
    let p = prompt("p");
    let i = input("in");
    let k = inputs(&m, &t, &p, &r, &i);
    assert!(matches!(store.consult::<Verify>(&k, &nothing()), Consulted::Unavailable));
}

#[test]
fn the_store_sits_outside_every_tree_walker() {
    let store = Store::open("/repo", Mode::ReadWrite);
    let (m, t, r) = fixtures();
    let p = prompt("p");
    let i = input("in");
    let k = inputs(&m, &t, &p, &r, &i);
    let key = k.key();
    assert_eq!(
        store.entry_dir(&k, &key),
        format!("/repo/results/.cache/{SCHEMA}/verified/codex/{}", key.as_str()),
    );
    assert_eq!(store.staging_root(), "/repo/results/.cache/tmp");
    assert_eq!(
        store.transcript_of(&k, &key),
        format!("{}/agent/run.log", store.entry_dir(&k, &key)),
    );
}

#[test]
fn harness_stamp_is_recorded_but_not_keyed() {
    let (m, t, r) = fixtures();
    let p = prompt("p");
    let i = input("i");
    let k = inputs(&m, &t, &p, &r, &i);
    let meta = Json::Object(k.meta(&k.key(), "abc1234"));
    assert_eq!(
        meta.get("harness").and_then(|v| v.as_str()),
        Some("abc1234"),
        "the producing commit must be recorded: {meta:?}"
    );
    for name in ["schema", "phase", "agent", "model", "toolchain", "prompt", "recipe", "input_tree"] {
        assert!(meta.get(name).is_some(), "{name} must be recorded");
    }
    let store = Store::open("/repo", Mode::ReadWrite);
    let settled = store.settle(&k, "abc1234", produced("pub fn a() {}"));
    assert!(load::<Verify>(&k, &kept(&settled, "pub fn a() {}")).unwrap().is_some());
    let later = store.settle(&k, "def5678", produced("pub fn a() {}"));
    assert!(load::<Verify>(&k, &kept(&later, "pub fn a() {}")).unwrap().is_some());
}

#[test]
fn toolchain_detect_refuses_an_overriding_env() {
    let report = "rustc 1.97.1\nhost: x86_64-unknown-linux-gnu\nrelease: 1.97.1\n";
    let err = ToolchainId::detect(true, Some(report)).expect_err("must refuse");
    assert!(err.contains("RUSTUP_TOOLCHAIN"), "{err}");
    assert_eq!(ToolchainId::detect(false, None).unwrap_err(), "`rustc -vV` failed");
    assert_eq!(ToolchainId::detect(false, Some("rustc")).unwrap().as_str(), "? ?");
}

#[test]
fn the_size_of_a_store_is_that_of_its_entries() {
    assert_eq!(stats(&[]), (0, 0));
    assert_eq!(stats(&[vec![1, 20], vec![], vec![300]]), (3, 321));
}
