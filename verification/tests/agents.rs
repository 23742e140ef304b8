//! The agents: how one ended, what it was asked for, what it worked on, and what is kept of it.

use harvest_tools::agents::exit::agent_provenance;
use harvest_tools::agents::exit::clear_agent_exit;
use harvest_tools::agents::exit::merge_agent_exit;
use harvest_tools::agents::exit::observed_exit;
use harvest_tools::agents::exit::record_agent_exit;
use harvest_tools::agents::exit::take_agent_exit;
use harvest_tools::agents::invocation::assert_pins_honoured;
use harvest_tools::agents::invocation::reported_build;
use harvest_tools::agents::invocation::PinBroken;
use harvest_tools::domain::health::PinReport;
use harvest_tools::agents::invocation::claude_model;
use harvest_tools::agents::invocation::cli_upgraded;
use harvest_tools::agents::invocation::codex_model;
use harvest_tools::agents::invocation::has_verify_phase;
use harvest_tools::agents::invocation::resolved_model;
use harvest_tools::agents::invocation::Agent;
use harvest_tools::agents::invocation::Backend;
use harvest_tools::agents::run::begin;
use harvest_tools::agents::run::Cached;
use harvest_tools::agents::run::PhaseRun;
use harvest_tools::invocation::Invocation;
use harvest_tools::invocation::Runner;
use harvest_tools::agents::run::check_model;
use harvest_tools::agents::run::conclude;
use harvest_tools::agents::run::displaced_note;
use harvest_tools::agents::run::displacement;
use harvest_tools::agents::run::serve;
use harvest_tools::agents::run::write_phase_metrics;
use harvest_tools::agents::run::Attempt;
use harvest_tools::agents::run::Ending;
use harvest_tools::agents::run::Outcome;
use harvest_tools::agents::run::Recorded;
use harvest_tools::agents::run::SkipCheck;
use harvest_tools::agents::run::Step;
use harvest_tools::agents::work::IsolatedWorkDir;
use harvest_tools::agents::work::Unworkable;
use harvest_tools::agents::Pool;
use harvest_tools::artifact::digest_tree;
use harvest_tools::artifact::CDir;
use harvest_tools::artifact::Entry;
use harvest_tools::artifact::Node;
use harvest_tools::artifact::Phase;
use harvest_tools::artifact::Refusal;
use harvest_tools::artifact::Sealed;
use harvest_tools::artifact::Sealing;
use harvest_tools::artifact::TreeDigest;
use harvest_tools::artifact::Translate;
use harvest_tools::artifact::Verify;
use harvest_tools::cache::prompt_digest;
use harvest_tools::cache::Found;
use harvest_tools::cache::KeyInputs;
use harvest_tools::cache::Mode;
use harvest_tools::cache::ModelId;
use harvest_tools::cache::Produced;
use harvest_tools::cache::PromptDigest;
use harvest_tools::cache::Recipe;
use harvest_tools::cache::RecipeDigest;
use harvest_tools::cache::Store;
use harvest_tools::cache::ToolchainId;
use harvest_tools::domain::health::classify;
use harvest_tools::domain::health::Completed;
use harvest_tools::domain::health::Exit;
use harvest_tools::domain::health::LogFormat;
use harvest_tools::io::sandbox::Enforcement;
use harvest_tools::io::sandbox::Policy;
use harvest_tools::json;
use harvest_tools::json::Json;
use harvest_tools::opencode::parse_model;
use harvest_tools::program;
use serde_json::Value;

fn file(name: &str, body: &str) -> Entry {
    Entry {
        name: name.as_bytes().to_vec(),
        link: false,
        node: Node::File(body.as_bytes().to_vec()),
    }
}

fn dir(name: &str, below: Vec<Entry>) -> Entry {
    Entry { name: name.as_bytes().to_vec(), link: false, node: Node::Dir(below) }
}

fn reference() -> CDir {
    CDir { link: false, entries: Some(vec![file("lib.c", "int a;\n")]) }
}

fn a_crate(lib: &str) -> Vec<Entry> {
    vec![
        file("Cargo.toml", "[package]"),
        dir("src", vec![file("lib.rs", lib)]),
        dir("c_src", vec![file("lib.c", "int a;\n")]),
    ]
}

fn finished() -> Completed {
    classify("done\n", LogFormat::Opaque, Exit::Success).completed().unwrap()
}

fn as_value(j: Json) -> Value {
    serde_json::from_str(&json::compact(&j)).unwrap()
}

fn success() -> Json {
    let mut m = Vec::new();
    json::set(&mut m, "agent", json::words("codex"));
    json::set(&mut m, "duration_secs", json::natural(42));
    Json::Object(m)
}

struct Keys {
    model: ModelId,
    toolchain: ToolchainId,
    prompt: PromptDigest,
    recipe: RecipeDigest,
}

impl Keys {
    fn new() -> Keys {
        Keys {
            model: ModelId::new("some.model").unwrap(),
            toolchain: ToolchainId::detect(false, Some("release: 1.94.0\nhost: x86\n")).unwrap(),
            prompt: prompt_digest("translate", "/w", "/r", None, None),
            recipe: Recipe::for_verify("", "/w", "/r", None, None).digest(),
        }
    }

    fn run<'a, P: Cached>(&'a self, work: &'a IsolatedWorkDir<P>) -> PhaseRun<'a, P> {
        PhaseRun::new(
            work,
            "/case",
            "codex",
            Some(&self.model),
            &self.model,
            &self.toolchain,
            &self.prompt,
            &self.recipe,
        )
        .unwrap()
    }

    fn inputs<'a, P: Phase>(&'a self, input_tree: &'a TreeDigest) -> KeyInputs<'a> {
        KeyInputs {
            phase: P::dir(),
            agent: "codex",
            model: &self.model,
            toolchain: &self.toolchain,
            prompt: &self.prompt,
            recipe: &self.recipe,
            input_tree,
        }
    }
}

fn to_translate() -> IsolatedWorkDir<Translate> {
    IsolatedWorkDir::<Translate>::from_corpus("/corpus", reference(), "/w", &reference()).unwrap()
}

fn to_verify(lib: &str) -> IsolatedWorkDir<Verify> {
    IsolatedWorkDir::<Verify>::new("/case/translated", Some(&a_crate(lib)), "/w", &reference())
        .unwrap()
}

fn seal<P: Phase>(lib: &str) -> Sealed<P> {
    Sealed::<P>::adopt("/case", Some(&a_crate(lib))).unwrap()
}

fn nothing_found() -> Found {
    Found { meta: None, code: None, run: None }
}

fn kept<P: Phase>(e: &Ending<P>, lib: &str) -> Found {
    let entry = e.entry.as_ref().expect("an entry is stored");
    Found {
        meta: Some(entry.meta.clone()),
        code: Some(a_crate(lib)),
        run: Some(entry.run.clone()),
    }
}

#[test]
fn merge_agent_exit_records_code_when_captured() {
    let mut seen = record_agent_exit(Some(0));
    let mut m = Vec::new();
    json::set(&mut m, "success", Json::Bool(true));
    merge_agent_exit(&mut m, &mut seen);
    let m = as_value(Json::Object(m));
    assert_eq!(m["exit_code"], Value::from(0));
    assert_eq!(m["timed_out"], Value::from(false));
    assert_eq!(m["success"], Value::from(true));
}

#[test]
fn merge_agent_exit_flags_timeout_124() {
    let mut seen = record_agent_exit(Some(124));
    let mut m = Vec::new();
    merge_agent_exit(&mut m, &mut seen);
    let m = as_value(Json::Object(m));
    assert_eq!(m["exit_code"], Value::from(124));
    assert_eq!(m["timed_out"], Value::from(true));
}

#[test]
fn merge_agent_exit_absent_for_non_cli_agent() {
    let mut seen = clear_agent_exit();
    let mut m = Vec::new();
    json::set(&mut m, "success", Json::Bool(true));
    merge_agent_exit(&mut m, &mut seen);
    let m = as_value(Json::Object(m));
    assert!(m.get("exit_code").is_none(), "exit_code must be absent when no CLI agent ran");
    assert!(m.get("timed_out").is_none());
}

#[test]
fn take_agent_exit_clears_so_next_case_starts_fresh() {
    let mut seen = record_agent_exit(Some(1));
    let first = take_agent_exit(&mut seen);
    assert_eq!(first.exit_code, Some(1));
    let second = take_agent_exit(&mut seen);
    assert!(!second.recorded, "exit must not leak into the next case on a reused thread");
}

#[test]
fn an_exit_is_read_as_it_was_seen() {
    assert_eq!(observed_exit(&clear_agent_exit()), Exit::Unobserved);
    assert_eq!(observed_exit(&record_agent_exit(Some(0))), Exit::Success);
    assert_eq!(observed_exit(&record_agent_exit(Some(3))), Exit::Failure { code: Some(3) });
    assert_eq!(observed_exit(&record_agent_exit(None)), Exit::Failure { code: None });
    assert_eq!(observed_exit(&record_agent_exit(Some(124))), Exit::Timeout);
}

#[test]
fn what_is_told_of_a_run_names_its_agent_and_its_time() {
    let mut seen = record_agent_exit(Some(0));
    let v = as_value(agent_provenance("codex", 7, "2026-01-02", "abc", true, &mut seen));
    assert_eq!(v["duration_secs"], Value::from(7));
    assert_eq!(v["exit_code"], Value::from(0));
    assert!(v.as_object().unwrap().values().any(|x| x == "codex"));
    assert!(v.as_object().unwrap().values().any(|x| x == "abc"));
}

#[test]
fn each_backend_records_the_policy_it_actually_applies() {
    let repo = "/tmp/some-repo";
    let policy = Policy {
        repo_root: repo,
        work_root: "/tmp/some-repo/work",
        enforcement: Enforcement::Required,
    };
    let shape = |b: Backend| b.policy_shape(&policy, "/scratch/base", &[], None);

    let default = shape(Backend::Claude);
    assert!(default.as_deref().is_some_and(|p| p.contains("denyRead")), "{default:?}");
    assert!(
        default.as_deref().is_some_and(|p| !p.contains(repo)),
        "the literal paths must be tokenised or no key is portable: {default:?}"
    );
    assert_eq!(shape(Backend::Kiro), None);
    let oc = shape(Backend::OpenCode(parse_model("p/m").unwrap()));
    assert!(oc.as_deref().is_some_and(|p| p.contains("external_directory")), "{oc:?}");
    assert_ne!(oc, default);
}

#[test]
fn every_phase_of_an_agent_asks_for_the_same_model() {
    let named = |a, flag, env| resolved_model(a, flag, env).unwrap().map(|m| m.as_str().to_string());
    let default = program::named("global.anthropic.", "-opus-5[1m]");
    assert_eq!(named(Agent::Claude, None, None), Some(default.clone()));
    assert_eq!(named(Agent::ClaudeMinimal, None, Some("other")), Some("other".into()));
    assert_eq!(named(Agent::Kiro, None, Some("other")), Some(program::named("", "-opus-5")));
    assert_eq!(named(Agent::Kimi, None, None), Some("moonshotai.kimi-k2.5".into()));
    assert_eq!(named(Agent::CodexGpt56Sol, None, None), Some("openai.gpt-5.6-sol".into()));
    assert_eq!(named(Agent::OpenCode, Some("a/b"), None), Some("a/b".into()));
    assert_eq!(named(Agent::Oneshot, Some("x"), None), Some("x".into()));
    assert_eq!(named(Agent::C2rust, None, None), None);
    assert_eq!(
        resolved_model(Agent::Oneshot, None, None).unwrap_err(),
        "--agent oneshot is driven by --model <provider>/<model-id>"
    );
    assert!(resolved_model(Agent::OpenCode, None, None).is_err());
    assert_eq!(claude_model(Some("")).unwrap_err(), "model id must not be empty");
    assert_eq!(claude_model(None).unwrap().as_str(), default);
    assert_eq!(codex_model(Agent::CodexGpt54), Some(("openai.gpt-5.4", "us-west-2")));
    assert_eq!(codex_model(Agent::Kiro), None);
    assert!(has_verify_phase(Agent::Kiro) && !has_verify_phase(Agent::Kimi));
}

#[test]
fn a_model_that_was_substituted_is_caught() {
    let want = ModelId::new("asked").unwrap();
    let log = "noise\n{\"type\":\"system\",\"subtype\":\"init\",\"model\":\"asked\",\"claude_code_version\":\"2.1\"}\n";
    assert_eq!(reported_build(Some(log)), Some("2.1".into()));
    assert_eq!(assert_pins_honoured(Some(log), &want, "2.1", true).unwrap(), PinReport::Confirmed);
    let other = log.replace("asked", "served");
    match assert_pins_honoured(Some(&other), &want, "2.1", true) {
        Err(PinBroken::ModelSubstituted { asked, got }) => {
            assert_eq!((asked.as_str(), got.as_str()), ("asked", "served"))
        }
        held => panic!("{held:?}"),
    }
    match assert_pins_honoured(Some(log), &want, "2.0", false) {
        Err(PinBroken::Upgraded(said)) => assert_eq!(said, cli_upgraded("2.0", "2.1")),
        held => panic!("a build that the key does not name must be refused: {held:?}"),
    }
    assert_eq!(assert_pins_honoured(None, &want, "2.0", false).unwrap(), PinReport::NotReported);
    let silent = "{\"type\":\"system\",\"subtype\":\"init\"}\n";
    assert_eq!(
        assert_pins_honoured(Some(silent), &want, "2.0", false).unwrap(),
        PinReport::NotReported
    );
    assert_eq!(reported_build(Some(silent)), None);
    assert!(cli_upgraded("2.0", "2.1").contains("the key names 2.0, the session reports 2.1"));
}

#[test]
fn no_more_are_at_work_than_a_run_allows() {
    let mut pool = Pool::for_run(2);
    assert_eq!(pool.width(), 2);
    let a = pool.acquire().unwrap();
    let b = pool.acquire().unwrap();
    assert!(pool.acquire().is_none());
    pool.release(a);
    assert!(pool.acquire().is_some());
    pool.release(b);
    assert_eq!(Pool::for_run(0).width(), 1);
}

#[test]
fn a_working_copy_knows_what_it_was_made_from() {
    let w = IsolatedWorkDir::<Translate>::from_corpus("/corpus", reference(), "/w", &reference()).unwrap();
    assert_eq!(w.root(), "/w");
    assert_eq!(w.translated_rust(), "/w/translated_rust");
    assert_eq!(w.input_digest().as_str(), reference().digest().as_str());
    let (scrubbed, sealing) = w.finish(&finished(), &a_crate("// /w/src\n"), "/scratch");
    assert_eq!(scrubbed.rewritten().len(), 1);
    assert_eq!(scrubbed.rewritten()[0].0, b"src/lib.rs");
    assert_eq!(scrubbed.rewritten()[0].1, "// $HARVEST_WORKDIR/src\n");
    match sealing.unwrap() {
        Sealing::Done(s) => assert_eq!(
            s.digest().as_str(),
            seal::<Translate>("// $HARVEST_WORKDIR/src\n").digest().as_str()
        ),
        Sealing::Drop(left) => panic!("{left:?}"),
    }
    let absent = CDir { link: false, entries: None };
    match IsolatedWorkDir::<Translate>::from_corpus("/corpus", absent, "/w", &reference()) {
        Err(Unworkable::NoInput(e)) => assert!(e.starts_with("no C corpus at /corpus"), "{e}"),
        other => panic!("{other:?}"),
    }
    match IsolatedWorkDir::<Verify>::new("/case", None, "/w", &reference()) {
        Err(Unworkable::NoInput(e)) => assert_eq!(
            e,
            "adopting translated/ as a sealed artifact: no translated phase dir at /case"
        ),
        other => panic!("{other:?}"),
    }
    let empty = CDir { link: false, entries: Some(Vec::new()) };
    assert!(matches!(
        IsolatedWorkDir::<Verify>::new("/case", Some(&a_crate("")), "/w", &empty),
        Err(Unworkable::Refused(Refusal::OracleEmpty))
    ));
}

#[test]
fn a_replay_is_recorded_as_a_replay_whichever_phase_it_belongs_to() {
    let (at, text) = write_phase_metrics::<Translate>("/mujs", success(), Recorded::Fresh { entry: None });
    assert_eq!(at, "/mujs/translated/translation.json");
    let fresh: Value = serde_json::from_str(&text).unwrap();
    assert_eq!(fresh["replayed"], Value::from(false));
    assert!(fresh.get("cache_key").is_none(), "an uncached run stored no entry to name: {fresh}");

    let (at, text) =
        write_phase_metrics::<Verify>("/mujs", success(), Recorded::Replayed { entry: "verify/abc123" });
    assert_eq!(at, "/mujs/verified/verification.json");
    let replayed: Value = serde_json::from_str(&text).unwrap();
    assert_eq!(replayed["replayed"], Value::from(true));
    assert_eq!(replayed["cache_key"], Value::from("verify/abc123"));
    assert_eq!(replayed["duration_secs"], 42, "it still reports the ORIGINAL invocation's cost");
}

#[test]
fn a_phase_that_published_nothing_still_records_how_the_agent_exited() {
    let keys = Keys::new();
    let work = to_verify("in");
    let k = keys.run(&work);
    let store = Store::open("/repo", Mode::ReadWrite);
    let mut seen = record_agent_exit(Some(124));
    let e = conclude::<Verify>(
        &store,
        &k,
        "commit",
        Attempt::Nothing("timeout".into()),
        0,
        9,
        "now",
        &mut seen,
    );
    assert!(matches!(e.outcome, Outcome::Nothing), "a killed run has nothing to publish");
    assert!(e.entry.is_none());
    let m: Value = serde_json::from_str(&e.metrics.1).unwrap();
    assert_eq!(m["exit_code"], Value::from(124), "{m}");
    assert_eq!(m["timed_out"], Value::from(true), "{m}");
    assert_eq!(m["success"], Value::from(false), "{m}");
    assert!(!seen.recorded);

    let filed = e.failure.expect("one failed run, one record");
    assert_eq!(
        filed.dir,
        format!("/repo/results/.cache/1/failed/verified/codex/{}/1", k.key().as_str()),
        "filed under the phase and RUN that failed, as attempt 1"
    );
    assert_eq!(filed.transcript, format!("{}/agent/run.log", filed.dir));
    assert_eq!(filed.why, "timeout");
    let told: Value = serde_json::from_str(&filed.run).unwrap();
    assert_eq!(told["exit_code"], Value::from(124), "{told}");
}

#[test]
fn a_phase_that_published_nothing_leaves_no_earlier_crate_beside_its_transcript() {
    let keys = Keys::new();
    let work = to_verify("in");
    let k = keys.run(&work);
    let store = Store::open("/repo", Mode::Bypass);
    let mut seen = clear_agent_exit();
    let e = conclude::<Verify>(
        &store,
        &k,
        "commit",
        Attempt::Nothing("does not compile".into()),
        4,
        9,
        "now",
        &mut seen,
    );
    assert!(e.displace, "the previous artifact is moved aside and not deleted");
    assert!(e.failure.expect("it is filed").dir.ends_with("/5"), "the fifth attempt");
    let names: Vec<String> =
        ["Cargo.toml", "logs", "result.json", "src"].iter().map(|n| n.to_string()).collect();
    let (aside, moved) = displacement::<Verify>("/case", &names, true).unwrap();
    assert_eq!(aside, "/case/verified.displaced");
    assert_eq!(moved, ["Cargo.toml", "result.json", "src"], "the transcript stays");
    assert!(
        displacement::<Verify>("/case", &["logs".into(), "verification.json".into()], false)
            .is_none(),
        "a second failed run must not displace a metrics file over the crate"
    );
    assert_eq!(
        displaced_note::<Verify>("/case/verified.1"),
        "  ⚠️  this run published nothing; the previous verified/ is at /case/verified.1"
    );
}

#[test]
fn a_second_pass_over_a_case_is_two_cache_hits_and_no_agent_invocation() {
    let keys = Keys::new();
    let store = Store::open("/repo", Mode::ReadWrite);
    let corpus = to_translate();
    let k1 = keys.run(&corpus);
    assert!(matches!(begin::<Translate>(&store, &k1, &nothing_found()), Step::Execute { aside: None }));
    let mut seen = clear_agent_exit();
    let done = Attempt::Produced(Produced { sealed: seal::<Translate>("v1"), provenance: success() });
    let first = conclude(&store, &k1, "commit", done, 0, 1, "now", &mut seen);
    assert!(!first.displace && first.failure.is_none());
    let entry = first.entry.as_ref().unwrap();
    assert_eq!(entry.staging, format!("/repo/results/.cache/tmp/{}.partial", k1.key().as_str()));
    assert_eq!(entry.transcript, format!("{}/agent/run.log", entry.staging));
    assert_eq!(entry.run, json::pretty(&success()) + "\n");
    let m: Value = serde_json::from_str(&first.metrics.1).unwrap();
    assert_eq!(m["replayed"], Value::from(false));
    assert_eq!(m["cache_key"], Value::from(k1.key().as_str()));

    match begin::<Translate>(&store, &k1, &kept(&first, "v1")) {
        Step::Serve(o) => {
            let e = serve(&store, &k1, o);
            assert_eq!(e.restore.as_deref(), Some(store.transcript_of(k1.inputs(), &k1.key()).as_str()));
            assert!(e.entry.is_none() && !e.displace);
            let m: Value = serde_json::from_str(&e.metrics.1).unwrap();
            assert_eq!(m["replayed"], Value::from(true));
            assert_eq!(m["duration_secs"], 42);
            match e.outcome {
                Outcome::Published(s) => {
                    assert_eq!(s.digest().as_str(), seal::<Translate>("v1").digest().as_str())
                }
                other => panic!("{other:?}"),
            }
        }
        other => panic!("the agent must not run again: {other:?}"),
    }

    let translated = to_verify("v1");
    assert_eq!(
        translated.input_digest().as_str(),
        seal::<Translate>("v1").digest().as_str(),
        "what a verification is keyed by is what the translation left"
    );
    let k2 = keys.run(&translated);
    let done = Attempt::Produced(Produced { sealed: seal::<Verify>("v2"), provenance: success() });
    let second = conclude(&store, &k2, "commit", done, 0, 1, "now", &mut seen);
    assert!(matches!(begin::<Verify>(&store, &k2, &kept(&second, "v2")), Step::Serve(_)));
}

#[test]
fn a_replay_only_phase_serves_a_stored_translation_and_refuses_to_pay_for_a_miss() {
    let keys = Keys::new();
    let work = to_translate();
    let k = keys.run(&work);
    let rw = Store::open("/repo", Mode::ReadWrite);
    let mut seen = clear_agent_exit();
    let done = Attempt::Produced(Produced { sealed: seal::<Translate>("v1"), provenance: success() });
    let stored = conclude(&rw, &k, "commit", done, 0, 1, "now", &mut seen);
    let replay = Store::open("/repo", Mode::ReplayOnly);
    assert!(matches!(begin::<Translate>(&replay, &k, &kept(&stored, "v1")), Step::Serve(_)));
    assert!(matches!(begin::<Translate>(&replay, &k, &nothing_found()), Step::Stop));
}

#[test]
fn a_forced_run_pays_the_agent_again_rather_than_replaying_the_entry_it_distrusts() {
    let keys = Keys::new();
    let work = to_translate();
    let k = keys.run(&work);
    let rw = Store::open("/repo", Mode::ReadWrite);
    let mut seen = clear_agent_exit();
    let done = Attempt::Produced(Produced { sealed: seal::<Translate>("v1"), provenance: success() });
    let stored = conclude(&rw, &k, "commit", done, 0, 1, "now", &mut seen);
    let refresh = Store::open("/repo", Mode::Refresh);
    assert!(matches!(
        begin::<Translate>(&refresh, &k, &kept(&stored, "v1")),
        Step::Execute { aside: None }
    ));
}

#[test]
fn a_populated_results_tree_still_replays_from_the_store_instead_of_re_running() {
    for mode in [Mode::ReadWrite, Mode::Refresh, Mode::ReplayOnly] {
        assert!(!SkipCheck::Keyed.through(mode).already_done(true), "{mode:?}");
    }
    assert!(SkipCheck::Keyed.through(Mode::Bypass).already_done(true));
    assert!(!SkipCheck::WhateverIsPublished.already_done(false));
}

#[test]
fn two_corpora_differing_only_in_an_ignored_file_do_not_share_a_translate_key() {
    let keys = Keys::new();
    let corpus = |note: &str| vec![file("lib.c", "int a;\n"), file("footer.html.bak", note)];
    let digest_of = |note: &str| {
        let c = CDir { link: false, entries: Some(corpus(note)) };
        let w = IsolatedWorkDir::<Translate>::from_corpus("/c", c, "/w", &reference()).unwrap();
        w.input_digest().as_str().to_string()
    };
    assert_ne!(digest_of("one"), digest_of("two"));
    let da = CDir { link: false, entries: Some(corpus("one")) }.digest();
    let db = CDir { link: false, entries: Some(corpus("two")) }.digest();
    assert_ne!(
        keys.inputs::<Translate>(&da).key().as_str(),
        keys.inputs::<Translate>(&db).key().as_str(),
    );
    assert_eq!(
        Sealed::<Translate>::from_cache("/c", Some(&corpus("one"))).unwrap().digest().as_str(),
        Sealed::<Translate>::from_cache("/c", Some(&corpus("two"))).unwrap().digest().as_str(),
    );
}

#[test]
fn a_translate_entry_cannot_serve_a_verify_request() {
    let keys = Keys::new();
    let input = digest_tree(&a_crate("the same tree"));
    assert_ne!(
        keys.inputs::<Translate>(&input).key().as_str(),
        keys.inputs::<Verify>(&input).key().as_str(),
        "the phase must separate two requests that agree on everything else"
    );
    assert_eq!(
        keys.inputs::<Verify>(&input).key().as_str(),
        keys.inputs::<Verify>(&input).key().as_str(),
    );
}

#[test]
fn a_run_is_keyed_by_its_phase_and_by_the_tree_it_works_in() {
    let keys = Keys::new();
    let (first, second) = (to_translate(), to_verify("v1"));
    let (t, v) = (keys.run(&first), keys.run(&second));
    assert_eq!((t.inputs().phase, v.inputs().phase), ("translated", "verified"));
    assert_eq!(t.inputs().input_tree.as_str(), reference().digest().as_str());
    assert_eq!(v.inputs().input_tree.as_str(), digest_tree(&a_crate("v1")).as_str());
    assert_eq!(t.key().as_str(), keys.inputs::<Translate>(&reference().digest()).key().as_str());
    assert_ne!(v.key().as_str(), keys.run(&to_verify("v2")).key().as_str());
    assert_eq!(v.key().as_str(), keys.run(&to_verify("v1")).key().as_str());

    let other = ModelId::new("other").unwrap();
    for keyed in [None, Some(&other)] {
        assert!(PhaseRun::new(
            &first,
            "/case",
            "codex",
            keyed,
            &keys.model,
            &keys.toolchain,
            &keys.prompt,
            &keys.recipe,
        )
        .is_err());
    }
}

#[test]
fn a_run_is_recorded_under_what_it_was_asked_and_not_under_its_phase() {
    let keys = Keys::new();
    let of = |tool: &str, prompt: &str, before: &str| {
        Invocation { tool, prompt, runner: Runner { model: &keys.model } }.key(before).id()
    };
    let id = of("codex", "p", "t");
    assert_eq!(id.len(), 64);
    assert_eq!(id, of("codex", "p", "t"));
    for other in [of("kiro", "p", "t"), of("codex", "q", "t"), of("codex", "p", "u")] {
        assert_ne!(id, other);
    }
    assert_ne!(of("c", "ab", "t"), of("ca", "b", "t"), "where a part ends counts");
}

#[test]
fn a_key_must_name_the_model_that_runs() {
    let a = ModelId::new("a").unwrap();
    let b = ModelId::new("b").unwrap();
    assert!(check_model(Some(&a), &a).is_ok());
    assert_eq!(
        check_model(Some(&b), &a).unwrap_err(),
        "the key would record model Some(\"b\") while the agent runs a"
    );
    assert_eq!(
        check_model(None, &a).unwrap_err(),
        "the key would record model None while the agent runs a"
    );
}

#[test]
fn a_replay_tells_what_was_told_of_the_run_that_was_stored() {
    for code in [None, Some(0), Some(-9)] {
        let keys = Keys::new();
        let store = Store::open("/repo", Mode::ReadWrite);
        let work = to_verify("in");
        let k = keys.run(&work);
        let mut seen = record_agent_exit(code);
        let told = agent_provenance("codex", 42, "2026-01-02", "abc", true, &mut seen);
        let original = as_value(json::copy(&told));
        let done = Attempt::Produced(Produced { sealed: seal::<Verify>("v"), provenance: told });
        let stored = conclude(&store, &k, "abc", done, 0, 42, "2026-01-02", &mut seen);
        let entry = stored.entry.as_ref().unwrap();
        assert_eq!(serde_json::from_str::<Value>(&entry.run).unwrap(), original);

        let Step::Serve(o) = begin::<Verify>(&store, &k, &kept(&stored, "v")) else {
            panic!("what was stored must be served");
        };
        let replay = serve(&store, &k, o);
        assert_eq!(replay.restore, Some(format!("{}/agent/run.log", entry.dir)));
        let mut expected = original.clone();
        expected["replayed"] = Value::from(true);
        expected["cache_key"] = Value::from(k.key().as_str());
        assert_eq!(serde_json::from_str::<Value>(&replay.metrics.1).unwrap(), expected);
        assert_eq!(original["exit_code"], code.map_or(Value::Null, Value::from));
    }
}

#[test]
fn what_is_nested_is_read_back_as_it_was() {
    let text = "{\"a\":[1,{\"b\":[null,-9223372036854775808,18446744073709551615]},[]],\"c\":{\"\\u0001\":\"é\\n\"}}";
    let told = json::parse(text).unwrap();
    let again = json::parse(&(json::pretty(&told) + "\n")).unwrap();
    assert_eq!(json::compact(&again), json::compact(&told));
    assert_eq!(as_value(again), serde_json::from_str::<Value>(text).unwrap());

    let nested = |depth: usize| {
        let mut v = Json::Null;
        for _ in 0..depth {
            v = Json::List(vec![v]);
        }
        json::parse(&(json::pretty(&v) + "\n"))
    };
    assert!(nested(127).is_some());
    assert!(nested(128).is_none(), "no reader follows deeper");
}
