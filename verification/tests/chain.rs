//! The chain of a case: what is served, what is run, what is tried again, and what is published.

use harvest_tools::artifact::digest_tree;
use harvest_tools::artifact::phase_log;
use harvest_tools::artifact::Entry;
use harvest_tools::artifact::Node;
use harvest_tools::artifact::Translate;
use harvest_tools::artifact::Verify;
use harvest_tools::cache::ModelId;
use harvest_tools::chain::answer_of;
use harvest_tools::chain::declined_places;
use harvest_tools::chain::first_steps;
use harvest_tools::chain::roles_of;
use harvest_tools::cli::Variant;
use harvest_tools::chain::publish_places;
use harvest_tools::chain::queue;
use harvest_tools::chain::Action;
use harvest_tools::chain::Answer;
use harvest_tools::chain::Artifact;
use harvest_tools::chain::CaseOutcome;
use harvest_tools::chain::CaseRun;
use harvest_tools::chain::Follower;
use harvest_tools::chain::Job;
use harvest_tools::chain::Publish;
use harvest_tools::chain::Ran as Chains;
use harvest_tools::chain::Role;
use harvest_tools::chain::Shape;
use harvest_tools::chain::BACKOFF_SECS;
use harvest_tools::chain::TRANSIENT_ATTEMPTS;
use harvest_tools::domain::contents::classify;
use harvest_tools::domain::contents::Disposition;
use harvest_tools::domain::health::Health;
use harvest_tools::domain::health::PinReport;
use harvest_tools::domain::health::RefusalKind;
use harvest_tools::domain::relpath::RelPath;
use harvest_tools::eval::EvalTree;
use harvest_tools::eval::Keep;
use harvest_tools::invocation::conclude;
use harvest_tools::invocation::leaves_a_tree;
use harvest_tools::invocation::record;
use harvest_tools::invocation::run_or_replay;
use harvest_tools::invocation::Decision;
use harvest_tools::invocation::Invocation;
use harvest_tools::invocation::Produced;
use harvest_tools::invocation::Ran;
use harvest_tools::invocation::Runner;
use harvest_tools::names::Names;
use harvest_tools::store::AgentRecord;
use harvest_tools::store::Mode;

fn owned(names: &[&str]) -> Vec<String> {
    names.iter().map(|s| s.to_string()).collect()
}

fn ran(health: Health) -> Ran {
    Ran {
        health,
        wall_secs: 12,
        cost_usd: Some("0.5".into()),
        cli: "2.1".into(),
        pin: PinReport::NotReported,
    }
}

fn infra() -> Health {
    Health::Infra { reason: "api_error".into(), detail: "HTTP 403".into() }
}

fn completed() -> AgentRecord {
    record(ran(Health::Completed), Some("sha256:after"))
}

#[test]
fn the_second_run_of_one_invocation_serves_the_stored_tree_and_pays_nothing() {
    assert!(matches!(run_or_replay(Mode::ReadWrite, None), Decision::Execute));
    let run = ran(Health::Completed);
    assert!(leaves_a_tree(&run));
    let kept = record(run, Some("sha256:after"));
    match conclude(completed()) {
        Produced::Done { replayed, .. } => assert!(!replayed),
        other => panic!("the first run must produce a tree: {other:?}"),
    }
    match run_or_replay(Mode::ReadWrite, Some(kept)) {
        Decision::Serve(Produced::Done { record, replayed }) => {
            assert!(replayed, "and must say so");
            assert_eq!(record.output_tree.as_deref(), Some("sha256:after"));
        }
        other => panic!("the agent must NOT have run again: {other:?}"),
    }
}

#[test]
fn a_stored_terminal_answer_replays_and_a_stored_infra_failure_does_not() {
    for (health, servable) in [(Health::Exhausted { secs: 43_200 }, true), (infra(), false)] {
        let run = ran(health);
        assert!(!leaves_a_tree(&run), "the fixture must not complete");
        let kept = record(run, None);
        match run_or_replay(Mode::ReplayOnly, Some(kept)) {
            Decision::Answer(Produced::DidNotComplete(record)) => {
                assert!(servable, "a lost run has no measurement to serve");
                assert!(matches!(record.outcome, Health::Exhausted { .. }));
                assert!(record.is_terminal() && !record.is_transient());
            }
            Decision::Answer(Produced::Unavailable) => {
                assert!(!servable, "a terminal answer must replay as itself")
            }
            other => panic!("a replay must never invoke the agent: {other:?}"),
        }
    }
}

#[test]
fn a_different_prompt_against_the_same_tree_is_a_different_invocation() {
    let m = ModelId::new("some.model").unwrap();
    let first = Invocation { tool: "codex", prompt: "translate", runner: Runner { model: &m } };
    let second = Invocation { tool: "codex", prompt: "verify", runner: Runner { model: &m } };
    assert!(!first.key("sha256:t").same(&second.key("sha256:t")), "each prompt is its own entry");
    assert!(first.key("sha256:t").same(&first.key("sha256:t")));
    assert!(!first.key("sha256:t").same(&first.key("sha256:u")));
}

#[test]
fn replay_only_refuses_a_miss_rather_than_paying_for_it() {
    assert!(matches!(
        run_or_replay(Mode::ReplayOnly, None),
        Decision::Answer(Produced::Unavailable)
    ));
}

#[test]
fn a_run_that_did_not_complete_is_recorded_and_retried_rather_than_served() {
    let kept = record(ran(infra()), None);
    assert_eq!(kept.output_tree, None);
    assert!(!kept.is_servable() && kept.is_transient());
    match conclude(record(ran(infra()), None)) {
        Produced::DidNotComplete(r) => assert!(matches!(r.outcome, Health::Infra { .. })),
        other => panic!("an infra failure must not produce a tree: {other:?}"),
    }
    assert!(
        matches!(run_or_replay(Mode::ReadWrite, Some(kept)), Decision::Execute),
        "the recorded failure must not answer the next lookup"
    );
}

#[test]
fn what_a_run_came_to_decides_what_the_chain_does() {
    let came_to = |h| answer_of(&conclude(record(ran(h), None)));
    assert_eq!(answer_of(&conclude(completed())), Answer::Done);
    assert_eq!(came_to(infra()), Answer::Transient);
    let no = Health::Refused { kind: RefusalKind::HighRiskCyberActivity, detail: "d".into() };
    assert_eq!(came_to(no), Answer::Declined);
    assert_eq!(came_to(Health::Unknown { why: "w".into() }), Answer::Incomplete);
    assert_eq!(answer_of(&Produced::Unavailable), Answer::Unavailable);
}

#[test]
fn a_chain_runs_its_steps_in_order_and_finishes() {
    let mut run = CaseRun::start("c", vec![Role::Translate, Role::Verify]);
    for role in [Role::Translate, Role::Verify] {
        match run.next() {
            Action::Invoke { role: r, attempt } => assert_eq!((r, attempt), (role, 1)),
            other => panic!("{other:?}"),
        }
        match run.hear(Answer::Done, "") {
            Action::Publish { role: r } => assert_eq!(r, role),
            other => panic!("{other:?}"),
        }
    }
    assert!(matches!(run.next(), Action::Finished));
    assert!(matches!(CaseRun::start("c", vec![]).next(), Action::Finished));
}

#[test]
fn a_failure_in_passing_is_tried_again_and_then_given_up() {
    let mut run = CaseRun::start("c", vec![Role::Translate]);
    for attempt in 1..TRANSIENT_ATTEMPTS {
        match run.hear(Answer::Transient, "HTTP 503") {
            Action::Wait { secs, .. } => assert_eq!(secs, BACKOFF_SECS * attempt),
            other => panic!("{other:?}"),
        }
    }
    match run.hear(Answer::Transient, "HTTP 503") {
        Action::Fail(e) => assert_eq!(e, "the Translate step did not complete: HTTP 503"),
        other => panic!("{other:?}"),
    }
    assert!(matches!(run.next(), Action::Finished));
}

#[test]
fn an_answer_of_no_is_published_as_an_empty_translation() {
    let mut run = CaseRun::start("c", vec![Role::Translate, Role::Verify]);
    match run.hear(Answer::Declined, "flagged") {
        Action::PublishEmpty { role, note, refused } => {
            assert_eq!(role, Role::Translate);
            assert_eq!(note, "  🚫 c: Translate answered no: flagged");
            assert_eq!(refused, "c/Translate");
        }
        other => panic!("{other:?}"),
    }
    assert!(matches!(run.next(), Action::Finished), "nothing is verified after it");
    let mut gone = CaseRun::start("c", vec![Role::Verify]);
    match gone.hear(Answer::Unavailable, "") {
        Action::Fail(e) => {
            assert!(e.starts_with("--replay-only: no stored entry for the Verify step of c"), "{e}")
        }
        other => panic!("{other:?}"),
    }
}

#[test]
fn a_run_may_stop_after_its_first_steps() {
    let both = [Role::Translate, Role::Verify];
    assert_eq!(first_steps(&both, Some(1)), [Role::Translate]);
    assert_eq!(first_steps(&both, Some(9)), both);
    assert_eq!(first_steps(&both, None), both);
}

#[test]
fn a_combined_prompt_is_one_step_and_any_other_two() {
    assert_eq!(roles_of(Variant::Combined), [Role::Translate]);
    for v in [Variant::Default, Variant::Minimal, Variant::NoIter] {
        assert_eq!(roles_of(v), [Role::Translate, Role::Verify]);
    }
}

#[test]
fn residue_in_a_published_dir_reaches_neither_the_next_key_nor_the_score() {
    let krate: &[(&str, &str)] = &[
        ("translation/Cargo.toml", "[package]\nname = \"x\"\nversion = \"0.1.0\"\nedition = \"2021\"\n"),
        ("translation/src/lib.rs", "pub fn f() {}\n"),
    ];
    // An earlier sweep's output.
    let mut dir = files(&[
        (".cargo/config.toml", "[net]\noffline = true\n"),
        ("src/aes.rs", "pub fn stale() {}\n"),
        ("Cargo.lock", "# from sweep 1\n"),
        ("logs/translation.log", "sweep 1\n"),
    ]);
    let names: Vec<String> =
        dir.iter().map(|e| String::from_utf8(e.name.clone()).unwrap()).collect();
    let (publish, gone) = Publish::open("/case/translated", &names);
    assert_eq!(publish.at(), "/case/translated");
    dir.retain(|e| !gone.iter().any(|g| g.as_bytes() == e.name));
    let left: Vec<&[u8]> = dir.iter().map(|e| e.name.as_slice()).collect();
    assert_eq!(left, [b"logs"], "all of sweep 1 goes but the transcript");

    // The score is taken from the tree that the run handed over, and not from that directory.
    let mut all = Chains::new();
    let done = CaseOutcome {
        published: vec![(publish.at().to_string(), files(krate))],
        refused: Vec::new(),
    };
    assert_eq!(all.collect("B01", "a", Ok(done)), None);
    let scored = all.resolved.get("/case/translated").unwrap();
    let next_input = digest_tree(&files(krate));
    assert_eq!(digest_tree(scored), next_input);

    // Non-vacuity: those same bytes inside a tree really do move a digest.
    let mut moved = krate.to_vec();
    moved.push(("translation/.cargo/config.toml", "[net]\noffline = true\n"));
    assert_ne!(digest_tree(&files(&moved)), next_input);
}

#[test]
fn the_oracle_reads_a_transcript_where_the_runner_wrote_it_and_never_from_the_eval_tree() {
    let case_dir = "/results/B01/case_x";
    for role in [Role::Translate, Role::Verify] {
        let dir = format!("{case_dir}/{}", role.dir());
        let (publish, _) = Publish::open(&dir, &[]);
        assert_eq!(publish.log(role), role.log_in(&dir), "{role:?}");
    }
    assert_eq!(Role::Translate.log_in("/c/translated"), phase_log::<Translate>("/c"));
    assert_eq!(Role::Verify.log_in("/c/verified"), phase_log::<Verify>("/c"));
    let log = RelPath::new("translation/logs/verify.log").unwrap();
    assert_eq!(classify(&log, false), Disposition::Ignore, "a transcript never reaches a tree");
}

fn files(of: &[(&str, &str)]) -> Vec<Entry> {
    let mut out: Vec<Entry> = Vec::new();
    for (path, text) in of {
        let mut into = &mut out;
        let mut parts: Vec<&str> = path.split('/').collect();
        let file = parts.pop().unwrap();
        for part in parts {
            let at = match into.iter().position(|e| e.name == part.as_bytes()) {
                Some(i) => i,
                None => {
                    let node = Node::Dir(Vec::new());
                    into.push(Entry { name: part.into(), link: false, node });
                    into.len() - 1
                }
            };
            into = match &mut into[at].node {
                Node::Dir(below) => below,
                Node::File(_) => panic!("{path} leads through a file"),
            };
        }
        let node = Node::File(text.as_bytes().to_vec());
        into.push(Entry { name: file.into(), link: false, node });
    }
    out
}

fn job(name: &str, followers: &[&str]) -> Job {
    Job {
        name: name.into(),
        case_inputs: format!("/corpus/{name}"),
        corpus: format!("/corpus/{name}/test_case"),
        case_dir: format!("/results/{name}"),
        shape: Shape::of(false, !followers.is_empty()),
        artifact: Artifact::Driver,
        followers: followers
            .iter()
            .map(|f| Follower {
                cfg: harvest_tools::battery::Config {
                    name: f.to_string(),
                    features: vec![],
                    is_lib: false,
                    lib_name: None,
                },
                case_inputs: format!("/corpus/{f}"),
                corpus: format!("/corpus/{f}/test_case"),
                case_dir: format!("/results/{f}"),
            })
            .collect(),
    }
}

#[test]
fn every_job_of_every_unit_is_queued_once() {
    let units = vec![
        ("B01".to_string(), vec![job("a", &[]), job("b", &[])]),
        ("B02".to_string(), vec![]),
        ("B03".to_string(), vec![job("c", &[])]),
    ];
    assert_eq!(queue(&units), [(0, 0), (0, 1), (2, 0)]);
}

#[test]
fn a_step_publishes_for_the_followers_too() {
    assert_eq!(
        publish_places(&job("a", &["x", "y"]), Role::Verify),
        ["/results/a/verified", "/results/x/verified", "/results/y/verified"],
    );
    assert_eq!(
        declined_places(&job("a", &["x", "y"]), Role::Verify),
        ["/results/a/verified"],
        "a step that was declined publishes for no follower",
    );
}

#[test]
fn what_the_chains_came_to_is_added_up() {
    let mut all = Chains::new();
    let done = CaseOutcome {
        published: vec![("/p".into(), files(&[("a", "1")])), ("/q".into(), Vec::new())],
        refused: owned(&["a/Verify"]),
    };
    assert_eq!(all.collect("B01", "a", Ok(done)), None);
    assert_eq!(all.collect("B01", "b", Err("lost".into())).unwrap(), "  ❌ B01/b: lost");
    let held = |all: &Chains, place: &str| all.resolved.get(place).map(|t| digest_tree(t));
    assert_eq!(held(&all, "/p"), Some(digest_tree(&files(&[("a", "1")]))));
    assert_eq!(held(&all, "/q"), Some(digest_tree(&Vec::new())));
    assert_eq!(held(&all, "/p/a"), None, "a lookup is exact");
    assert!(all.resolved.serves("/p") && !all.resolved.serves("/p/a"));
    let again = CaseOutcome {
        published: vec![("/p".into(), files(&[("a", "2")]))],
        refused: Vec::new(),
    };
    all.collect("B01", "a", Ok(again));
    assert_eq!(held(&all, "/p"), Some(digest_tree(&files(&[("a", "2")]))), "the last one counts");
    assert_eq!(all.refused, ["a/Verify"]);
    assert_eq!(all.failures, ["b"]);
}

fn tree(keep: Keep) -> EvalTree {
    EvalTree::create_empty("/repo", "/repo/results/TC/codex/m/default", "T/case", keep)
}

#[test]
fn a_discarded_tree_leaves_nothing_at_all_under_eval() {
    let t = tree(Keep::Discard);
    assert_eq!(t.root(), "/repo/.eval/codex/m/default/T~case");
    assert_eq!(
        t.leftovers().unwrap(),
        ["/repo/.eval/codex/m/default", "/repo/.eval/codex/m", "/repo/.eval/codex"],
    );
}

#[test]
fn the_tree_is_removed_when_the_run_does_not_ask_to_keep_it() {
    assert!(tree(Keep::from_keep_eval_tree_flag(false)).leftovers().is_some());
    let kept = tree(Keep::from_keep_eval_tree_flag(true));
    assert!(kept.leftovers().is_none());
    assert_eq!(
        kept.kept_note(),
        format!("  evaluation tree kept for post-mortem at {}", kept.root())
    );
}

#[test]
fn two_targets_have_trees_of_their_own() {
    let other = EvalTree::create_empty("/repo", "/repo/results/TC/codex/m/default", "U", Keep::Discard);
    assert_eq!(other.root(), "/repo/.eval/codex/m/default/U");
    let (whole, _) = other.scope("").finish(&[]);
    assert_eq!(whole.root(), other.root());
}

#[test]
fn a_case_the_oracle_did_not_discover_is_refused_not_averaged_away() {
    let t = tree(Keep::ForPostMortem);
    let mut scope = t.scope("B01");
    for case in ["001", "002"] {
        let at = scope.materialise(case, &format!("/results/B01/{case}/verified"));
        assert_eq!(at, format!("{}/B01/{case}", t.root()));
    }
    let (done, workspace) = scope.finish(&[false, false]);
    assert!(workspace.is_none());
    assert_eq!(done.cases().len(), 2);
    assert_eq!(done.cases()[0].case_dir, "/results/B01/001");

    done.reconcile(2, &Names::new(&owned(&["001", "002"]))).expect("agreeing counts pass");
    let text = done
        .reconcile(1, &Names::new(&owned(&["001"])))
        .expect_err("a case that vanished from the denominator must refuse");
    assert!(text.contains("002"), "and must name the case: {text}");
}

#[test]
fn the_runners_of_cases_make_one_workspace() {
    let t = tree(Keep::Discard);
    let mut scope = t.scope("B01");
    scope.materialise("001", "/r/001/verified");
    scope.materialise("002", "/r/002/verified");
    let (_, workspace) = scope.finish(&[false, true]);
    let (file, text) = workspace.unwrap();
    assert_eq!(file, format!("{}/B01/Cargo.toml", t.root()));
    assert!(text.contains("002/runner") && !text.contains("001/runner"), "{text}");
}
