//! What became of the runs that are to be scored.

use harvest_tools::agent_health::audit;
use harvest_tools::agent_health::classify_content;
use harvest_tools::agent_health::classify_log;
use harvest_tools::agent_health::read_tail;
use harvest_tools::agent_health::cost_usd;
use harvest_tools::agent_health::describe_infra_failures;
use harvest_tools::agent_health::record_infra_failures;
use harvest_tools::agent_health::tail_start;
use harvest_tools::agent_health::Gate;
use harvest_tools::agent_health::Grade;
use harvest_tools::agent_health::OnInfraFailure;
use harvest_tools::agent_health::Run;
use harvest_tools::agent_health::Tail;
use harvest_tools::agent_health::TAIL_BYTES;
use harvest_tools::domain::health::classify;
use harvest_tools::domain::health::Exit;
use harvest_tools::domain::health::Health;
use harvest_tools::domain::health::LogFormat;

const DEAD: &str = r#"{"type":"system","subtype":"api_retry","attempt":4,"error_status":403}
{"type":"result","subtype":"success","is_error":true,"terminal_reason":"api_error","api_error_status":403,"duration_ms":4569000,"num_turns":12,"result":"Failed to authenticate. API Error: 403 The security token included in the request is expired","session_id":"abc"}"#;

const CLEAN: &str = r#"{"type":"result","subtype":"success","is_error":false,"terminal_reason":"completed","duration_ms":573254,"num_turns":88,"total_cost_usd":4.2,"result":"Verified. c_src/ was not modified.","session_id":"def"}"#;

const OPAQUE: &str = "Unable to find image locally\n=== OPENROUTER REQUEST ===\n\
                      Finished `release` profile [optimized] target(s) in 41.02s\n";

const KIRO_KILLED: &str = "> I'll start by reading c_src/parson.c\n\
                           > Writing src/lib.rs\n";

fn run(name: &str, verify: Option<&str>, translate: Option<&str>) -> Run {
    Run {
        name: name.into(),
        case_dir: format!("/results/{name}"),
        verify: verify.map(|t| Tail::Read(t.into())),
        translate: translate.map(|t| Tail::Read(t.into())),
    }
}

#[test]
fn audit_prefers_the_verify_log_over_the_translate_log() {
    let a = audit(&[run("B01/case_x", Some(DEAD), Some(CLEAN))], LogFormat::StreamJson);
    assert_eq!(a.len(), 1, "one case, not one per phase");
    assert_eq!(a[0].name, "B01/case_x");
    assert!(a[0].health.is_infra(), "verify is the later phase and must win");
    assert_eq!(a[0].log, "/results/B01/case_x/verified/logs/verify.log");
}

#[test]
fn a_case_without_a_transcript_is_not_audited() {
    let a = audit(
        &[run("B01/none", None, None), run("B01/one", None, Some(CLEAN))],
        LogFormat::StreamJson,
    );
    assert_eq!(a.len(), 1);
    assert_eq!(a[0].log, "/results/B01/one/translated/logs/translation.log");
}

#[test]
fn an_opaque_backend_is_not_audited_as_a_truncated_stream_json_log() {
    let runs = [run("B01/case_x", None, Some(OPAQUE))];
    let a = audit(&runs, LogFormat::Opaque);
    assert_eq!(a.len(), 1, "the transcript has to be found to be classified");
    assert!(!a[0].health.is_infra(), "a completed docker run has a measurement: {:?}", a[0].health);
    assert!(describe_infra_failures(&a).is_none());

    let as_stream_json = audit(&runs, LogFormat::StreamJson);
    assert!(as_stream_json[0].health.is_infra());
}

#[test]
fn a_wall_clock_kill_is_exhausted_for_every_backend_not_just_the_opaque_one() {
    for format in [LogFormat::StreamJson, LogFormat::CodexJson, LogFormat::Opaque] {
        assert!(
            matches!(classify(KIRO_KILLED, format, Exit::Exhausted), Health::Exhausted { .. }),
            "{format:?} calls an exhausted session something else"
        );
    }
    assert!(
        classify(KIRO_KILLED, LogFormat::StreamJson, Exit::Unobserved).is_infra(),
        "an unobserved truncated stream-json log must still be infra"
    );
}

#[test]
fn a_dead_run_in_a_battery_nobody_is_scoring_does_not_block_the_one_being_scored() {
    let refusing = Gate {
        format: LogFormat::StreamJson,
        on_failure: OnInfraFailure::Refuse,
        results_dir: "/results",
    };
    let fresh = || run("B01/fresh", Some(CLEAN), None);
    assert!(matches!(refusing.grade(&[fresh()], "now"), Grade::Clean));

    match refusing.grade(&[fresh(), run("B02/dead", Some(DEAD), None)], "now") {
        Grade::Refused { record, why } => {
            assert!(why.contains("B02/dead"), "and must name it: {why}");
            assert!(why.contains("1 of 2"), "counting only the roster: {why}");
            assert_eq!(record.0, "/results/INFRA_FAILURES.json");
        }
        other => panic!("the refusal must still fire when the dead run IS in the roster: {other:?}"),
    }

    let anyway = Gate {
        format: LogFormat::StreamJson,
        on_failure: OnInfraFailure::from_allow_infra_failures_flag(true),
        results_dir: "/results",
    };
    assert!(matches!(
        anyway.grade(&[run("B02/dead", Some(DEAD), None)], "now"),
        Grade::Warned { .. }
    ));
    assert_eq!(OnInfraFailure::from_allow_infra_failures_flag(false), OnInfraFailure::Refuse);
}

#[test]
fn describe_is_none_when_everything_completed() {
    let a = audit(&[run("b/c1", Some(CLEAN), None)], LogFormat::StreamJson);
    assert!(describe_infra_failures(&a).is_none());
}

#[test]
fn describe_names_the_cases_and_the_counts() {
    let a = audit(
        &[run("b/good", Some(CLEAN), None), run("b/bad", Some(DEAD), None)],
        LogFormat::StreamJson,
    );
    let msg = describe_infra_failures(&a).expect("one failure");
    assert!(msg.contains("1 of 2"), "counts: {msg}");
    assert!(msg.contains("b/bad"), "names the case: {msg}");
    assert!(!msg.contains("b/good"), "does not list healthy cases: {msg}");
}

#[test]
fn the_record_of_lost_runs_is_json_that_names_them() {
    let a = audit(
        &[run("b/good", Some(CLEAN), None), run("b/bad", Some(DEAD), None)],
        LogFormat::StreamJson,
    );
    let (file, text) = record_infra_failures("/results", &a, "2026-01-02T03:04:05Z");
    assert_eq!(file, "/results/INFRA_FAILURES.json");
    let v: serde_json::Value = serde_json::from_str(&text).unwrap();
    assert!(text.contains("b/bad") && !text.contains("b/good"), "{text}");
    assert!(v.as_object().is_some_and(|o| o.values().any(|x| x == "2026-01-02T03:04:05Z")));
}

#[test]
fn only_the_end_of_a_transcript_is_read() {
    assert_eq!(tail_start(0), 0);
    assert_eq!(tail_start(TAIL_BYTES), 0);
    assert_eq!(tail_start(TAIL_BYTES + 7), 7);
}

#[test]
fn what_stands_before_the_end_of_a_transcript_is_no_part_of_its_verdict() {
    let end = format!("{}\n{CLEAN}\n", "x".repeat(TAIL_BYTES as usize));
    let end = &end.as_bytes()[end.len() - TAIL_BYTES as usize..];
    let of = |b: &[u8]| {
        format!("{:?}", classify_content("/l", Ok(b), LogFormat::StreamJson, Exit::Success))
    };
    let mut whole = format!("{DEAD}\n").into_bytes();
    assert_ne!(of(&whole), of(end));
    whole.extend_from_slice(end);
    assert_eq!(of(&whole), of(end));
    assert!(classify_content("/l", Ok(end), LogFormat::StreamJson, Exit::Success)
        .completed()
        .is_some());
    match classify_content("/l", Err("gone".into()), LogFormat::StreamJson, Exit::Success) {
        Health::Unknown { why } => assert_eq!(why, "cannot read /l: gone"),
        other => panic!("{other:?}"),
    }
}

#[test]
fn bytes_that_are_no_text_are_read_as_replacements() {
    match read_tail(b"a\xffb") {
        Tail::Read(t) => assert_eq!(t, "a\u{fffd}b"),
        other => panic!("{other:?}"),
    }
    match read_tail("é".as_bytes()) {
        Tail::Read(t) => assert_eq!(t, "é"),
        other => panic!("{other:?}"),
    }
}

#[test]
fn a_transcript_that_cannot_be_read_is_no_evidence() {
    let tail = Tail::Unreadable("permission denied".into());
    match classify_log("/l", &tail, LogFormat::StreamJson, Exit::Success) {
        Health::Unknown { why } => assert_eq!(why, "cannot read /l: permission denied"),
        other => panic!("{other:?}"),
    }
    assert_eq!(cost_usd(&tail, LogFormat::StreamJson), None);
}

#[test]
fn the_cost_of_a_run_is_that_of_its_last_record() {
    let two = format!("{}\nnoise\n{CLEAN}\n", CLEAN.replace("4.2", "1.5"));
    let tail = Tail::Read(two);
    assert_eq!(cost_usd(&tail, LogFormat::StreamJson).as_deref(), Some("4.2"));
    assert_eq!(cost_usd(&tail, LogFormat::Opaque), None);
    assert_eq!(cost_usd(&Tail::Read(DEAD.into()), LogFormat::StreamJson), None);
}
