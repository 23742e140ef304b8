//! What became of a run, read off its transcript and its exit.

use harvest_tools::domain::health::classify;
use harvest_tools::domain::health::provider_transient;
use harvest_tools::domain::health::Exit;
use harvest_tools::domain::health::Health;
use harvest_tools::domain::health::LogFormat;
use harvest_tools::domain::health::RefusalKind;

#[test]
fn a_provider_transient_is_infra_and_a_tool_failure_is_still_unknown() {
    let kiro =
        "Kiro is having trouble responding right now:\n    The model you've selected is \
                temporarily unavailable. Please relaunch with '--model <model_id>'.";
    let h = classify(kiro, LogFormat::Opaque, Exit::Failure { code: Some(1) });
    assert!(
        matches!(&h, Health::Infra { reason, .. } if reason == "model_unavailable"),
        "the provider's own words must be read as infra: {h:?}"
    );
    assert!(h.is_infra(), "so that it can be refused");

    let real = "error: could not compile `translation` due to 12 previous errors";
    let h = classify(real, LogFormat::Opaque, Exit::Failure { code: Some(1) });
    assert!(matches!(h, Health::Unknown { .. }), "{h:?}");

    for (text, want) in [
        (
            "Model is temporarily unavailable",
            Some("model_unavailable"),
        ),
        ("ThrottlingException: Too many requests", Some("throttled")),
        ("503 Service Unavailable", Some("service_unavailable")),
        ("assertion failed: left == right", None),
    ] {
        assert_eq!(provider_transient(text), want, "{text}");
    }
}

#[test]
fn a_kill_while_still_working_is_the_tools_answer_not_an_infra_failure() {
    let log = "MISMATCH ...\n1500 cases, 7 real mismatches\n";
    let worked = classify(log, LogFormat::Opaque, Exit::Exhausted);
    assert!(worked.is_tool_answer_failure(), "got {worked:?}");
    assert!(
        !worked.is_infra(),
        "the tool was given the budget and used it"
    );
    assert!(!worked.is_completed(), "and it did not finish");

    let hung = classify(log, LogFormat::Opaque, Exit::Timeout);
    assert!(
        hung.is_infra() && !hung.is_tool_answer_failure(),
        "got {hung:?}"
    );
}

#[test]
fn a_provider_content_refusal_is_not_an_infrastructure_failure() {
    let tail = r#"{"type":"turn.failed","error":{"message":"This request has been flagged for potentially high-risk cyber activity. Learn more here: https://platform.openai.com/docs/guides/safety-checks/cybersecurity"}}"#;
    let h = classify(tail, LogFormat::CodexJson, Exit::Failure { code: Some(1) });
    assert_eq!(
        h.refusal(),
        Some(&RefusalKind::HighRiskCyberActivity),
        "got {h:?}"
    );
    assert!(
        !h.is_infra(),
        "this is no failure of the transport"
    );
    assert!(!h.is_completed(), "and it certainly did not complete");

    let plain = classify(
        r#"{"type":"turn.failed","error":{"message":"upstream connect error"}}"#,
        LogFormat::CodexJson,
        Exit::Failure { code: Some(1) },
    );
    assert!(
        plain.is_infra() && plain.refusal().is_none(),
        "got {plain:?}"
    );
}

const DEAD: &str = r#"{"type":"system","subtype":"api_retry","attempt":4,"error_status":403}
{"type":"result","subtype":"success","is_error":true,"terminal_reason":"api_error","api_error_status":403,"duration_ms":4569000,"num_turns":12,"result":"Failed to authenticate. API Error: 403 The security token included in the request is expired","session_id":"abc"}"#;

const CLEAN: &str = r#"{"type":"result","subtype":"success","is_error":false,"terminal_reason":"completed","duration_ms":573254,"num_turns":88,"total_cost_usd":4.2,"result":"Verified. c_src/ was not modified.","session_id":"def"}"#;

fn from_log(text: &str) -> Health {
    classify(text, LogFormat::StreamJson, Exit::Unobserved)
}

#[test]
fn a_finished_codex_run_is_completed_and_a_dead_one_is_infra() {
    let done = r#"{"type":"item.completed","item":{"id":"item_34","type":"command_execution","exit_code":0}}
{"type":"turn.completed","usage":{"input_tokens":230888,"output_tokens":4573}}"#;
    assert_eq!(
        classify(done, LogFormat::CodexJson, Exit::Success),
        Health::Completed,
        "a completed codex turn is a result"
    );
    assert!(
        matches!(
            classify(done, LogFormat::StreamJson, Exit::Success),
            Health::Infra { .. }
        ),
        "read as the other format it looks dead"
    );

    let dead = r#"{"type":"error","message":"unexpected status 404 Not Found: The model does not exist"}
{"type":"turn.failed","error":{"message":"unexpected status 404 Not Found"}}"#;
    let Health::Infra { reason, .. } = classify(dead, LogFormat::CodexJson, Exit::Success)
    else {
        panic!("turn.failed with no turn.completed is a dead run, whatever the exit status")
    };
    assert_eq!(reason, "turn.failed");

    let cut = r#"{"type":"turn.started"}"#;
    assert!(matches!(
        classify(cut, LogFormat::CodexJson, Exit::Success),
        Health::Infra { .. }
    ));
}

#[test]
fn a_credential_expiry_is_infra_despite_subtype_success() {
    match from_log(DEAD) {
        Health::Infra { reason, detail } => {
            assert_eq!(reason, "api_error");
            assert!(
                detail.contains("HTTP 403"),
                "detail should name the status: {detail}"
            );
            assert!(
                detail.contains("expired"),
                "detail should carry the message: {detail}"
            );
        }
        other => panic!("expected Infra, got {other:?}"),
    }
}

#[test]
fn subtype_success_alone_never_makes_a_run_healthy() {
    assert!(from_log(DEAD).is_infra());
    assert!(
        DEAD.contains("\"subtype\":\"success\""),
        "fixture must retain the trap"
    );
}

#[test]
fn a_completed_run_is_completed() {
    assert_eq!(from_log(CLEAN), Health::Completed);
}

#[test]
fn a_completed_run_that_failed_verification_is_still_completed() {
    let body = CLEAN.replace(
        "Verified. c_src/ was not modified.",
        "Phase B found a divergence; the Rust port returns 0 where C returns -1.",
    );
    assert_eq!(from_log(&body), Health::Completed);
}

#[test]
fn a_truncated_log_is_infra_not_silently_ok() {
    match from_log("{\"type\":\"system\",\"subtype\":\"init\"}\n{\"type\":\"assistant\"}\n") {
        Health::Infra { reason, .. } => assert_eq!(reason, "truncated"),
        other => panic!("expected Infra/truncated, got {other:?}"),
    }
}

#[test]
fn a_kiro_log_is_unknown_not_a_failure() {
    assert!(matches!(
        from_log("Credits: 1.25\nTime: 3m 4s\n"),
        Health::Unknown { .. }
    ));
}

#[test]
fn stderr_interleaved_into_the_stream_does_not_break_parsing() {
    assert_eq!(
        from_log(&format!("warning: something on stderr\n{CLEAN}\n")),
        Health::Completed
    );
}

#[test]
fn the_last_terminal_record_wins() {
    assert_eq!(
        from_log(&format!("{DEAD}\n{CLEAN}\n")),
        Health::Completed,
        "later record must win"
    );
}

#[test]
fn an_opaque_log_that_exited_cleanly_can_be_sealed() {
    let log = "Finished release [optimized] target(s)\n";
    assert_eq!(
        classify(log, LogFormat::Opaque, Exit::Success),
        Health::Completed
    );
    assert!(
        classify(log, LogFormat::Opaque, Exit::Success).is_completed(),
        "an opaque log with a clean exit is the one case that classifies completed"
    );
    assert!(!from_log(log).is_completed());
}

#[test]
fn an_opaque_log_never_completes_on_a_failure_or_without_an_observation() {
    for exit in [
        Exit::Failure { code: Some(1) },
        Exit::Failure { code: None },
        Exit::Timeout,
        Exit::Unobserved,
    ] {
        assert!(
            !classify("error: could not compile\n", LogFormat::Opaque, exit).is_completed(),
            "must not classify {exit:?} as completed"
        );
    }
}

#[test]
fn a_failing_tool_stays_in_the_denominator_but_a_timeout_does_not() {
    let log = "c2rust: unsupported construct\n";
    assert!(
        !classify(log, LogFormat::Opaque, Exit::Failure { code: Some(1) }).is_infra(),
        "a failed translation is a result, not an infra failure"
    );
    assert!(classify(log, LogFormat::Opaque, Exit::Timeout).is_infra());
}

#[test]
fn a_stream_json_verdict_is_never_overridden_by_the_exit_code() {
    for exit in [
        Exit::Success,
        Exit::Failure { code: Some(137) },
        Exit::Timeout,
        Exit::Unobserved,
    ] {
        assert_eq!(
            classify(CLEAN, LogFormat::StreamJson, exit),
            Health::Completed,
            "terminal record is authoritative for {exit:?}"
        );
        assert!(classify(DEAD, LogFormat::StreamJson, exit).is_infra());
    }
}
