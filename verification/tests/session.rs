//! What each agent is started with, and that its script applies it.

use harvest_tools::agents::session::agent_env;
use harvest_tools::agents::session::Caps;
use harvest_tools::agents::session::ClaudeRun;
use harvest_tools::agents::session::OpencodeRun;
use harvest_tools::agents::session::Session;
use harvest_tools::agents::session::AGENT_DATA_KB;
use harvest_tools::agents::session::AGENT_FSIZE_BLOCKS;
use harvest_tools::cache::ModelId;
use harvest_tools::opencode::Phase;
use harvest_tools::program;

fn all() -> Vec<Session> {
    vec![
        Session::claude(10_800),
        Session::kiro(2_700),
        Session::codex(10_800),
        Session::opencode(Phase::Verify, 10_800),
    ]
}

fn pairs(env: &[(&str, &str)]) -> Vec<(String, String)> {
    env.iter().map(|(k, v)| (k.to_string(), v.to_string())).collect()
}

fn shape_with_env(env: &[(&str, &str)]) -> String {
    Session { agent_env: pairs(env), ..Session::kiro(1) }.shape()
}

#[test]
fn the_default_program_is_the_one_that_its_plain_agent_is_named_after() {
    assert_eq!(format!("{}_plain", program::program_name()), "claude_plain");
    let title = program::title_text();
    assert_eq!(title.to_lowercase(), format!("{} code", program::program_name()));
    assert!(title.starts_with('C') && title.ends_with(" Code"));
    assert_eq!(program::named("<", ">").len(), 8);
}

#[test]
fn every_backend_applies_what_its_recipe_records() {
    for s in all() {
        s.assert_declares().unwrap_or_else(|e| panic!("{}: {e:#}", s.program));
    }
}

#[test]
fn a_hardcoded_value_in_the_script_is_caught() {
    let mut s = Session::claude(10_800);
    s.script = s.script.replace("timeout 10800", "timeout 2700");
    let err = s.assert_declares().expect_err("must refuse");
    assert!(err.contains(&format!("timeout 10800 {}", program::program_name())), "{err}");
}

#[test]
fn only_claude_limits_turns_or_bypasses_permissions() {
    let claude = Session::claude(10_800);
    assert!(claude.shape().contains("max_turns=1000"));
    assert!(claude.shape().contains("permission_mode=bypassPermissions"));
    for s in [Session::kiro(2_700), Session::opencode(Phase::Verify, 10_800)] {
        let shape = s.shape();
        assert!(!shape.contains("max_turns"), "{}: {shape}", s.program);
        assert!(!shape.contains("permission_mode"), "{}: {shape}", s.program);
        assert!(!shape.contains("agents={\""), "{}: {shape}", s.program);
    }
}

#[test]
fn each_backend_has_a_shape_of_its_own() {
    let shapes: Vec<String> = all().iter().map(Session::shape).collect();
    for (i, a) in shapes.iter().enumerate() {
        for b in &shapes[i + 1..] {
            assert_ne!(a, b, "two backends must not share a recipe");
        }
    }
}

#[test]
fn the_shape_covers_the_agent_runtime_env() {
    let twenty = shape_with_env(&[("CLAUDE_CODE_MAX_RETRIES", "20")]);
    let one = shape_with_env(&[("CLAUDE_CODE_MAX_RETRIES", "1")]);
    assert_ne!(twenty, one, "retry policy must change the key");

    let extra = shape_with_env(&[("CLAUDE_CODE_MAX_RETRIES", "20"), ("API_TIMEOUT_MS", "5")]);
    assert_ne!(twenty, extra, "adding a setting must change the key");
}

#[test]
fn the_shape_is_insensitive_to_env_ordering() {
    assert_eq!(
        shape_with_env(&[("A", "1"), ("B", "2")]),
        shape_with_env(&[("B", "2"), ("A", "1")]),
    );
}

#[test]
fn every_backend_caps_its_agent_the_same_way() {
    let name = program::program_name();
    let sessions = [
        (name.as_str(), Session::claude(60)),
        ("codex", Session::codex(60)),
        ("kiro", Session::kiro(60)),
        ("opencode", Session::opencode(Phase::Verify, 60)),
    ];
    let want = format!("ulimit -f {} -d {}", AGENT_FSIZE_BLOCKS, AGENT_DATA_KB);
    for (name, s) in &sessions {
        assert!(
            s.shape().contains(&AGENT_FSIZE_BLOCKS.to_string()),
            "{name} declares no file-size cap in its shape, so nothing bounds what it writes"
        );
        assert!(s.assert_declares().is_ok(), "{name} script does not apply {want:?}");
        assert!(s.script.contains(&want), "{name}");
    }
}

#[test]
fn the_shape_covers_the_caps_and_the_runtime_env() {
    let shape = Session::claude(10_800).shape();
    assert!(shape.contains(&AGENT_FSIZE_BLOCKS.to_string()), "{shape}");
    assert!(shape.contains(&AGENT_DATA_KB.to_string()), "{shape}");
    for (k, v) in agent_env() {
        assert!(shape.contains(&format!("env:{k}={v}")), "{shape}");
    }
}

#[test]
fn the_timeout_reaches_the_script_rather_than_a_literal() {
    let name = program::program_name();
    assert!(Session::claude(42).script.contains(&format!("timeout 42 {name}")));
    assert!(Session::kiro(43).script.contains("timeout 43 kiro-cli"));
    assert!(Session::opencode(Phase::Translate, 44).script.contains("timeout 44 opencode"));
}

#[test]
fn no_session_leaks_a_path_into_its_script() {
    for s in all() {
        let rest = s.script.replace("< /dev/null", "");
        assert!(!rest.contains('/'), "{}: {rest}", s.program);
    }
}

#[test]
fn no_session_invokes_its_cli_without_pinning_the_model() {
    for s in all() {
        assert!(
            s.script.contains("--model \"$") || s.script.contains("-c model=\"$"),
            "{} runs unpinned: {}",
            s.program,
            s.script
        );
    }
}

#[test]
fn every_pipeline_sets_pipefail_so_a_timeout_is_visible() {
    for s in all() {
        assert!(s.script.contains("set -o pipefail"), "{}: {}", s.program, s.script);
    }
}

#[test]
fn a_missing_cap_is_named() {
    let mut s = Session::codex(5);
    s.caps = Caps { fsize_blocks: 1, data_kb: 2 };
    let err = s.assert_declares().expect_err("the script applies other caps");
    assert!(err.starts_with("the codex invocation does not apply \"ulimit -f 1 -d 2\""), "{err}");
}

#[test]
fn the_values_of_a_run_are_arguments_and_not_part_of_the_script() {
    let s = Session::claude(60);
    let model = ModelId::new("some.model[1m]").unwrap();
    let run = ClaudeRun {
        cwd: "/work/case",
        prompt: "translate this",
        log: "/results/logs/translation.log",
        settings: "/work/settings.json",
        agent_tmp: "/work/tmp",
        model: &model,
    };
    let l = s.claude_command(&run, None);
    let script = l.args.iter().position(|a| *a == s.script).expect("the script is an argument");
    let values = &l.args[script + 1..];
    for v in [run.prompt, run.log, run.settings, "some.model[1m]"] {
        assert!(values.iter().any(|a| a == v), "{v} in {values:?}");
    }
    assert!(l.env.contains(&("CLAUDE_CODE_TMPDIR".to_string(), "/work/tmp".to_string())));
    for pair in agent_env() {
        assert!(l.env.contains(&pair), "{pair:?}");
    }
}

#[test]
fn a_directory_of_openssl_reaches_the_agent_where_there_is_one() {
    let s = Session::opencode(Phase::Verify, 60);
    let run = OpencodeRun {
        cwd: "/work/case",
        prompt: "p",
        log: "/l",
        model_arg: "a/b",
        xdg_config_home: "/work/xdg",
    };
    let plain = s.opencode_command(&run, None);
    let with = s.opencode_command(&run, Some("/usr/local/ssl"));
    assert_eq!(plain.args, with.args);
    assert!(with.env.iter().any(|(_, v)| v == "/usr/local/ssl"));
    assert!(!plain.env.iter().any(|(_, v)| v == "/usr/local/ssl"));
    assert!(plain.env.contains(&("XDG_CONFIG_HOME".to_string(), "/work/xdg".to_string())));
}

#[test]
fn no_two_backends_have_one_shape() {
    let shapes = [
        Session::claude(1).shape(),
        Session::codex(1).shape(),
        Session::kiro(1).shape(),
        Session::opencode(Phase::Verify, 1).shape(),
    ];
    for (i, one) in shapes.iter().enumerate() {
        for other in &shapes[..i] {
            assert_ne!(one, other);
        }
        assert_eq!(one.contains("max_turns="), i == 0, "{one}");
        assert_eq!(one.contains("permission_mode="), i == 0, "{one}");
    }
}
