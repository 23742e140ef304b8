//! Models by their provider, and how a run of them is configured.

use harvest_tools::opencode::agent_definition;
use harvest_tools::opencode::extract_limits;
use harvest_tools::opencode::invoke;
use harvest_tools::opencode::output_cap;
use harvest_tools::opencode::Asked;
use harvest_tools::opencode::CAP_VARIABLE;
use harvest_tools::opencode::load_model_limits;
use harvest_tools::opencode::materialize_config;
use harvest_tools::opencode::parse_model;
use harvest_tools::opencode::permission_shape;
use harvest_tools::opencode::project_config;
use harvest_tools::opencode::prompt_suffix;
use harvest_tools::opencode::results_slug;
use harvest_tools::opencode::xdg_config_dir;
use harvest_tools::opencode::Model;
use harvest_tools::opencode::ModelLimits;
use harvest_tools::opencode::Phase;
use harvest_tools::program;

fn sonnet(region: &str) -> String {
    program::named(&format!("{region}anthropic."), "-sonnet-5")
}

fn bedrock_sonnet() -> Model {
    parse_model(&format!("amazon-bedrock/{}", sonnet("us."))).unwrap()
}

#[test]
fn parse_model_accepts_provider_slash_model() {
    let m = bedrock_sonnet();
    assert_eq!(m.provider, "amazon-bedrock");
    assert_eq!(m.model_id, sonnet("us."));
    assert_eq!(m.as_arg(), format!("amazon-bedrock/{}", sonnet("us.")));
}

#[test]
fn parse_model_rejects_bare_model_name() {
    assert!(parse_model(&program::named("", "-sonnet-5")).is_err());
    assert!(parse_model("").is_err());
    assert!(parse_model("/model").is_err());
    assert!(parse_model("provider/").is_err());
}

#[test]
fn the_refusal_of_a_model_names_it_and_gives_examples() {
    let e = parse_model("sonnet").unwrap_err();
    assert!(e.starts_with("--agent opencode needs --model <provider>/<model-id>, got \"sonnet\".\n"));
    assert!(e.contains(&format!("\n  amazon-bedrock/{}\n", sonnet("us."))));
    assert!(e.ends_with("\n  openrouter/deepseek/deepseek-v4-pro"));
}

#[test]
fn metadata_id_strips_routing_suffix() {
    let m = parse_model("openrouter/deepseek/deepseek-v4-pro:floor").unwrap();
    assert_eq!(m.as_arg(), "openrouter/deepseek/deepseek-v4-pro:floor");
    assert_eq!(m.metadata_id(), "deepseek/deepseek-v4-pro");
}

#[test]
fn results_slug_drops_region_and_vendor_prefixes() {
    for region in ["us.", "eu.", "global.", "au.", "jp."] {
        let m = parse_model(&format!("amazon-bedrock/{}", sonnet(region))).unwrap();
        assert_eq!(results_slug(&m), program::named("opencode-", "-sonnet-5"), "region {region}");
    }
    let gpt = parse_model("amazon-bedrock/openai.gpt-5.5").unwrap();
    assert_eq!(results_slug(&gpt), "opencode-gpt-5.5");
    let dsk = parse_model("openrouter/deepseek/deepseek-v4-pro").unwrap();
    assert_eq!(results_slug(&dsk), "opencode-deepseek-v4-pro");
    for id in ["openai.gpt-5.5:floor", "us.openai.gpt-5.5:floor", "jp.openai.gpt-5.5"] {
        let m = parse_model(&format!("amazon-bedrock/{id}")).unwrap();
        assert_eq!(results_slug(&m), "opencode-gpt-5.5", "{id}");
    }
}

#[test]
fn project_config_denies_before_allowing_tempdir() {
    let cfg = project_config("/tmp/harvest-xyz", &bedrock_sonnet(), None, None);
    let deny = cfg.find(r#""*": "deny""#).expect("catch-all deny present");
    let allow = cfg.find("/tmp/harvest-xyz/**").expect("tempdir allow present");
    assert!(deny < allow, "deny must precede allow, got:\n{cfg}");
}

#[test]
fn project_config_is_valid_json_with_bedrock_block() {
    let cfg = project_config("/tmp/harvest-xyz", &bedrock_sonnet(), None, None);
    let v: serde_json::Value = serde_json::from_str(&cfg).expect("valid JSON");
    let opts = v.pointer("/provider/amazon-bedrock/options").expect("bedrock options");
    assert!(opts.get("region").and_then(|r| r.as_str()).is_some());
    assert_eq!(
        v.pointer("/permission/external_directory/*").and_then(|d| d.as_str()),
        Some("deny"),
    );
}

#[test]
fn the_region_and_the_profile_of_the_environment_reach_the_configuration() {
    let cfg = project_config("/tmp/x", &bedrock_sonnet(), Some("eu-west-1"), Some("work"));
    let v: serde_json::Value = serde_json::from_str(&cfg).expect("valid JSON");
    let opts = v.pointer("/provider/amazon-bedrock/options").expect("bedrock options");
    assert_eq!(opts.get("region").and_then(|r| r.as_str()), Some("eu-west-1"));
    assert_eq!(opts.get("profile").and_then(|r| r.as_str()), Some("work"));
}

#[test]
fn project_config_omits_bedrock_block_for_other_providers() {
    let m = parse_model("openrouter/deepseek/deepseek-v4-pro").unwrap();
    let cfg = project_config("/tmp/harvest-xyz", &m, None, None);
    let v: serde_json::Value = serde_json::from_str(&cfg).expect("valid JSON");
    assert!(v.get("provider").is_none(), "no provider block:\n{cfg}");
    assert!(v.pointer("/permission/external_directory").is_some());
}

#[test]
fn the_permissions_of_a_configuration_are_its_shape() {
    let cfg = project_config("/tmp/harvest-xyz", &bedrock_sonnet(), None, None);
    assert!(cfg.contains(&permission_shape("/tmp/harvest-xyz")));
}

#[test]
fn agent_definition_body_is_empty() {
    let def = agent_definition(Phase::Translate);
    let body = def
        .rsplit_once("---\n")
        .map(|(_, body)| body)
        .expect("frontmatter terminator");
    assert!(body.is_empty(), "agent body must stay empty, got {body:?}");
    assert!(def.contains("mode: primary"));
    assert!(def.contains("webfetch: deny"));
}

#[test]
fn only_verify_recovers_persistent_artifacts() {
    assert_eq!(
        Phase::Verify.recovery_command(),
        Some("cat SYMBOLS.md ERRORS.md CONFIGS.md"),
    );
    assert_eq!(Phase::Translate.recovery_command(), None);
}

#[test]
fn materialize_config_writes_plugin_only_for_verify() {
    let root = "/tmp/harvest-xyz";
    let m = bedrock_sonnet();
    let template = "const RECOVERY = \"{RECOVERY_CMD}\";";

    let files = materialize_config(root, Phase::Translate, &m, None, None, template);
    let there = |p: &str| files.iter().any(|(at, _)| *at == format!("{root}/{p}"));
    assert!(there(".opencode/opencode.json"));
    assert!(there(".opencode/agents/harvest-translate.md"));
    assert_eq!(xdg_config_dir(root), format!("{root}/.opencode-xdg"), "XDG isolation dir");
    assert!(
        !there(".opencode/plugin/compaction-recovery.js"),
        "translate has no artifacts to recover",
    );

    let files = materialize_config(root, Phase::Verify, &m, None, None, template);
    let plugin = files
        .iter()
        .find(|(at, _)| *at == format!("{root}/.opencode/plugin/compaction-recovery.js"))
        .map(|(_, text)| text)
        .expect("verify writes the compaction plugin");
    assert!(plugin.contains("cat SYMBOLS.md ERRORS.md CONFIGS.md"));
    assert!(!plugin.contains("{RECOVERY_CMD}"), "placeholder substituted");
}

#[test]
fn prompt_suffix_carries_both_workarounds() {
    let s = prompt_suffix("/tmp/harvest-xyz");
    assert!(s.contains("/tmp/harvest-xyz"), "boundary names the tempdir");
    assert!(s.contains("Filesystem boundary"));
    assert!(s.contains("output-token cap"));
    assert!(!s.contains("{TEMPDIR}"), "placeholder substituted");
}

#[test]
fn extract_limits_reads_pretty_and_single_line_objects() {
    let id = sonnet("us.");
    let pretty = format!(
        "\n{{\n  \"providerID\": \"amazon-bedrock\",\n  \"id\": \"{id}\",\n  \"limit\": {{ \"context\": 200000, \"output\": 64000 }}\n}}\n"
    );
    assert_eq!(
        extract_limits(&pretty, "amazon-bedrock", &id),
        Some(ModelLimits { context: 200000, output: Some(64000) }),
    );

    let single = r#"{"providerID":"amazon-bedrock","id":"openai.gpt-5.5","limit":{"context":400000}}"#;
    assert_eq!(
        extract_limits(single, "amazon-bedrock", "openai.gpt-5.5"),
        Some(ModelLimits { context: 400000, output: None }),
    );

    assert_eq!(extract_limits(&pretty, "amazon-bedrock", "openai.gpt-5.5"), None);
}

#[test]
fn the_first_listing_that_gives_limits_is_the_one_that_counts() {
    let m = parse_model("a/b:floor").unwrap();
    let none = String::from("nothing of use\n");
    let one = String::from(r#"{"providerID":"a","id":"b","limit":{"context":1}}"#);
    let two = String::from(r#"{"providerID":"a","id":"b","limit":{"context":2}}"#);
    assert_eq!(
        load_model_limits(&m, &[none.clone(), one, two]),
        Some(ModelLimits { context: 1, output: None }),
    );
    assert_eq!(load_model_limits(&m, &[none]), None);
}

#[test]
fn the_cap_of_a_response_is_raised_to_what_the_registry_says() {
    let m = parse_model("a/b").unwrap();
    let limits = Some(ModelLimits { context: 9, output: Some(64000) });
    let (cap, note) = output_cap(&m, limits);
    assert_eq!(cap, Some(64000));
    assert_eq!(note, "  opencode: raising output cap to 64000 (opencode#29363 workaround)");

    let (cap, note) = output_cap(&m, None);
    assert_eq!(cap, None);
    assert!(note.contains("could not resolve limits for a/b"));
}

#[test]
fn a_run_is_started_with_its_prompt_its_model_and_its_configuration() {
    let m = parse_model("a/b").unwrap();
    let limits = Some(ModelLimits { context: 9, output: Some(64000) });
    let mut asked = Asked {
        prompt: "do it",
        log: "/w/run.log",
        work_dir: "/w/case",
        tmp_root: "/w",
        openssl_dir: None,
    };
    let (launch, note) = invoke(Phase::Verify, &m, 7, &asked, limits);
    assert_eq!(launch.args.len(), 2);
    assert_eq!(launch.args[0], "-c");
    assert!(launch.args[1].contains("timeout 7 opencode run"));
    assert!(launch.args[1].contains("--agent harvest-verify "));
    assert_eq!(launch.cwd.as_deref(), Some("/w/case"));
    let of = |n: &str, v: &str| (n.to_string(), v.to_string());
    assert_eq!(
        launch.env,
        [
            of("PROMPT", "do it"),
            of("LOG", "/w/run.log"),
            of("MODEL", "a/b"),
            of("OPENSSL_DIR", "/usr"),
            of("XDG_CONFIG_HOME", "/w/.opencode-xdg"),
            of(CAP_VARIABLE, "64000"),
        ]
    );
    assert_eq!(note, "  opencode: raising output cap to 64000 (opencode#29363 workaround)");

    asked.openssl_dir = Some("/opt/ssl");
    let (launch, _) = invoke(Phase::Verify, &m, 7, &asked, None);
    assert_eq!(launch.env.len(), 5, "no cap is set where none is known");
    assert_eq!(launch.env[3], of("OPENSSL_DIR", "/opt/ssl"));
}
