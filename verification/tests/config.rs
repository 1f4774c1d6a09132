use romajiagent::config::{
    codex_timeout, config_from, load_config, sidecar_args, without_null_model, AppConfig, Backend,
};
use romajiagent::layout::{default_memory, ensure_layout, layout};
use romajiagent::sidecar::{sidecar_command, SidecarError};
use romajiagent::transform::backend_to_ask;

#[test]
fn backend_parses_aliases() {
    assert_eq!(Backend::parse("codex"), Backend::CodexAppServer);
    assert_eq!(Backend::parse("codex-app-server"), Backend::CodexAppServer);
    assert_eq!(Backend::parse("fallback"), Backend::Fallback);
    assert_eq!(Backend::parse("sidecar"), Backend::Sidecar);
}

#[test]
fn backend_name_is_read_leniently() {
    assert_eq!(Backend::parse(" Codex_App_Server\n"), Backend::CodexAppServer);
    assert_eq!(Backend::parse("FALLBACK"), Backend::Fallback);
    assert_eq!(Backend::parse("something else"), Backend::Sidecar);
    assert_eq!(Backend::parse(""), Backend::Sidecar);
    assert_eq!(Backend::parse("ＣＯＤＥＸ"), Backend::Sidecar);
}

#[test]
fn sidecar_args_adds_model_path_when_missing() {
    let config = AppConfig {
        sidecar_args: vec!["--max-tokens".into(), "64".into()],
        model_path: Some("/models/lfm.gguf".into()),
        ..Default::default()
    };

    assert_eq!(
        sidecar_args(&config),
        vec!["--max-tokens", "64", "--model", "/models/lfm.gguf"]
    );
}

#[test]
fn sidecar_args_does_not_duplicate_explicit_model() {
    let config = AppConfig {
        sidecar_args: vec!["--model".into(), "/explicit/model.gguf".into()],
        model_path: Some("/config/model.gguf".into()),
        ..Default::default()
    };

    assert_eq!(
        sidecar_args(&config),
        vec!["--model", "/explicit/model.gguf"]
    );
}

#[test]
fn sidecar_args_respects_model_with_equals_sign() {
    let config = AppConfig {
        sidecar_args: vec!["--model=/explicit/model.gguf".into()],
        model_path: Some("/config/model.gguf".into()),
        ..Default::default()
    };
    assert_eq!(sidecar_args(&config), vec!["--model=/explicit/model.gguf"]);
}

#[test]
fn sidecar_args_ignores_empty_model_path() {
    let config = AppConfig {
        sidecar_args: vec!["--threads".into(), "2".into()],
        model_path: Some(String::new()),
        ..Default::default()
    };
    assert_eq!(sidecar_args(&config), vec!["--threads", "2"]);
    assert_eq!(sidecar_args(&AppConfig::default()), Vec::<String>::new());
}

#[test]
fn sidecar_args_of_their_own_result_stay() {
    let config = AppConfig {
        sidecar_args: vec!["--models".into()],
        model_path: Some("/m".into()),
        ..Default::default()
    };
    let once = sidecar_args(&config);
    assert_eq!(once, vec!["--models", "--model", "/m"]);
    let again = AppConfig { sidecar_args: once.clone(), ..config };
    assert_eq!(sidecar_args(&again), once);
}

#[test]
fn default_config_is_the_documented_one() {
    let config = AppConfig::default();
    assert_eq!(config.backend, "sidecar");
    assert_eq!(config.shortcut_macos, "Cmd+Shift+J");
    assert_eq!(config.shortcut_other, "Ctrl+Shift+J");
    assert_eq!(config.sidecar_command, None);
    assert_eq!(config.codex_command, "codex");
    assert_eq!(config.codex_args, vec!["app-server"]);
    assert_eq!(config.codex_model, None);
    assert_eq!(config.codex_timeout_ms, 90_000);
}

#[test]
fn missing_config_is_the_default_one() {
    assert_eq!(load_config(None), AppConfig::default());
    let config = AppConfig { backend: "fallback".into(), ..Default::default() };
    assert_eq!(load_config(Some(config.clone())), config);
}

#[test]
fn first_reading_of_a_config_counts() {
    let named = |name: &str| Some(AppConfig { backend: name.into(), ..Default::default() });
    assert_eq!(config_from(named("a"), named("b")).backend, "a");
    assert_eq!(config_from(named("a"), None).backend, "a");
    assert_eq!(config_from(None, named("b")).backend, "b");
    assert_eq!(config_from(None, None), AppConfig::default());
}

#[test]
fn null_model_means_no_model() {
    let text = "backend = \"codex\"\ncodex_model = null # the default\ncodex_timeout_ms = 5\n";
    assert!(text.parse::<toml::Table>().is_err());
    let rest = without_null_model(text);
    assert_eq!(rest, "backend = \"codex\"\ncodex_timeout_ms = 5");
    let table = rest.parse::<toml::Table>().unwrap();
    assert_eq!(table["backend"].as_str(), Some("codex"));
    assert!(!table.contains_key("codex_model"));
}

#[test]
fn other_settings_are_kept() {
    let text = "codex_model = \"null\"\nmodel_path = null\n# codex_model = null\ncodex_model";
    assert_eq!(without_null_model(text), text);
    assert_eq!(without_null_model("  codex_model=null"), "");
}

#[test]
fn codex_timeout_is_a_second_at_least() {
    for (configured, millis) in [(0, 1_000), (999, 1_000), (1_000, 1_000), (90_000, 90_000)] {
        let config = AppConfig { codex_timeout_ms: configured, ..Default::default() };
        assert_eq!(codex_timeout(&config), millis);
    }
}

#[test]
fn fallback_asks_no_backend() {
    let config = AppConfig { backend: "fallback".into(), ..Default::default() };
    assert_eq!(backend_to_ask(&config), Err("fallback backend selected".to_string()));
    assert_eq!(backend_to_ask(&AppConfig::default()), Ok(Backend::Sidecar));
    let config = AppConfig { backend: "codex".into(), ..Default::default() };
    assert_eq!(backend_to_ask(&config), Ok(Backend::CodexAppServer));
}

#[test]
fn sidecar_needs_a_command() {
    let error = sidecar_command(&AppConfig::default()).unwrap_err();
    assert_eq!(error, SidecarError::NotConfigured);
    assert_eq!(error.message(), "sidecar_command is not configured");
    let config = AppConfig { sidecar_command: Some("/bin/x".into()), ..Default::default() };
    assert_eq!(sidecar_command(&config), Ok("/bin/x".to_string()));
}

#[test]
fn layout_names_what_the_app_keeps() {
    let layout = layout();
    assert_eq!(layout.base, ".romaji-agent");
    assert_eq!(layout.codex_workdir, "codex-workdir");
    assert_eq!(layout.config, "config.toml");
    assert_eq!(layout.memory, "memory.md");
    assert_eq!(layout.database, "db.sqlite");
    assert_eq!(layout.ops, vec!["ops"]);
    assert_eq!(layout.models, vec!["models", "lfm"]);
}

#[test]
fn layout_keeps_what_is_there() {
    let plan = ensure_layout(true, true);
    assert!(!plan.write_config);
    assert_eq!(plan.memory, None);
    let plan = ensure_layout(false, false);
    assert!(plan.write_config);
    assert_eq!(plan.memory, Some(default_memory()));
    assert!(default_memory().contains("mtg -> ミーティング\ntodo -> TODO\n"));
    assert!(default_memory().ends_with("tauri -> Tauri\n"));
}
