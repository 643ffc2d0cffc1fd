use ds_free_api::config::{
    default_api_base, default_client_locale, default_client_platform, default_client_version,
    default_cors_origins, default_input_character_limits, default_max_input_tokens,
    default_max_output_tokens, default_model_types, default_tool_call_ends,
    default_tool_call_starts, default_user_agent, default_wasm_url, registry_from_keys, Account,
    AdminConfig, ApiKeyEntry, Config, ConfigError, DsCoreSection, ProxyConfig, ServerConfig,
    ToolCallTagConfig,
};

fn s(x: &str) -> String {
    x.to_string()
}

fn strings(xs: &[&str]) -> Vec<String> {
    xs.iter().map(|x| x.to_string()).collect()
}

fn account(email: &str, mobile: &str) -> Account {
    Account { email: s(email), mobile: s(mobile), area_code: s("+86"), password: s("pw") }
}

fn key(k: &str) -> ApiKeyEntry {
    ApiKeyEntry { key: s(k), description: s("d") }
}

fn base_config() -> Config {
    Config {
        ds_core: DsCoreSection::default(),
        server: ServerConfig { host: s("127.0.0.1"), port: 22217, cors_origins: default_cors_origins() },
        proxy: ProxyConfig::default(),
        admin: AdminConfig::default(),
        api_keys: Vec::new(),
    }
}

fn validation_message(r: Result<(), ConfigError>) -> String {
    match r {
        Err(ConfigError::Validation(m)) => m,
        other => panic!("expected a validation error, got {:?}", other),
    }
}

// ── Defaults ────────────────────────────────────────────────────────────

#[test]
fn default_string_values() {
    assert_eq!(default_api_base(), "https://chat.deepseek.com/api/v0");
    assert_eq!(
        default_wasm_url(),
        "https://fe-static.deepseek.com/chat/static/sha3_wasm_bg.7b9ca65ddd.wasm"
    );
    assert_eq!(default_user_agent(), "DeepSeek/2.1.1 Android/35");
    assert_eq!(default_client_version(), "2.0.0");
    assert_eq!(default_client_platform(), "android");
    assert_eq!(default_client_locale(), "zh_CN");
    assert_eq!(default_cors_origins(), strings(&["http://localhost:22217"]));
}

#[test]
fn default_model_lists_are_aligned() {
    assert_eq!(default_model_types(), strings(&["default", "expert", "vision"]));
    assert_eq!(default_max_input_tokens(), vec![1_048_576, 1_048_576, 1_048_576]);
    assert_eq!(default_max_output_tokens(), vec![384_000, 384_000, 384_000]);
    assert_eq!(default_input_character_limits(), vec![2_621_440, 163_840, 2_621_440]);
}

#[test]
fn default_tool_call_tags() {
    assert_eq!(
        default_tool_call_starts(),
        strings(&["<|tool_call_begin|>", "<tool_calls>", "<tool_call>"])
    );
    assert_eq!(default_tool_call_ends(), strings(&["<|tool_call_end|>", "</tool_calls>", "</tool_call>"]));
    let t = ToolCallTagConfig::default();
    assert_eq!(t.extra_starts, default_tool_call_starts());
    assert_eq!(t.extra_ends, default_tool_call_ends());
}

#[test]
fn default_core_section() {
    let c = DsCoreSection::default();
    assert!(c.accounts.is_empty());
    assert!(c.model_aliases.is_empty());
    assert_eq!(c.api_base, default_api_base());
    assert_eq!(c.wasm_url, default_wasm_url());
    assert_eq!(c.user_agent, default_user_agent());
    assert_eq!(c.model_types, default_model_types());
    assert_eq!(c.max_input_tokens, default_max_input_tokens());
    assert_eq!(c.tool_call.extra_starts, default_tool_call_starts());
}

#[test]
fn default_admin_and_proxy_are_empty() {
    let a = AdminConfig::default();
    assert_eq!(a.password_hash, "");
    assert_eq!(a.jwt_secret, "");
    assert_eq!(a.jwt_issued_at, 0);
    assert_eq!(a.old_password, "");
    assert_eq!(a.new_password, "");
    assert!(ProxyConfig::default().url.is_none());
}

// ── Model registry ──────────────────────────────────────────────────────

#[test]
fn registry_maps_every_default_model_id() {
    let reg = DsCoreSection::default().model_registry();
    assert_eq!(reg.len(), 3);
    assert_eq!(reg.get("deepseek-default"), Some(&s("default")));
    assert_eq!(reg.get("deepseek-expert"), Some(&s("expert")));
    assert_eq!(reg.get("deepseek-vision"), Some(&s("vision")));
}

#[test]
fn registry_skips_empty_aliases_and_adds_others() {
    let mut c = DsCoreSection::default();
    c.model_aliases = strings(&["", "deepseek-v4-pro"]);
    let reg = c.model_registry();
    assert_eq!(reg.len(), 4);
    assert_eq!(reg.get("deepseek-v4-pro"), Some(&s("expert")));
    assert!(reg.get("").is_none());
}

#[test]
fn registry_trims_and_lowercases() {
    let mut c = DsCoreSection::default();
    c.model_types = strings(&["Expert"]);
    c.model_aliases = strings(&["  Pro-MAX \t", "ignored-beyond-types"]);
    let reg = c.model_registry();
    assert_eq!(reg.len(), 2);
    assert_eq!(reg.get("deepseek-expert"), Some(&s("Expert")));
    assert_eq!(reg.get("pro-max"), Some(&s("Expert")));
    assert!(reg.get("ignored-beyond-types").is_none());
    // A whitespace-only alias is empty once trimmed.
    c.model_aliases = strings(&[" \u{3000} "]);
    assert_eq!(c.model_registry().len(), 1);
}

#[test]
fn registry_later_entries_win() {
    let types = strings(&["a", "b"]);
    let ids = strings(&["x", "x"]);
    let reg = registry_from_keys(&types, &ids, &Vec::new());
    assert_eq!(reg.len(), 1);
    assert_eq!(reg.get("x"), Some(&s("b")));
    let reg = registry_from_keys(&types, &strings(&["x", "y"]), &strings(&["y", ""]));
    assert_eq!(reg.get("y"), Some(&s("b")));
    assert_eq!(reg.get("x"), Some(&s("a")));
}

#[test]
fn registry_values_are_model_types() {
    let mut c = DsCoreSection::default();
    c.model_aliases = strings(&["fast", "", "see"]);
    let reg = c.model_registry();
    for k in ["deepseek-default", "deepseek-expert", "deepseek-vision", "fast", "see"] {
        let v = reg.get(k).expect("key present");
        assert!(c.model_types.contains(v));
    }
    assert_eq!(reg.len(), 5);
}

// ── Account de-duplication ──────────────────────────────────────────────

#[test]
fn dedup_keeps_first_by_email_else_mobile() {
    let mut c = base_config();
    c.ds_core.accounts = vec![
        account("a@x.com", ""),
        account("b@x.com", "1"),
        account("a@x.com", "2"),
        account("", "138"),
        account("", "138"),
        account("c@x.com", "138"),
    ];
    c.dedup_accounts();
    let keys: Vec<(String, String)> =
        c.ds_core.accounts.iter().map(|a| (a.email.clone(), a.mobile.clone())).collect();
    assert_eq!(
        keys,
        vec![
            (s("a@x.com"), s("")),
            (s("b@x.com"), s("1")),
            (s(""), s("138")),
            (s("c@x.com"), s("138")),
        ]
    );
}

#[test]
fn dedup_is_idempotent_and_distinct() {
    let mut c = base_config();
    c.ds_core.accounts = vec![account("m", ""), account("", "m"), account("n", ""), account("m", "x")];
    c.dedup_accounts();
    let once: Vec<String> = c.ds_core.accounts.iter().map(|a| a.email.clone() + "|" + &a.mobile).collect();
    assert_eq!(once, strings(&["m|", "n|"]));
    c.dedup_accounts();
    let twice: Vec<String> = c.ds_core.accounts.iter().map(|a| a.email.clone() + "|" + &a.mobile).collect();
    assert_eq!(once, twice);
}

#[test]
fn dedup_leaves_other_fields() {
    let mut c = base_config();
    c.api_keys = vec![key("k")];
    c.ds_core.accounts = vec![account("a", ""), account("a", "")];
    c.dedup_accounts();
    assert_eq!(c.ds_core.accounts.len(), 1);
    assert_eq!(c.api_keys.len(), 1);
    assert_eq!(c.server.port, 22217);
}

// ── Validation ──────────────────────────────────────────────────────────

#[test]
fn validate_accepts_default_limits() {
    let mut c = base_config();
    c.api_keys = vec![key("a"), key("b")];
    assert!(c.validate().is_ok());
}

#[test]
fn validate_rejects_empty_model_types() {
    let mut c = base_config();
    c.ds_core.model_types.clear();
    assert_eq!(validation_message(c.validate()), "model_types 不能为空");
}

#[test]
fn validate_reports_each_length_mismatch() {
    let mut c = base_config();
    c.ds_core.max_input_tokens = vec![1, 2];
    assert_eq!(
        validation_message(c.validate()),
        "max_input_tokens 长度(2)必须与 model_types 长度(3)一致"
    );
    let mut c = base_config();
    c.ds_core.max_output_tokens = vec![];
    assert_eq!(
        validation_message(c.validate()),
        "max_output_tokens 长度(0)必须与 model_types 长度(3)一致"
    );
    let mut c = base_config();
    c.ds_core.input_character_limits = vec![7; 12];
    assert_eq!(
        validation_message(c.validate()),
        "input_character_limits 长度(12)必须与 model_types 长度(3)一致"
    );
}

#[test]
fn validate_reports_first_repeated_key() {
    let mut c = base_config();
    c.api_keys = vec![key("k1"), key("k2"), key("k2"), key("k1")];
    assert_eq!(validation_message(c.validate()), "API key 重复: k2...");
    c.api_keys = vec![key("sk-1234567890abcdef"), key("x"), key("sk-1234567890abcdef")];
    assert_eq!(validation_message(c.validate()), "API key 重复: sk-123456789...");
    c.api_keys = vec![key("twelve-bytes"), key("twelve-bytes")];
    assert_eq!(validation_message(c.validate()), "API key 重复: twelve-bytes...");
}

#[test]
fn validate_cuts_multibyte_key_on_boundary() {
    let mut c = base_config();
    c.api_keys = vec![key("中文中文中文"), key("中文中文中文")];
    assert!(!c.validation_would_panic());
    assert_eq!(validation_message(c.validate()), "API key 重复: 中文中文...");
}

#[test]
fn validation_would_panic_only_inside_a_char() {
    let mut c = base_config();
    c.api_keys = vec![key("a中文中文中文中"), key("a中文中文中文中")];
    assert!(c.validation_would_panic());
    // The same key is harmless when it is not repeated.
    c.api_keys = vec![key("a中文中文中文中")];
    assert!(!c.validation_would_panic());
    // And when an earlier check already fails.
    c.api_keys = vec![key("a中文中文中文中"), key("a中文中文中文中")];
    c.ds_core.model_types.clear();
    assert!(!c.validation_would_panic());
}

#[test]
fn valid_config_has_one_limit_per_model() {
    let mut c = base_config();
    c.ds_core.model_types = strings(&["one"]);
    c.ds_core.max_input_tokens = vec![1];
    c.ds_core.max_output_tokens = vec![2];
    c.ds_core.input_character_limits = vec![3];
    assert!(c.validate().is_ok());
    c.ds_core.input_character_limits = vec![3, 4];
    assert!(c.validate().is_err());
}

// ── Loading ─────────────────────────────────────────────────────────────

#[test]
fn from_parsed_dedups_then_validates() {
    let mut c = base_config();
    c.ds_core.accounts = vec![account("a", ""), account("a", "9")];
    let loaded = Config::from_parsed(c).expect("valid");
    assert_eq!(loaded.ds_core.accounts.len(), 1);
    assert_eq!(loaded.ds_core.accounts[0].mobile, "");

    let mut bad = base_config();
    bad.api_keys = vec![key("z"), key("z")];
    match Config::from_parsed(bad) {
        Err(ConfigError::Validation(m)) => assert_eq!(m, "API key 重复: z..."),
        _ => panic!("expected validation error"),
    }
}

#[test]
fn first_run_default_config() {
    let c = Config::first_run_default();
    assert_eq!(c.server.host, "0.0.0.0");
    assert_eq!(c.server.port, 7860);
    assert_eq!(c.server.cors_origins, strings(&["*"]));
    assert!(c.proxy.url.is_none());
    assert!(c.api_keys.is_empty());
    assert!(c.ds_core.accounts.is_empty());
    assert_eq!(c.ds_core.model_types, default_model_types());
    assert!(c.validate().is_ok());
}

#[test]
fn parse_config_args_cases() {
    let ok = |a: &[&str]| match Config::parse_config_args(&strings(a)) {
        Ok(p) => p,
        Err(_) => panic!("unexpected error"),
    };
    assert_eq!(ok(&[]), None);
    assert_eq!(ok(&["prog"]), None);
    assert_eq!(ok(&["prog", "-c", "a.toml"]), Some(s("a.toml")));
    assert_eq!(ok(&["prog", "-c", "a.toml", "-v", "-c", "b.toml"]), Some(s("b.toml")));
    assert_eq!(ok(&["-c", "x"]), None);
    assert_eq!(ok(&["prog", "-c", "-c"]), Some(s("-c")));
    match Config::parse_config_args(&strings(&["prog", "-c"])) {
        Err(ConfigError::Cli(m)) => assert_eq!(m, "-c 参数需要指定路径"),
        _ => panic!("expected cli error"),
    }
    match Config::parse_config_args(&strings(&["prog", "-c", "a", "-c"])) {
        Err(ConfigError::Cli(_)) => {}
        _ => panic!("expected cli error"),
    }
}

#[test]
fn resolve_config_path_priority() {
    assert_eq!(Config::resolve_config_path(Some(s("a")), Some(s("b"))), "a");
    assert_eq!(Config::resolve_config_path(None, Some(s("b"))), "b");
    assert_eq!(Config::resolve_config_path(None, None), "config.toml");
}

#[test]
fn missing_file_outcomes() {
    match Config::when_file_missing(true, "/no/such.toml") {
        Err(ConfigError::Io(e)) => {
            assert_eq!(e.kind(), std::io::ErrorKind::NotFound);
            assert_eq!(e.to_string(), "指定配置文件不存在: /no/such.toml");
        }
        _ => panic!("expected an io error"),
    }
    let c = Config::when_file_missing(false, "config.toml").expect("default");
    assert_eq!(c.server.port, 7860);
}
