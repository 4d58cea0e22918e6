use smart_agent::codex::{
    apply_key, plan_key,
    apply_codex_config_from_local_store_blocking, apply_preview, apply_result,
    auth_has_chatgpt_login, backups_newest_first, backups_to_remove, build_model_catalog,
    cc_switch_model_catalog_settings, cc_switch_settings_config, detect_codex_env, ensure_request,
    first_official_login, hold_outcome, hold_step, install_already_done, install_unsupported,
    mask_middle, plan_apply, restore_result, settings_with_current_provider,
    smartagent_config_present, sync_model_selection, tasklist_shows_codex, version_from_output,
    winget_missing, winget_outcome, BackupEntry, CodexProbe, HoldState, HoldStep,
};
use smart_agent::codex_config::{build_config_table, table_points_to_smartagent};
use smart_agent::json::JsonValue;
use smart_agent::store::{logout, LocalStore};
use smart_agent::toml_doc::{TomlTable, TomlValue};

fn obj(fields: Vec<(&str, JsonValue)>) -> JsonValue {
    JsonValue::Object(fields.into_iter().map(|(k, v)| (k.to_string(), v)).collect())
}

fn field<'a>(v: &'a JsonValue, key: &str) -> Option<&'a JsonValue> {
    match v {
        JsonValue::Object(e) => e.iter().rev().find(|(k, _)| k == key).map(|(_, v)| v),
        _ => None,
    }
}

fn strings(v: &[&str]) -> Vec<String> {
    v.iter().map(|s| s.to_string()).collect()
}

fn probe(config: Option<Result<TomlTable, String>>, auth: Option<JsonValue>) -> CodexProbe {
    CodexProbe {
        cli_path: Some("/usr/local/bin/codex".to_string()),
        version: Some("codex-cli 0.50.0".to_string()),
        npm_global: true,
        desktop_installed: false,
        codex_home: "/home/u/.codex".to_string(),
        config_exists: config.is_some(),
        config,
        auth_exists: auth.is_some(),
        auth,
    }
}

#[test]
fn an_official_login_needs_tokens() {
    let with = obj(vec![("tokens", obj(vec![("id_token", JsonValue::Str("x".to_string()))]))]);
    assert!(auth_has_chatgpt_login(&with));
    assert!(!auth_has_chatgpt_login(&obj(vec![("tokens", obj(vec![]))])));
    assert!(!auth_has_chatgpt_login(&obj(vec![("tokens", JsonValue::Null)])));
    assert!(!auth_has_chatgpt_login(&obj(vec![("OPENAI_API_KEY", JsonValue::Str("sk".to_string()))])));
    assert!(auth_has_chatgpt_login(&obj(vec![("tokens", JsonValue::Str("t".to_string()))])));
}

#[test]
fn the_catalog_lists_only_the_active_model() {
    let c = build_model_catalog(&strings(&["a", "b"]), "b");
    let models = match field(&c, "models") {
        Some(JsonValue::Array(m)) => m,
        _ => panic!("no models"),
    };
    assert_eq!(models.len(), 1);
    assert!(matches!(field(&models[0], "slug"), Some(JsonValue::Str(s)) if s == "b"));
    assert!(matches!(field(&models[0], "context_window"), Some(JsonValue::Int(262144))));
    let c = build_model_catalog(&strings(&["a", "b"]), "z");
    match field(&c, "models") {
        Some(JsonValue::Array(m)) => {
            assert!(matches!(field(&m[0], "slug"), Some(JsonValue::Str(s)) if s == "a"))
        }
        _ => panic!("no models"),
    }
    let c = build_model_catalog(&vec![], "z");
    match field(&c, "models") {
        Some(JsonValue::Array(m)) => {
            assert!(matches!(field(&m[0], "slug"), Some(JsonValue::Str(s)) if s == "z"))
        }
        _ => panic!("no models"),
    }
}

#[test]
fn cc_switch_records_skip_blank_models() {
    let c = cc_switch_model_catalog_settings(&strings(&["m1", "  ", "m2"]));
    match field(&c, "models") {
        Some(JsonValue::Array(m)) => {
            assert_eq!(m.len(), 2);
            assert!(matches!(field(&m[1], "displayName"), Some(JsonValue::Str(s)) if s == "m2"));
        }
        _ => panic!("no models"),
    }
    let s = cc_switch_settings_config("sk-1", "model = \"m1\"", &strings(&["m1"]));
    match field(&s, "auth") {
        Some(a) => assert!(matches!(field(a, "OPENAI_API_KEY"), Some(JsonValue::Str(k)) if k == "sk-1")),
        None => panic!("no auth"),
    }
    assert!(matches!(field(&s, "config"), Some(JsonValue::Str(t)) if t == "model = \"m1\""));
}

#[test]
fn cc_switch_settings_get_the_current_provider() {
    let kept = obj(vec![("theme", JsonValue::Str("dark".to_string()))]);
    let s = settings_with_current_provider(Some(kept), "smart-agent");
    assert!(matches!(field(&s, "theme"), Some(JsonValue::Str(t)) if t == "dark"));
    assert!(matches!(field(&s, "currentProviderCodex"), Some(JsonValue::Str(t)) if t == "smart-agent"));
    let s = settings_with_current_provider(Some(JsonValue::Int(3)), "codex-official");
    match &s {
        JsonValue::Object(e) => assert_eq!(e.len(), 1),
        _ => panic!("not an object"),
    }
    let s = settings_with_current_provider(None, "codex-official");
    assert!(matches!(field(&s, "currentProviderCodex"), Some(JsonValue::Str(t)) if t == "codex-official"));
}

#[test]
fn keys_in_the_preview_are_masked() {
    assert_eq!(mask_middle("sk-1234567"), "sk-****");
    assert_eq!(mask_middle("sk-abcdefghijklmnop"), "sk-abcd****mnop");
}

#[test]
fn versions_are_read_from_the_first_line() {
    assert_eq!(version_from_output(true, "  codex-cli 0.50.0 \nmore").as_deref(), Some("codex-cli 0.50.0"));
    assert_eq!(version_from_output(false, "codex-cli 0.50.0"), None);
    assert_eq!(version_from_output(true, ""), None);
    assert_eq!(version_from_output(true, "   \nx"), None);
}

#[test]
fn the_desktop_process_is_found_in_tasklist() {
    assert!(tasklist_shows_codex("\"ChatGPT.exe\",\"1234\",\"Console\""));
    assert!(!tasklist_shows_codex("\"explorer.exe\",\"99\""));
}

#[test]
fn the_environment_report_reads_config_and_auth() {
    let mut cfg = TomlTable::new();
    cfg.insert("cli_auth_credentials_store", TomlValue::Str("keyring".to_string()));
    let cfg = build_config_table(cfg, "m", None).unwrap();
    let auth = obj(vec![("tokens", obj(vec![("a", JsonValue::Int(1))]))]);
    let env = detect_codex_env(probe(Some(Ok(cfg)), Some(auth)));
    assert!(env.installed);
    assert!(env.keyring_warning);
    assert_eq!(env.credentials_store.as_deref(), Some("keyring"));
    assert!(env.provider_configured);
    assert!(env.has_chatgpt_login);
    assert!(env.config_parse_error.is_none());

    let env = detect_codex_env(probe(Some(Err("bad toml".to_string())), None));
    assert_eq!(env.config_parse_error.as_deref(), Some("bad toml"));
    assert!(!env.provider_configured && !env.keyring_warning && !env.has_chatgpt_login);
}

#[test]
fn the_preview_hides_the_site_address() {
    let env = detect_codex_env(probe(None, None));
    let text = "[model_providers.custom]\nbase_url = \"https://api.smart-agent.eu.cc/v1\"\n";
    let p = apply_preview(text, &env);
    assert_eq!(p.config_preview, "[model_providers.custom]\nbase_url = \"<内置站点地址>/v1\"\n");
    assert!(!p.config_preview.contains("smart-agent.eu.cc"));
    assert!(p.auth_preview.starts_with("保留 Codex 官方登录态"));
    assert_eq!(p.codex_home, "/home/u/.codex");
}

#[test]
fn the_setup_never_overwrites_the_official_login() {
    let r = apply_result(Some("/b/1".to_string()), true, false, true);
    assert!(!r.chatgpt_login_overwritten && r.official_login_preserved && r.desktop_model_picker_ready);
    assert!(!r.codex_restarted && r.keyring_warning && !r.cc_switch_synced);
    let r = apply_result(None, false, true, false);
    assert!(!r.official_login_preserved && !r.desktop_model_picker_ready && r.cc_switch_synced);
}

#[test]
fn the_setup_plan_holds_config_stored_copy_and_catalog() {
    let plan = plan_apply(None, "sk-9", "m", &strings(&["m"]));
    assert!(table_points_to_smartagent(&plan.config));
    assert!(table_points_to_smartagent(&plan.stored_config));
    let custom = |t: &TomlTable| -> Option<TomlTable> {
        match t.get("model_providers") {
            Some(TomlValue::Table(p)) => match p.get("custom") {
                Some(TomlValue::Table(c)) => Some(c.copy()),
                _ => None,
            },
            _ => None,
        }
    };
    assert!(matches!(custom(&plan.config).unwrap().get("experimental_bearer_token"), Some(TomlValue::Str(k)) if k == "sk-9"));
    assert!(custom(&plan.stored_config).unwrap().get("experimental_bearer_token").is_none());
    assert!(field(&plan.catalog, "models").is_some());
}

#[test]
fn the_headless_setup_uses_the_saved_key_and_model() {
    let mut store = LocalStore::empty();
    assert_eq!(
        apply_codex_config_from_local_store_blocking(&store).unwrap_err().text(),
        "本机尚未保存 API 令牌，请先在 Smart Agent 登录"
    );
    store.sk_key = Some("sk-1".to_string());
    let r = apply_codex_config_from_local_store_blocking(&store).unwrap();
    assert_eq!((r.sk_key.as_str(), r.model.as_str()), ("sk-1", "gpt-5"));
    assert_eq!(r.models, strings(&["gpt-5"]));
    store.selected_models = strings(&["m2", "m3"]);
    assert_eq!(apply_codex_config_from_local_store_blocking(&store).unwrap().model, "m2");
    store.default_model = Some("m9".to_string());
    assert_eq!(apply_codex_config_from_local_store_blocking(&store).unwrap().model, "m9");
}

#[test]
fn nothing_reconnects_after_logout() {
    let mut store = LocalStore::empty();
    store.sk_key = Some("sk-1".to_string());
    store.codex_desired = true;
    assert_eq!(ensure_request(&store).unwrap().sk_key, "sk-1");
    store.sk_key = Some(String::new());
    assert!(ensure_request(&store).is_none());
    store.sk_key = Some("sk-1".to_string());
    logout(&mut store);
    assert!(ensure_request(&store).is_none());
}

#[test]
fn the_configuration_is_present_only_with_its_catalog() {
    let cfg = build_config_table(TomlTable::new(), "m", None).unwrap();
    assert!(smartagent_config_present(&Some(cfg.copy()), true));
    assert!(!smartagent_config_present(&Some(cfg), false));
    assert!(!smartagent_config_present(&None, true));
    assert!(!smartagent_config_present(&Some(TomlTable::new()), true));
}

#[test]
fn restoring_reports_whether_a_login_was_found() {
    let r = restore_result(true);
    assert!(r.official_login_restored && !r.login_required);
    let r = restore_result(false);
    assert!(!r.official_login_restored && r.login_required);
}

#[test]
fn the_newest_backup_with_a_login_is_chosen() {
    let login = obj(vec![("tokens", obj(vec![("a", JsonValue::Int(1))]))]);
    let key_only = obj(vec![("OPENAI_API_KEY", JsonValue::Str("sk".to_string()))]);
    assert_eq!(first_official_login(&vec![None, Some(key_only), Some(login)]), Some(2));
    assert_eq!(first_official_login(&vec![None]), None);
}

#[test]
fn rotation_keeps_the_ten_newest_backups() {
    let mut entries: Vec<BackupEntry> = (0..12)
        .map(|i| BackupEntry { name: (1000 + i).to_string(), is_dir: true })
        .collect();
    entries.push(BackupEntry { name: "notes".to_string(), is_dir: true });
    entries.push(BackupEntry { name: "5".to_string(), is_dir: false });
    let order = backups_newest_first(&entries);
    assert_eq!(order.len(), 12);
    assert_eq!(order[0], 11);
    assert_eq!(order[11], 0);
    assert_eq!(backups_to_remove(&entries), vec![1, 0]);
    let few: Vec<BackupEntry> = (0..3).map(|i| BackupEntry { name: i.to_string(), is_dir: true }).collect();
    assert!(backups_to_remove(&few).is_empty());
}

#[test]
fn equal_stamps_keep_their_listing_order() {
    let entries = vec![
        BackupEntry { name: "7".to_string(), is_dir: true },
        BackupEntry { name: "9".to_string(), is_dir: true },
        BackupEntry { name: "+7".to_string(), is_dir: true },
    ];
    assert_eq!(backups_newest_first(&entries), vec![1, 0, 2]);
}

#[test]
fn model_sync_touches_only_a_connected_configuration() {
    let cfg = build_config_table(TomlTable::new(), "old", Some("sk")).unwrap();
    assert!(sync_model_selection(false, Some(cfg.copy()), "new", &strings(&["new"])).unwrap().is_none());
    assert!(sync_model_selection(true, None, "new", &strings(&["new"])).unwrap().is_none());
    assert!(sync_model_selection(true, Some(TomlTable::new()), "new", &strings(&["new"])).unwrap().is_none());
    let (t, _catalog) = sync_model_selection(true, Some(cfg), "new", &strings(&["new"])).unwrap().unwrap();
    assert!(matches!(t.get("model"), Some(TomlValue::Str(m)) if m == "new"));
}

#[test]
fn the_watch_waits_for_the_desktop_then_counts() {
    let mut s = HoldState { process_seen: false, stable_ticks: 0, reassert_count: 0 };
    assert!(matches!(hold_step(&mut s, false, true), HoldStep::Wait));
    assert_eq!(s.stable_ticks, 0);
    assert!(matches!(hold_step(&mut s, true, false), HoldStep::Reassert));
    assert_eq!(s.reassert_count, 1);
    for _ in 0..39 {
        assert!(matches!(hold_step(&mut s, false, true), HoldStep::Wait));
    }
    assert!(matches!(hold_step(&mut s, false, true), HoldStep::Stable));
    assert!(hold_outcome(&s, true).is_ok());
}

#[test]
fn the_watch_reports_why_it_gave_up() {
    let s = HoldState { process_seen: false, stable_ticks: 0, reassert_count: 0 };
    assert_eq!(hold_outcome(&s, false).unwrap_err().text(), "Codex 已配置，但自动重新打开失败");
    let s = HoldState { process_seen: true, stable_ticks: 0, reassert_count: 3 };
    assert_eq!(
        hold_outcome(&s, false).unwrap_err().text(),
        "Codex 桌面端启动后持续覆盖 Smart Agent 配置（已回写 3 次仍被清洗）。请完全退出 Codex 后再次点击接入。"
    );
}

#[test]
fn installing_reports_its_outcome() {
    assert_eq!(install_already_done().message, "Codex 客户端已安装");
    assert_eq!(winget_outcome(false, true, "", "").unwrap().message, "Codex 客户端安装完成");
    assert_eq!(
        winget_outcome(false, false, "  denied ", "out").unwrap_err().text(),
        "自动安装失败，请使用「官方安装」打开微软商店。denied"
    );
    assert_eq!(
        winget_outcome(false, false, " ", " out ").unwrap_err().text(),
        "自动安装失败，请使用「官方安装」打开微软商店。out"
    );
    assert_eq!(
        winget_outcome(false, false, "", "").unwrap_err().text(),
        "自动安装失败，请使用「官方安装」打开微软商店。winget 安装未完成"
    );
    assert_eq!(
        winget_missing("not found").text(),
        "未找到 Windows 官方包管理器 winget，请使用「官方安装」打开微软商店：not found"
    );
    assert_eq!(install_unsupported().text(), "当前系统暂不支持自动安装 Codex 客户端");
}

#[test]
fn the_setup_needs_the_issued_key() {
    let mut store = LocalStore::empty();
    assert_eq!(plan_key(&store).unwrap_err().text(), "尚未获取 API 令牌，请先完成上一步「自动开卡」");
    assert_eq!(apply_key(&store).unwrap_err().text(), "尚未获取 API 令牌，请先完成「自动开卡」");
    store.sk_key = Some("sk-3".to_string());
    assert_eq!(plan_key(&store).unwrap(), "sk-3");
    assert_eq!(apply_key(&store).unwrap(), "sk-3");
}

#[test]
fn nothing_is_read_from_missing_files() {
    let cfg = build_config_table(TomlTable::new(), "m", None).unwrap();
    let auth = obj(vec![("tokens", obj(vec![("a", JsonValue::Int(1))]))]);
    let mut p = probe(Some(Ok(cfg)), Some(auth));
    p.config_exists = false;
    p.auth_exists = false;
    let env = detect_codex_env(p);
    assert!(!env.provider_configured && !env.has_chatgpt_login);
    assert!(env.credentials_store.is_none() && env.config_parse_error.is_none());
}
