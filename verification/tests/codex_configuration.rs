use smart_agent::codex_config::{
    build_config_or_fresh, build_config_table, clean_smartagent_from_config,
    config_without_smartagent_live_token, provider_base_url_matches, table_points_to_smartagent,
};
use smart_agent::toml_doc::{TomlTable, TomlValue};

const V1: &str = "https://api.smart-agent.eu.cc/v1";

fn str_value(v: Option<&TomlValue>) -> Option<String> {
    match v {
        Some(TomlValue::Str(s)) => Some(s.clone()),
        _ => None,
    }
}

fn sub_table<'a>(t: &'a TomlTable, key: &str) -> Option<&'a TomlTable> {
    match t.get(key) {
        Some(TomlValue::Table(x)) => Some(x),
        _ => None,
    }
}

fn provider(url: &str) -> TomlTable {
    let mut p = TomlTable::new();
    p.insert("name", TomlValue::Str("x".to_string()));
    p.insert("base_url", TomlValue::Str(url.to_string()));
    p
}

fn user_config() -> TomlTable {
    let mut t = TomlTable::new();
    t.insert("approval_policy", TomlValue::Str("never".to_string()));
    t.insert("service_tier", TomlValue::Str("default".to_string()));
    t.insert("model_reasoning_effort", TomlValue::Other("\"high\"".to_string()));
    let mut providers = TomlTable::new();
    providers.insert("openrouter", TomlValue::Table(provider("https://openrouter.ai/api/v1")));
    let mut legacy = provider(V1);
    legacy.insert("env_key", TomlValue::Str("OPENAI_API_KEY".to_string()));
    providers.insert("smartagent", TomlValue::Table(legacy));
    t.insert("model_providers", TomlValue::Table(providers));
    t
}

#[test]
fn setup_routes_codex_to_the_site_and_keeps_other_settings() {
    let t = build_config_table(user_config(), "gpt-5", Some("sk-live")).unwrap();
    assert!(table_points_to_smartagent(&t));
    assert_eq!(str_value(t.get("model")).as_deref(), Some("gpt-5"));
    assert_eq!(str_value(t.get("model_provider")).as_deref(), Some("custom"));
    assert_eq!(str_value(t.get("model_catalog_json")).as_deref(), Some("smart-agent-models.json"));
    assert_eq!(str_value(t.get("approval_policy")).as_deref(), Some("never"));
    assert!(t.get("service_tier").is_none());
    assert!(matches!(t.get("model_reasoning_effort"), Some(TomlValue::Other(s)) if s == "\"high\""));
    let providers = sub_table(&t, "model_providers").unwrap();
    assert!(providers.get("smartagent").is_none());
    assert!(providers.get("openrouter").is_some());
    let custom = sub_table(providers, "custom").unwrap();
    assert_eq!(str_value(custom.get("base_url")).as_deref(), Some(V1));
    assert_eq!(str_value(custom.get("name")).as_deref(), Some("Smart Agent"));
    assert_eq!(str_value(custom.get("wire_api")).as_deref(), Some("responses"));
    assert_eq!(str_value(custom.get("experimental_bearer_token")).as_deref(), Some("sk-live"));
    assert!(custom.get("env_key").is_none());
}

#[test]
fn setup_twice_is_setup_once() {
    let once = build_config_table(user_config(), "gpt-5", Some("sk-live")).unwrap();
    let twice = build_config_table(once.copy(), "gpt-5", Some("sk-live")).unwrap();
    for (k, _) in once.entries.iter() {
        assert!(twice.get(k).is_some(), "{k} lost");
    }
    assert_eq!(
        str_value(sub_table(sub_table(&twice, "model_providers").unwrap(), "custom").unwrap().get("base_url")),
        Some(V1.to_string())
    );
    assert!(table_points_to_smartagent(&twice));
}

#[test]
fn a_broken_providers_entry_is_refused_or_replaced() {
    let mut t = TomlTable::new();
    t.insert("model_providers", TomlValue::Str("oops".to_string()));
    let err = build_config_table(t.copy(), "m", None).unwrap_err();
    assert_eq!(err.text(), "现有 config.toml 的 model_providers 字段类型异常，无法合并写入");
    let fresh = build_config_or_fresh(Some(t), "m", None);
    assert!(table_points_to_smartagent(&fresh));
    assert!(fresh.get("model_reasoning_effort").is_none());
    let fresh = build_config_or_fresh(None, "m", Some("k"));
    assert!(table_points_to_smartagent(&fresh));
}

#[test]
fn the_stored_copy_has_no_key() {
    let t = build_config_table(user_config(), "gpt-5", Some("sk-live")).unwrap();
    let stored = config_without_smartagent_live_token(t);
    assert!(table_points_to_smartagent(&stored));
    let custom = sub_table(sub_table(&stored, "model_providers").unwrap(), "custom").unwrap();
    assert!(custom.get("experimental_bearer_token").is_none());
    assert_eq!(str_value(custom.get("base_url")).as_deref(), Some(V1));
}

#[test]
fn disconnecting_removes_every_trace_of_the_site() {
    let t = build_config_table(user_config(), "gpt-5", Some("sk-live")).unwrap();
    let c = clean_smartagent_from_config(t);
    assert!(!table_points_to_smartagent(&c));
    assert!(c.get("model").is_none());
    assert!(c.get("model_provider").is_none());
    assert!(c.get("model_catalog_json").is_none());
    assert_eq!(str_value(c.get("approval_policy")).as_deref(), Some("never"));
    let providers = sub_table(&c, "model_providers").unwrap();
    assert!(providers.get("custom").is_none());
    assert!(providers.get("smartagent").is_none());
    assert!(providers.get("openrouter").is_some());
}

#[test]
fn disconnecting_leaves_other_custom_providers_alone() {
    let mut t = TomlTable::new();
    t.insert("model_provider", TomlValue::Str("custom".to_string()));
    t.insert("model", TomlValue::Str("llama".to_string()));
    let mut providers = TomlTable::new();
    providers.insert("custom", TomlValue::Table(provider("http://localhost:11434/v1")));
    t.insert("model_providers", TomlValue::Table(providers));
    assert!(!provider_base_url_matches(&t, "custom"));
    let c = clean_smartagent_from_config(t);
    assert_eq!(str_value(c.get("model_provider")).as_deref(), Some("custom"));
    assert_eq!(str_value(c.get("model")).as_deref(), Some("llama"));
    assert!(sub_table(sub_table(&c, "model_providers").unwrap(), "custom").is_some());
}

#[test]
fn an_empty_providers_table_is_dropped_on_disconnect() {
    let t = build_config_table(TomlTable::new(), "gpt-5", None).unwrap();
    let c = clean_smartagent_from_config(t);
    assert!(c.get("model_providers").is_none());
    assert!(c.is_empty());
}

#[test]
fn the_legacy_provider_still_counts_as_connected() {
    let mut t = TomlTable::new();
    t.insert("model_provider", TomlValue::Str("smartagent".to_string()));
    let mut providers = TomlTable::new();
    providers.insert("smartagent", TomlValue::Table(provider(V1)));
    t.insert("model_providers", TomlValue::Table(providers));
    assert!(table_points_to_smartagent(&t));
    let c = clean_smartagent_from_config(t);
    assert!(!table_points_to_smartagent(&c));
    assert!(c.get("model_provider").is_none());
}
