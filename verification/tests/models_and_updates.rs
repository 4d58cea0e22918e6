use smart_agent::json::JsonValue;
use smart_agent::models::{
    check_client_update, client_config_models, finish_client_config, normalize_model_list,
    resolve_active_model, select_model, user_models, validate_model_choice, version_less_than,
    ClientConfig,
};
use smart_agent::store::LocalStore;

fn strings(v: &[&str]) -> Vec<String> {
    v.iter().map(|s| s.to_string()).collect()
}

fn config(min: &str, latest: &str, download: &str, website: &str) -> ClientConfig {
    let mut c = ClientConfig::fallback("1.0.0");
    c.min_client_version = min.to_string();
    c.latest_version = latest.to_string();
    c.download_url = download.to_string();
    c.website_url = website.to_string();
    c
}

#[test]
fn versions_compare_by_number_not_by_text() {
    assert!(version_less_than("1.2.3", "1.10.0"));
    assert!(!version_less_than("1.10.0", "1.2.3"));
    assert!(!version_less_than("1.2.3", "1.2.3"));
    assert!(version_less_than("1.2", "1.2.1"));
    assert!(version_less_than(" 0.9.9 ", "1"));
    assert!(!version_less_than("2.0.0-beta", "2.0.0"));
    assert!(version_less_than("1.x.5", "1.0.6"));
}

#[test]
fn a_client_below_the_minimum_must_update() {
    let r = check_client_update("0.1.0", &config("0.2.0", "0.3.0", "", ""));
    assert!(r.force_update);
    assert!(!r.soft_update);
    assert_eq!(r.min_client_version, "0.2.0");
    assert_eq!(r.latest_version, "0.3.0");
    assert_eq!(r.download_url, "https://www.smart-agent.eu.cc/#download");
}

#[test]
fn a_client_below_the_latest_may_update() {
    let r = check_client_update("0.2.5", &config("0.2.0", " 0.3.0 ", "https://d.example/", ""));
    assert!(!r.force_update);
    assert!(r.soft_update);
    assert_eq!(r.download_url, "https://d.example/");
    let r = check_client_update("0.3.0", &config("0.2.0", "", "", "https://w.example"));
    assert!(!r.force_update && !r.soft_update);
    assert_eq!(r.latest_version, "0.2.0");
    assert_eq!(r.download_url, "https://w.example");
    assert_eq!(r.current_version, "0.3.0");
}

#[test]
fn the_fallback_configuration_uses_built_in_values() {
    let c = ClientConfig::fallback("0.4.2");
    assert_eq!(c.default_model, "gpt-5-codex");
    assert_eq!(c.models, vec!["gpt-5-codex".to_string()]);
    assert_eq!(c.min_client_version, "0.4.2");
    let mut blank = c;
    blank.download_url = "  ".to_string();
    blank.website_url = String::new();
    let done = finish_client_config(blank);
    assert_eq!(done.download_url, "https://www.smart-agent.eu.cc/#download");
    assert_eq!(done.website_url, "https://www.smart-agent.eu.cc");
}

#[test]
fn model_lists_are_trimmed_and_deduplicated() {
    let v = normalize_model_list(strings(&[" gpt-5 ", "", "gpt-5", "o3-mini", "  ", "o3-mini "]));
    assert_eq!(v, strings(&["gpt-5", "o3-mini"]));
    let again = normalize_model_list(v.clone());
    assert_eq!(again, v);
}

#[test]
fn the_account_model_list_is_read() {
    let data = JsonValue::Array(vec![
        JsonValue::Str("a".to_string()),
        JsonValue::Int(3),
        JsonValue::Str("a".to_string()),
        JsonValue::Str("b".to_string()),
    ]);
    assert_eq!(user_models(&data).unwrap(), strings(&["a", "b"]));
    assert_eq!(user_models(&JsonValue::Array(vec![])).unwrap_err().text(), "当前账号暂无可用模型");
    assert_eq!(user_models(&JsonValue::Null).unwrap_err().text(), "可用模型列表格式异常");
}

#[test]
fn the_operator_decides_the_offered_models() {
    let mut c = ClientConfig::fallback("1.0.0");
    c.models = strings(&["m1", " m2"]);
    c.default_model = " m2 ".to_string();
    let (avail, preferred) = client_config_models(&c).unwrap();
    assert_eq!(avail, strings(&["m1", "m2"]));
    assert_eq!(preferred.as_deref(), Some("m2"));

    c.models = vec![];
    let (avail, preferred) = client_config_models(&c).unwrap();
    assert_eq!(avail, strings(&["m2"]));
    assert_eq!(preferred.as_deref(), Some("m2"));

    c.default_model = String::new();
    assert_eq!(client_config_models(&c).unwrap_err().text(), "运营端尚未配置客户端展示模型");
}

#[test]
fn the_active_model_follows_the_saved_choice_then_the_operator() {
    let avail = strings(&["a", "b", "c"]);
    let mut store = LocalStore::empty();
    store.default_model = Some("b".to_string());
    assert_eq!(resolve_active_model(&store, &avail, &Some("c".to_string())), "b");

    store.default_model = Some("gone".to_string());
    store.selected_models = strings(&["x", "c", "a"]);
    assert_eq!(resolve_active_model(&store, &avail, &Some("a".to_string())), "c");

    store.selected_models = strings(&["x"]);
    assert_eq!(resolve_active_model(&store, &avail, &Some("a".to_string())), "a");
    assert_eq!(resolve_active_model(&store, &avail, &Some("zz".to_string())), "a");
    assert_eq!(resolve_active_model(&store, &avail, &None), "a");
}

#[test]
fn a_saved_active_model_stays_active() {
    let avail = strings(&["a", "b"]);
    let mut store = LocalStore::empty();
    store.selected_models = strings(&["b"]);
    let m = resolve_active_model(&store, &avail, &None);
    assert!(select_model(&mut store, &m));
    assert_eq!(store.selected_models, strings(&["b"]));
    assert_eq!(store.default_model.as_deref(), Some("b"));
    assert_eq!(resolve_active_model(&store, &avail, &None), m);
    assert!(!select_model(&mut store, &m));
}

#[test]
fn a_chosen_model_must_be_offered() {
    let avail = strings(&["a", "b"]);
    assert_eq!(validate_model_choice(" b ", &avail).unwrap(), "b");
    assert_eq!(validate_model_choice("  ", &avail).unwrap_err().text(), "请选择一个模型");
    assert_eq!(validate_model_choice("c", &avail).unwrap_err().text(), "所选模型当前不可用");
}
