use smart_agent::connectivity::{
    authorization_value, upstream_detail_present,
    connectivity_key, ping_body, preferred_test_model, reply_result, responses_url,
    send_failure_result,
};
use smart_agent::json::JsonValue;
use smart_agent::store::LocalStore;

fn obj(fields: Vec<(&str, JsonValue)>) -> JsonValue {
    JsonValue::Object(fields.into_iter().map(|(k, v)| (k.to_string(), v)).collect())
}

#[test]
fn the_test_needs_the_issued_key() {
    let mut s = LocalStore::empty();
    assert_eq!(connectivity_key(&s).unwrap_err().text(), "尚未获取 API 令牌，请先完成「自动开卡」");
    s.sk_key = Some("sk-1".to_string());
    assert_eq!(connectivity_key(&s).unwrap(), "sk-1");
}

#[test]
fn a_blank_saved_model_falls_back() {
    assert_eq!(preferred_test_model(&Some(" m ".to_string())).as_deref(), Some(" m "));
    assert_eq!(preferred_test_model(&Some("  ".to_string())), None);
    assert_eq!(preferred_test_model(&None), None);
}

#[test]
fn the_request_is_minimal() {
    assert_eq!(responses_url(), "https://api.smart-agent.eu.cc/v1/responses");
    match ping_body("gpt-5") {
        JsonValue::Object(e) => {
            assert_eq!(e.len(), 4);
            assert!(matches!(&e[0], (k, JsonValue::Str(v)) if k == "model" && v == "gpt-5"));
            assert!(matches!(&e[1], (k, JsonValue::Str(v)) if k == "input" && v == "ping"));
            assert!(matches!(&e[2], (k, JsonValue::Int(16)) if k == "max_output_tokens"));
            assert!(matches!(&e[3], (k, JsonValue::Bool(false)) if k == "stream"));
        }
        _ => panic!("not an object"),
    }
}

#[test]
fn a_2xx_reply_passes() {
    let r = reply_result("m".to_string(), 120, 200, "{}", &None);
    assert!(r.ok);
    assert_eq!((r.latency_ms, r.http_status), (120, 200));
    assert_eq!(r.model, "m");
    assert!(r.message.is_empty());
}

#[test]
fn failures_explain_themselves() {
    let openai = obj(vec![("error", obj(vec![("message", JsonValue::Str("bad key".to_string()))]))]);
    let r = reply_result("m".to_string(), 5, 401, "", &Some(openai));
    assert!(!r.ok);
    assert_eq!(r.message, "令牌无效或已被禁用，请尝试重新运行向导重新开卡（HTTP 401）：bad key");

    let site = obj(vec![("message", JsonValue::Str("not here".to_string()))]);
    let r = reply_result("m".to_string(), 5, 404, "", &Some(site));
    assert_eq!(r.message, "站点未开放 /v1/responses（渠道需原生支持 Responses API）（HTTP 404）：not here");

    let r = reply_result("m".to_string(), 5, 429, "slow down", &None);
    assert_eq!(r.message, "触发限流，请稍后重试（HTTP 429）：slow down");

    let r = reply_result("m".to_string(), 5, 403, "x", &Some(JsonValue::Int(1)));
    assert_eq!(r.message, "令牌无效或已被禁用，请尝试重新运行向导重新开卡（HTTP 403）：x");
}

#[test]
fn a_long_body_is_cut_to_200_bytes() {
    let body = "a".repeat(250);
    let r = reply_result("m".to_string(), 5, 500, &body, &None);
    assert_eq!(r.message, format!("请求失败（HTTP 500）：{}", "a".repeat(200)));
}

#[test]
fn send_failures_get_a_hint() {
    let r = send_failure_result("m".to_string(), 9, true, false, "t");
    assert!(!r.ok);
    assert_eq!(r.http_status, 0);
    assert_eq!(r.message, "连接超时：请检查网络后重试");
    let r = send_failure_result("m".to_string(), 9, false, true, "t");
    assert_eq!(r.message, "无法连接到站点服务：请确认服务是否在线");
    let r = send_failure_result("m".to_string(), 9, false, false, "dns");
    assert_eq!(r.message, "网络错误：dns");
}

#[test]
fn the_detail_and_the_header() {
    assert_eq!(authorization_value("sk-9"), "Bearer sk-9");
    assert!(!upstream_detail_present(&None));
    assert!(!upstream_detail_present(&Some(obj(vec![("error", JsonValue::Str("x".to_string()))]))));
    assert!(upstream_detail_present(&Some(obj(vec![("message", JsonValue::Str("x".to_string()))]))));
}
