use smart_agent::api::{
    absorb_login_data, auth_headers, check_external_url, check_top_up_amount, checkout_body,
    checkout_plan, claim_body, current_credential, malformed_response, parse_envelope,
    payment_label, read_i64, redeem_code, redeemed_quota, register_body, two_factor_outcome,
    usage_path, usage_summary, user_agent,
};
use smart_agent::api::{checkout_page, pat_step, query_value, PatAction};
use smart_agent::error::AppError;
use smart_agent::store::LocalStore;
use smart_agent::json::JsonValue;

fn obj(fields: Vec<(&str, JsonValue)>) -> JsonValue {
    JsonValue::Object(fields.into_iter().map(|(k, v)| (k.to_string(), v)).collect())
}

fn s(text: &str) -> JsonValue {
    JsonValue::Str(text.to_string())
}

#[test]
fn envelope_success_hands_out_data() {
    let body = obj(vec![("success", JsonValue::Bool(true)), ("data", JsonValue::Int(7))]);
    assert!(matches!(parse_envelope(body), Ok(JsonValue::Int(7))));
    let body = obj(vec![("success", JsonValue::Bool(true))]);
    assert!(matches!(parse_envelope(body), Ok(JsonValue::Null)));
}

#[test]
fn envelope_failure_carries_the_server_message() {
    let body = obj(vec![("success", JsonValue::Bool(false)), ("message", s("用户名或密码错误"))]);
    assert_eq!(parse_envelope(body).unwrap_err().text(), "用户名或密码错误");
    let body = obj(vec![("success", JsonValue::Bool(false)), ("message", s(""))]);
    assert_eq!(parse_envelope(body).unwrap_err().text(), "服务器返回未知错误");
    let body = obj(vec![("message", s("ok"))]);
    assert_eq!(parse_envelope(body).unwrap_err().text(), "ok");
    assert_eq!(parse_envelope(JsonValue::Null).unwrap_err().text(), "服务器返回未知错误");
}

#[test]
fn non_json_replies_name_the_status() {
    let e = malformed_response(502);
    assert!(matches!(&e, AppError::Http(_)));
    assert_eq!(e.text(), "网络请求失败：服务器响应异常（HTTP 502）");
}

#[test]
fn requests_carry_the_credential_and_the_client() {
    assert_eq!(user_agent("0.3.1"), "SmartAgentClient/0.3.1");
    let h = auth_headers("pat-1", Some(12), "SmartAgentClient/0.3.1");
    assert_eq!(
        h,
        vec![
            ("Authorization".to_string(), "Bearer pat-1".to_string()),
            ("User-Agent".to_string(), "SmartAgentClient/0.3.1".to_string()),
            ("New-Api-User".to_string(), "12".to_string()),
        ]
    );
    assert_eq!(auth_headers("j", None, "ua").len(), 2);
}

#[test]
fn the_access_token_is_preferred_over_the_session() {
    let pat = Some("pat".to_string());
    let jwt = Some("jwt".to_string());
    assert_eq!(current_credential(&pat, Some(1), &jwt).unwrap(), ("pat".to_string(), Some(1)));
    assert_eq!(current_credential(&None, Some(1), &jwt).unwrap(), ("jwt".to_string(), Some(1)));
    assert_eq!(current_credential(&None, None, &None).unwrap_err().text(), "尚未登录，请先完成登录");
}

#[test]
fn login_replies_are_read() {
    let data = obj(vec![("require_2fa", JsonValue::Bool(true)), ("flow_token", s("f-1"))]);
    let o = two_factor_outcome(&data).unwrap();
    assert!(o.require_2fa);
    assert_eq!(o.flow_token.as_deref(), Some("f-1"));
    assert!(two_factor_outcome(&obj(vec![("require_2fa", JsonValue::Bool(false))])).is_none());

    let data = obj(vec![
        ("access_token", s("jwt-x")),
        ("user", obj(vec![("id", JsonValue::Int(3)), ("username", s("alice"))])),
    ]);
    let (token, o) = absorb_login_data(&data).unwrap();
    assert_eq!(token, "jwt-x");
    assert_eq!(o.user_id, Some(3));
    assert_eq!(o.username.as_deref(), Some("alice"));
    assert_eq!(
        absorb_login_data(&obj(vec![])).unwrap_err().text(),
        "登录响应缺少 access_token 字段"
    );
}

#[test]
fn registration_sends_the_invite_code_only_when_given() {
    match register_body("bob", "pw", Some("  AFF9 ")) {
        JsonValue::Object(e) => {
            assert_eq!(e.len(), 3);
            assert!(matches!(&e[2], (k, JsonValue::Str(v)) if k == "aff_code" && v == "AFF9"));
        }
        _ => panic!("not an object"),
    }
    match register_body("bob", "pw", Some("   ")) {
        JsonValue::Object(e) => assert_eq!(e.len(), 2),
        _ => panic!("not an object"),
    }
}

#[test]
fn usage_covers_the_current_day() {
    assert_eq!(
        usage_path(90_000),
        "/api/data/self?start_timestamp=86400&end_timestamp=90000"
    );
    assert_eq!(usage_path(5), "/api/data/self?start_timestamp=0&end_timestamp=5");
}

#[test]
fn usage_rows_are_summed() {
    let rows = JsonValue::Array(vec![
        obj(vec![("quota", JsonValue::Int(100)), ("count", JsonValue::Int(2)), ("token_used", JsonValue::Int(50))]),
        obj(vec![("quota", JsonValue::Int(30)), ("count", JsonValue::Int(1))]),
    ]);
    let u = usage_summary(&rows).unwrap();
    assert_eq!((u.today_quota, u.today_requests, u.today_tokens), (130, 3, 50));
    let u = usage_summary(&JsonValue::Null).unwrap();
    assert_eq!((u.today_quota, u.today_requests, u.today_tokens), (0, 0, 0));
    let big = JsonValue::Array(vec![
        obj(vec![("quota", JsonValue::Int(i64::MAX))]),
        obj(vec![("quota", JsonValue::Int(1))]),
    ]);
    assert!(usage_summary(&big).is_none());
}

#[test]
fn numbers_may_come_as_strings() {
    assert_eq!(read_i64(Some(&JsonValue::Int(5)), 9), 5);
    assert_eq!(read_i64(Some(&s("42")), 9), 42);
    assert_eq!(read_i64(Some(&s("-7")), 9), -7);
    assert_eq!(read_i64(Some(&s("x")), 9), 9);
    assert_eq!(read_i64(None, 9), 9);
    assert_eq!(redeemed_quota(&s("500000")), 500000);
    assert_eq!(redeemed_quota(&JsonValue::Bool(true)), 0);
}

#[test]
fn payment_methods_get_readable_labels() {
    assert_eq!(payment_label("alipay"), "支付宝");
    assert_eq!(payment_label("wxpay"), "微信支付");
    assert_eq!(payment_label("wechat"), "微信支付");
    assert_eq!(payment_label("qqpay"), "QQ 钱包");
    assert_eq!(payment_label("unionpay"), "银联支付");
    assert_eq!(payment_label("stripe"), "在线支付");
}

#[test]
fn top_ups_and_redemptions_are_checked() {
    assert!(check_top_up_amount(10).is_ok());
    assert!(check_top_up_amount(0).is_err());
    assert!(check_top_up_amount(-5).is_err());
    assert_eq!(redeem_code("  CODE-1 ").unwrap(), "CODE-1");
    assert_eq!(redeem_code("   ").unwrap_err().text(), "请输入兑换码");
}

#[test]
fn the_checkout_opens_only_http_pages() {
    let body = obj(vec![
        ("message", s("success")),
        ("url", s("https://pay.example.com/submit")),
        ("data", obj(vec![("trade_no", s("T1")), ("money", s("10"))])),
    ]);
    let plan = checkout_plan(body).unwrap();
    assert_eq!(plan.url, "https://pay.example.com/submit");
    let params = plan.params.as_ref().unwrap();
    assert_eq!(params.len(), 2);
    assert_eq!(params[0].0, "trade_no");
    let body = obj(vec![("message", s("success")), ("url", s("https://pay.example.com/x")), ("data", s("n/a"))]);
    assert!(checkout_plan(body).unwrap().params.is_none());

    let body = obj(vec![("message", s("success")), ("url", s("ftp://pay.example.com/"))]);
    assert_eq!(checkout_plan(body).unwrap_err().text(), "支付页面地址不受支持");
    let body = obj(vec![("message", s("success")), ("url", s("not a url"))]);
    assert_eq!(checkout_plan(body).unwrap_err().text(), "支付页面地址异常");
    let body = obj(vec![("message", s("success"))]);
    assert_eq!(checkout_plan(body).unwrap_err().text(), "支付页面响应异常");
    let body = obj(vec![("message", s("error")), ("data", s("余额不足"))]);
    assert_eq!(checkout_plan(body).unwrap_err().text(), "余额不足");
    let body = obj(vec![("message", s("error"))]);
    assert_eq!(checkout_plan(body).unwrap_err().text(), "暂时无法发起支付");
}

#[test]
fn checkout_and_claim_requests() {
    match checkout_body(20, "alipay") {
        JsonValue::Object(e) => {
            assert!(matches!(&e[0], (k, JsonValue::Int(20)) if k == "amount"));
            assert!(matches!(&e[1], (k, JsonValue::Str(v)) if k == "payment_method" && v == "alipay"));
        }
        _ => panic!("not an object"),
    }
    match claim_body("dev-1", 8) {
        JsonValue::Object(e) => {
            assert!(matches!(&e[0], (k, JsonValue::Str(v)) if k == "device_id" && v == "dev-1"));
            assert!(matches!(&e[1], (k, JsonValue::Int(8)) if k == "token_id"));
        }
        _ => panic!("not an object"),
    }
}

#[test]
fn only_http_links_open() {
    assert_eq!(check_external_url(" HTTPS://example.com ").unwrap(), "HTTPS://example.com");
    assert_eq!(check_external_url("http://a").unwrap(), "http://a");
    assert_eq!(check_external_url("  ").unwrap_err().text(), "链接为空");
    assert_eq!(check_external_url("file:///etc").unwrap_err().text(), "仅允许打开 http(s) 链接");
}

#[test]
fn login_requests_carry_the_credentials() {
    match smart_agent::api::login_body("alice", "pw") {
        JsonValue::Object(e) => {
            assert_eq!(e.len(), 2);
            assert!(matches!(&e[0], (k, JsonValue::Str(v)) if k == "username" && v == "alice"));
            assert!(matches!(&e[1], (k, JsonValue::Str(v)) if k == "password" && v == "pw"));
        }
        _ => panic!("not an object"),
    }
    match smart_agent::api::two_factor_body("flow", "123456") {
        JsonValue::Object(e) => {
            assert!(matches!(&e[0], (k, JsonValue::Str(v)) if k == "flow_token" && v == "flow"));
            assert!(matches!(&e[1], (k, JsonValue::Str(v)) if k == "code" && v == "123456"));
        }
        _ => panic!("not an object"),
    }
}

#[test]
fn the_cashier_page_carries_the_order_parameters() {
    let pairs = Some(vec![
        ("trade_no".to_string(), "T 1".to_string()),
        ("sign".to_string(), "a&b=c".to_string()),
    ]);
    assert_eq!(
        checkout_page("https://pay.example.com/submit?x=1", &pairs).unwrap(),
        "https://pay.example.com/submit?x=1&trade_no=T+1&sign=a%26b%3Dc"
    );
    assert_eq!(checkout_page("https://pay.example.com", &None).unwrap(), "https://pay.example.com/");
    assert_eq!(checkout_page("https://pay.example.com/p", &Some(vec![])).unwrap(), "https://pay.example.com/p?");
    assert_eq!(checkout_page("not a url", &None).unwrap_err().text(), "支付页面地址异常");
    assert_eq!(query_value(&s("x")).as_deref(), Some("x"));
    assert_eq!(query_value(&JsonValue::Int(-12)).as_deref(), Some("-12"));
    assert_eq!(query_value(&JsonValue::Number("1.5".to_string())).as_deref(), Some("1.5"));
    assert_eq!(query_value(&JsonValue::Bool(true)).as_deref(), Some("true"));
    assert_eq!(query_value(&JsonValue::Null).as_deref(), Some("null"));
    assert_eq!(query_value(&JsonValue::Array(vec![])), None);
}

#[test]
fn a_working_access_token_is_never_replaced() {
    let ok = obj(vec![("success", JsonValue::Bool(true))]);
    let refused = obj(vec![("success", JsonValue::Bool(false))]);
    let mut store = LocalStore::empty();
    store.pat = Some("pat".to_string());
    assert!(matches!(pat_step(&mut store, Some(&ok)), PatAction::Reuse));
    assert_eq!(store.pat.as_deref(), Some("pat"));
    assert!(matches!(pat_step(&mut store, Some(&refused)), PatAction::Issue));
    assert!(store.pat.is_none());
    store.pat = Some("pat".to_string());
    assert!(matches!(pat_step(&mut store, None), PatAction::Issue));
    assert!(store.pat.is_none());
    assert!(matches!(pat_step(&mut store, Some(&ok)), PatAction::Issue));
}
