use smart_agent::api::{
    device_check_credential, device_status_expired, device_status_from_data, is_auth_rejection,
    password_change_body, pat_from_data, pat_still_valid, profile_update_body, reveal_body,
    reveal_field, reveal_item_id, reveal_path, revealed_value, session_for_new_pat,
    session_for_password_change, token_items, top_up_info, claim_token_id, InviteClaimResult,
    InviteInfo, SelfInfo,
};
use smart_agent::json::JsonValue;

fn obj(fields: Vec<(&str, JsonValue)>) -> JsonValue {
    JsonValue::Object(fields.into_iter().map(|(k, v)| (k.to_string(), v)).collect())
}

fn s(text: &str) -> JsonValue {
    JsonValue::Str(text.to_string())
}

#[test]
fn the_account_page_reads_missing_fields_as_empty() {
    let data = obj(vec![("id", JsonValue::Int(4)), ("username", s("u")), ("quota", JsonValue::Int(500000))]);
    let info = SelfInfo::from_data(&data);
    assert_eq!(info.user_id, 4);
    assert_eq!(info.username, "u");
    assert_eq!(info.display_name, "");
    assert_eq!(info.quota, 500000);
    assert_eq!(info.used_quota, 0);
}

#[test]
fn profile_and_password_requests_keep_the_username() {
    let self_data = obj(vec![("username", s("u")), ("display_name", s("Ann"))]);
    match profile_update_body(&self_data, "  New Name ").unwrap() {
        JsonValue::Object(e) => {
            assert!(matches!(&e[1], (k, JsonValue::Str(v)) if k == "display_name" && v == "New Name"));
            assert!(matches!(&e[2], (k, JsonValue::Str(v)) if k == "password" && v.is_empty()));
        }
        _ => panic!("not an object"),
    }
    match password_change_body(&obj(vec![("username", s("u"))]), "old", "new").unwrap() {
        JsonValue::Object(e) => {
            assert!(matches!(&e[1], (k, JsonValue::Str(v)) if k == "display_name" && v == "u"));
            assert!(matches!(&e[3], (k, JsonValue::Str(v)) if k == "password" && v == "new"));
        }
        _ => panic!("not an object"),
    }
    assert_eq!(profile_update_body(&obj(vec![]), "x").unwrap_err().text(), "账户信息不完整");
    assert_eq!(
        session_for_password_change(&None).unwrap_err().text(),
        "为保障安全，请退出后重新登录再修改密码"
    );
}

#[test]
fn access_tokens_are_checked_and_issued() {
    assert!(pat_still_valid(&obj(vec![("success", JsonValue::Bool(true))])));
    assert!(!pat_still_valid(&obj(vec![("success", JsonValue::Bool(false))])));
    assert!(!pat_still_valid(&JsonValue::Null));
    assert_eq!(pat_from_data(&s("pat-9")).unwrap(), "pat-9");
    assert_eq!(pat_from_data(&JsonValue::Int(1)).unwrap_err().text(), "生成访问令牌失败：响应格式异常");
    assert_eq!(session_for_new_pat(&Some("j".to_string())).unwrap(), "j");
    assert_eq!(
        session_for_new_pat(&None).unwrap_err().text(),
        "登录状态已过期，请重新登录后再生成访问令牌"
    );
}

#[test]
fn top_up_options_fall_back_to_defaults() {
    let data = obj(vec![
        ("enable_online_topup", JsonValue::Bool(true)),
        ("enable_redemption", JsonValue::Bool(true)),
        ("min_topup", s("5")),
        ("amount_options", JsonValue::Array(vec![JsonValue::Int(0), JsonValue::Int(-1)])),
        (
            "pay_methods",
            JsonValue::Array(vec![
                obj(vec![("type", s(" alipay ")), ("min_topup", JsonValue::Int(20))]),
                obj(vec![("type", s("  "))]),
                obj(vec![("type", s("stripe"))]),
            ]),
        ),
    ]);
    let info = top_up_info(&data);
    assert_eq!(info.min_amount, 5);
    assert_eq!(info.amount_options, vec![10, 20, 50, 100, 200]);
    assert!(info.online_enabled && info.redemption_enabled);
    assert_eq!(info.methods.len(), 2);
    assert_eq!((info.methods[0].id.as_str(), info.methods[0].label.as_str(), info.methods[0].min_amount), ("alipay", "支付宝", 20));
    assert_eq!((info.methods[1].label.as_str(), info.methods[1].min_amount), ("在线支付", 5));

    let off = top_up_info(&obj(vec![("amount_options", JsonValue::Array(vec![JsonValue::Int(30)]))]));
    assert!(!off.online_enabled && off.methods.is_empty());
    assert_eq!(off.min_amount, 1);
    assert_eq!(off.amount_options, vec![30]);
}

#[test]
fn invitations_are_read() {
    let info = InviteInfo::from_data(&obj(vec![("aff_code", s("AB12")), ("enabled", JsonValue::Bool(true))]));
    assert_eq!(info.aff_code, "AB12");
    assert!(info.enabled);
    assert_eq!(info.aff_count, 0);
    let claim = InviteClaimResult::from_data(&obj(vec![("rewarded", JsonValue::Bool(true)), ("status", s("ok"))]));
    assert!(claim.rewarded && !claim.already_done);
    assert_eq!(claim.status, "ok");
    assert_eq!(claim_token_id(None).unwrap_err().text(), "请先在本机完成服务连接");
    assert_eq!(claim_token_id(Some(3)).unwrap(), 3);
}

#[test]
fn open_platform_reveals_only_known_fields() {
    assert_eq!(reveal_field(" Password ").unwrap(), "password");
    assert_eq!(reveal_field("token").unwrap_err().text(), "仅支持读取账号或密码");
    assert_eq!(reveal_item_id("  a b ").unwrap(), "a b");
    assert_eq!(reveal_item_id(" ").unwrap_err().text(), "ID 条目标识不能为空");
    assert_eq!(reveal_path("a b/é"), "/api/open/id/items/a%20b%2F%C3%A9/reveal");
    match reveal_body("username") {
        JsonValue::Object(e) => assert!(matches!(&e[0], (k, JsonValue::Str(v)) if k == "field" && v == "username")),
        _ => panic!("not an object"),
    }
    assert_eq!(revealed_value("secret".to_string()).unwrap(), "secret");
    assert_eq!(revealed_value("  ".to_string()).unwrap_err().text(), "服务端未返回可复制内容");
}

#[test]
fn token_lists_come_from_items() {
    let data = obj(vec![("items", JsonValue::Array(vec![JsonValue::Int(1)]))]);
    assert!(matches!(token_items(data), JsonValue::Array(v) if v.len() == 1));
    assert!(matches!(token_items(JsonValue::Null), JsonValue::Array(v) if v.is_empty()));
}

#[test]
fn the_device_key_status_is_found_by_id_or_name() {
    let data = obj(vec![(
        "items",
        JsonValue::Array(vec![
            obj(vec![("id", JsonValue::Int(1)), ("name", s("a")), ("status", JsonValue::Int(2))]),
            obj(vec![("id", JsonValue::Int(2)), ("name", s("b")), ("status", JsonValue::Int(1))]),
        ]),
    )]);
    let st = device_status_from_data(&data, Some(2), &None);
    assert!(st.enabled && !st.auth_expired);
    assert_eq!(st.status, Some(1));
    let st = device_status_from_data(&data, None, &Some("a".to_string()));
    assert!(!st.enabled);
    assert_eq!(st.status, Some(2));
    let st = device_status_from_data(&data, Some(9), &None);
    assert_eq!(st.status, None);
    assert!(is_auth_rejection(401) && is_auth_rejection(403) && !is_auth_rejection(404));
    let ex = device_status_expired();
    assert!(ex.auth_expired && !ex.enabled);
    assert_eq!(device_check_credential(&None).unwrap_err().text(), "尚未登录");
}
