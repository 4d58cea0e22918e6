use smart_agent::api::{
    client_token_body, created_client_token, find_account_client_token, full_key_from_data,
    mask_key, token_key_path, ACCOUNT_CLIENT_TOKEN_NAME,
};
use smart_agent::json::JsonValue;

fn token(id: i64, name: &str) -> JsonValue {
    JsonValue::Object(vec![
        ("id".to_string(), JsonValue::Int(id)),
        ("name".to_string(), JsonValue::Str(name.to_string())),
    ])
}

fn tokens(items: Vec<JsonValue>) -> JsonValue {
    JsonValue::Array(items)
}

#[test]
fn prefers_fixed_account_token_across_installs() {
    let items = tokens(vec![
        token(30, "4b163e8c-88d9-4f33-b4fb-c0796b10f2c0"),
        token(20, ACCOUNT_CLIENT_TOKEN_NAME),
        token(10, ACCOUNT_CLIENT_TOKEN_NAME),
    ]);

    assert_eq!(
        find_account_client_token(&items, None),
        Some((10, ACCOUNT_CLIENT_TOKEN_NAME.to_string()))
    );
}

#[test]
fn keeps_the_locally_known_token_during_migration() {
    let items = tokens(vec![
        token(5, "普通开发密钥"),
        token(9, "71d737b3-854a-41a2-adce-3eb4426a6be2"),
    ]);

    assert_eq!(
        find_account_client_token(&items, Some(5)),
        Some((5, "普通开发密钥".to_string()))
    );
}

#[test]
fn reuses_the_oldest_legacy_device_token_for_a_fresh_install() {
    let items = tokens(vec![
        token(12, "smart-agent-office"),
        token(7, "71d737b3-854a-41a2-adce-3eb4426a6be2"),
        token(3, "手动创建的密钥"),
    ]);

    assert_eq!(
        find_account_client_token(&items, None),
        Some((7, "71d737b3-854a-41a2-adce-3eb4426a6be2".to_string()))
    );
}

#[test]
fn fixed_name_wins_over_the_locally_known_token() {
    let items = tokens(vec![
        token(5, "普通开发密钥"),
        token(40, ACCOUNT_CLIENT_TOKEN_NAME),
    ]);
    let a = find_account_client_token(&items, Some(5));
    let b = find_account_client_token(&items, None);
    assert_eq!(a, Some((40, ACCOUNT_CLIENT_TOKEN_NAME.to_string())));
    assert_eq!(a, b);
}

#[test]
fn legacy_names_match_in_any_case() {
    let items = tokens(vec![token(8, "Smart-Agent-Laptop"), token(4, "other")]);
    assert_eq!(
        find_account_client_token(&items, None),
        Some((8, "Smart-Agent-Laptop".to_string()))
    );
}

#[test]
fn a_uuid_name_counts_as_a_legacy_device_key_only_when_it_parses() {
    let items = tokens(vec![token(6, "not-a-uuid-0000"), token(2, "71d737b3854a41a2adce3eb4426a6be2")]);
    assert_eq!(
        find_account_client_token(&items, None),
        Some((2, "71d737b3854a41a2adce3eb4426a6be2".to_string()))
    );
}

#[test]
fn equal_ids_keep_the_first_listed() {
    let items = tokens(vec![
        token(3, ACCOUNT_CLIENT_TOKEN_NAME),
        JsonValue::Object(vec![
            ("id".to_string(), JsonValue::Int(3)),
            ("name".to_string(), JsonValue::Str(ACCOUNT_CLIENT_TOKEN_NAME.to_string())),
            ("extra".to_string(), JsonValue::Bool(true)),
        ]),
    ]);
    assert_eq!(
        find_account_client_token(&items, None),
        Some((3, ACCOUNT_CLIENT_TOKEN_NAME.to_string()))
    );
}

#[test]
fn tokens_without_an_id_are_skipped() {
    let items = tokens(vec![
        JsonValue::Object(vec![(
            "name".to_string(),
            JsonValue::Str(ACCOUNT_CLIENT_TOKEN_NAME.to_string()),
        )]),
        token(11, "smart-agent-x"),
    ]);
    assert_eq!(
        find_account_client_token(&items, None),
        Some((11, "smart-agent-x".to_string()))
    );
}

#[test]
fn no_array_means_no_token() {
    assert_eq!(find_account_client_token(&JsonValue::Null, Some(1)), None);
    assert_eq!(find_account_client_token(&tokens(vec![token(1, "mine")]), Some(2)), None);
}

#[test]
fn created_token_must_be_found_again() {
    let err = created_client_token(&tokens(vec![])).unwrap_err();
    assert_eq!(err.text(), "客户端密钥已创建，但暂时无法读取，请刷新后重试");
    let ok = created_client_token(&tokens(vec![token(9, ACCOUNT_CLIENT_TOKEN_NAME)])).unwrap();
    assert_eq!(ok, (9, ACCOUNT_CLIENT_TOKEN_NAME.to_string()));
}

#[test]
fn the_client_token_request_is_unlimited_and_named() {
    match client_token_body() {
        JsonValue::Object(e) => {
            assert!(e.iter().any(|(k, v)| k == "name"
                && matches!(v, JsonValue::Str(s) if s == ACCOUNT_CLIENT_TOKEN_NAME)));
            assert!(e.iter().any(|(k, v)| k == "expired_time" && matches!(v, JsonValue::Int(-1))));
            assert!(e.iter().any(|(k, v)| k == "unlimited_quota" && matches!(v, JsonValue::Bool(true))));
        }
        _ => panic!("not an object"),
    }
}

#[test]
fn key_replies_get_the_sk_prefix_once() {
    let data = JsonValue::Object(vec![("key".to_string(), JsonValue::Str("abc123".to_string()))]);
    assert_eq!(full_key_from_data(&data).unwrap(), "sk-abc123");
    let data = JsonValue::Object(vec![("key".to_string(), JsonValue::Str("sk-abc123".to_string()))]);
    assert_eq!(full_key_from_data(&data).unwrap(), "sk-abc123");
    let err = full_key_from_data(&JsonValue::Object(vec![])).unwrap_err();
    assert_eq!(err.text(), "取回令牌 key 失败：响应格式异常");
}

#[test]
fn keys_are_masked_for_display() {
    assert_eq!(mask_key("sk-12345"), "sk-****");
    assert_eq!(mask_key("sk-abcdefghijklmnop"), "sk-abc****mnop");
}

#[test]
fn the_key_path_names_the_token() {
    assert_eq!(token_key_path(42), "/api/token/42/key");
    assert_eq!(token_key_path(-3), "/api/token/-3/key");
}

#[test]
fn a_listed_local_key_is_kept_with_its_first_name() {
    let items = tokens(vec![token(4, "smart-agent-a"), token(8, "first"), token(8, "second")]);
    assert_eq!(find_account_client_token(&items, Some(8)), Some((8, "first".to_string())));
    assert_eq!(find_account_client_token(&items, Some(99)), Some((4, "smart-agent-a".to_string())));
    let items = tokens(vec![token(4, "plain")]);
    assert_eq!(find_account_client_token(&items, Some(99)), None);
}
