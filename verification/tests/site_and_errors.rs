use smart_agent::apply_codex_config_headless;
use smart_agent::codex::apply_result;
use smart_agent::error::AppError;
use smart_agent::site::{api_url, v1_base_url};
use smart_agent::text::encode_path_segment;

#[test]
fn addresses_are_built_on_the_fixed_site() {
    assert_eq!(api_url("/api/status"), "https://api.smart-agent.eu.cc/api/status");
    assert_eq!(v1_base_url(), "https://api.smart-agent.eu.cc/v1");
}

#[test]
fn errors_read_as_the_user_sees_them() {
    assert_eq!(AppError::io("/x/config.toml", "denied").text(), "IO 错误（/x/config.toml）：denied");
    assert_eq!(AppError::toml("/x/config.toml", "bad").text(), "TOML 配置解析失败（/x/config.toml）：bad");
    assert_eq!(AppError::json("eof").text(), "JSON 解析失败：eof");
    assert_eq!(AppError::msg("plain").text(), "plain");
    assert_eq!(AppError::http_failure(true, false, "x").text(), "网络请求失败：请求超时，请检查网络后重试");
    assert_eq!(AppError::http_failure(false, true, "x").text(), "网络请求失败：无法连接到服务器，请检查网络后重试");
    assert_eq!(AppError::http_failure(false, false, "tls").text(), "网络请求失败：tls");
}

#[test]
fn the_headless_run_reports_text() {
    assert_eq!(apply_codex_config_headless(Ok(apply_result(None, false, false, false))), Ok(()));
    assert_eq!(
        apply_codex_config_headless(Err(AppError::msg("本机尚未保存 API 令牌，请先在 Smart Agent 登录"))),
        Err("本机尚未保存 API 令牌，请先在 Smart Agent 登录".to_string())
    );
}

#[test]
fn path_segments_never_hold_a_slash() {
    assert_eq!(encode_path_segment("a/b c~-_.Z9"), "a%2Fb%20c~-_.Z9");
    assert_eq!(encode_path_segment("中"), "%E4%B8%AD");
    assert!(!encode_path_segment("/x/y/").contains('/'));
}
