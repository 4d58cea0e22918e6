//! The connectivity self-test: one minimal `/v1/responses` request made with
//! the issued key, turning "configured" into "verified".

use vstd::prelude::*;
use vstd::utf8::{decode_utf8, encode_utf8_decode_utf8, is_char_boundary};
use vstd::string::StringSliceAdditionalSpecFns;
use crate::error::{message, AppError};
use crate::json::{get_str, json_pairs, push_field, Json, JsonValue};
use crate::site::{spec_v1_base_url, v1_base_url};
use crate::store::LocalStore;
use crate::text::{concat2, concat4, dec, trim, trim_str, u64_text};

verus! {

/// The outcome of the self-test.
#[derive(Debug)]
pub struct ConnectivityResult {
    pub ok: bool,
    pub latency_ms: u64,
    pub http_status: u16,
    pub model: String,
    /// A readable explanation when the test failed; empty when it passed.
    pub message: String,
}

/// The key that the test sends: the issued `sk-` key, which must exist.
pub fn connectivity_key(store: &LocalStore) -> (res: Result<String, AppError>)
    ensures
        match store.sk_key {
            Some(k) => res matches Ok(r) && r@ == k@,
            None => res matches Err(e) && e@ == message("尚未获取 API 令牌，请先完成「自动开卡」"@),
        },
{
    match &store.sk_key {
        Some(k) => Ok(k.clone()),
        None => Err(AppError::msg("尚未获取 API 令牌，请先完成「自动开卡」")),
    }
}

/// The model chosen in the app, where it is not blank; otherwise the caller
/// falls back to the site's default model.
pub fn preferred_test_model(stored: &Option<String>) -> (res: Option<String>)
    ensures
        match stored {
            Some(m) => if trim(m@).len() > 0 {
                res matches Some(r) && r@ == m@
            } else {
                res is None
            },
            None => res is None,
        },
{
    match stored {
        Some(m) => {
            let t = trim_str(m.as_str());
            if t.as_str().is_empty() {
                None
            } else {
                Some(m.clone())
            }
        },
        None => None,
    }
}

/// The address of the test request.
pub fn responses_url() -> (res: String)
    ensures
        res@ == spec_v1_base_url() + "/responses"@,
{
    let base = v1_base_url();
    concat2(base.as_str(), "/responses")
}

/// The smallest request that the endpoint accepts (16 output tokens).
pub fn ping_body(model: &str) -> (res: JsonValue)
    ensures
        res@ == Json::Object(
            seq![
                ("model"@, Json::Str(model@)),
                ("input"@, Json::Str("ping"@)),
                ("max_output_tokens"@, Json::Int(16)),
                ("stream"@, Json::Bool(false)),
            ],
        ),
{
    let mut e: Vec<(String, JsonValue)> = Vec::new();
    push_field(&mut e, "model", JsonValue::string(model));
    push_field(&mut e, "input", JsonValue::string("ping"));
    push_field(&mut e, "max_output_tokens", JsonValue::Int(16));
    push_field(&mut e, "stream", JsonValue::Bool(false));
    assert(json_pairs(e@) =~= seq![
        ("model"@, Json::Str(model@)),
        ("input"@, Json::Str("ping"@)),
        ("max_output_tokens"@, Json::Int(16)),
        ("stream"@, Json::Bool(false)),
    ]);
    JsonValue::Object(e)
}

/// The text shown when the request could not be sent.
pub open spec fn send_failure_text(is_timeout: bool, is_connect: bool, error_text: Seq<char>) -> Seq<char> {
    if is_timeout {
        "连接超时：请检查网络后重试"@
    } else if is_connect {
        "无法连接到站点服务：请确认服务是否在线"@
    } else {
        "网络错误："@ + error_text
    }
}

/// The result when the request could not be sent at all (status 0).
pub fn send_failure_result(model: String, latency_ms: u64, is_timeout: bool, is_connect: bool, error_text: &str) -> (res: ConnectivityResult)
    ensures
        !res.ok,
        res.latency_ms == latency_ms,
        res.http_status == 0,
        res.model@ == model@,
        res.message@ == send_failure_text(is_timeout, is_connect, error_text@),
{
    let msg = if is_timeout {
        "连接超时：请检查网络后重试".to_owned()
    } else if is_connect {
        "无法连接到站点服务：请确认服务是否在线".to_owned()
    } else {
        concat2("网络错误：", error_text)
    };
    ConnectivityResult { ok: false, latency_ms, http_status: 0, model, message: msg }
}

/// The upstream's own explanation: OpenAI's `{"error":{"message":..}}`, else
/// the site's `{"message":..}`.
pub open spec fn upstream_detail(v: Json) -> Option<Seq<char>> {
    let nested = match v.get("error"@) {
        Some(e) => get_str(e, "message"@),
        None => None,
    };
    match nested {
        Some(m) => Some(m),
        None => get_str(v, "message"@),
    }
}

/// The reply body cut to its first 200 bytes.
pub open spec fn first_200_bytes(text: &str) -> Seq<char> {
    if text.spec_bytes().len() <= 200 {
        text@
    } else {
        decode_utf8(text.spec_bytes().take(200))
    }
}

/// Cutting the body at 200 bytes is defined (the cut must fall on a char
/// boundary).
pub open spec fn cut_ok(text: &str) -> bool {
    text.spec_bytes().len() <= 200 || is_char_boundary(text.spec_bytes(), 200)
}

/// What the failure says beyond the status: the upstream explanation where
/// the body is JSON and carries one, else the start of the body.
pub open spec fn failure_detail(parsed: Option<Json>) -> Option<Seq<char>> {
    match parsed {
        Some(v) => upstream_detail(v),
        None => None,
    }
}

/// A hint for the common failure statuses.
pub open spec fn status_hint(status: u16) -> Seq<char> {
    if status == 401 || status == 403 {
        "令牌无效或已被禁用，请尝试重新运行向导重新开卡"@
    } else if status == 404 {
        "站点未开放 /v1/responses（渠道需原生支持 Responses API）"@
    } else if status == 429 {
        "触发限流，请稍后重试"@
    } else {
        "请求失败"@
    }
}

fn hint_text(status: u16) -> (res: &'static str)
    ensures
        res@ == status_hint(status),
{
    if status == 401 || status == 403 {
        "令牌无效或已被禁用，请尝试重新运行向导重新开卡"
    } else if status == 404 {
        "站点未开放 /v1/responses（渠道需原生支持 Responses API）"
    } else if status == 429 {
        "触发限流，请稍后重试"
    } else {
        "请求失败"
    }
}

fn upstream_detail_of(v: &JsonValue) -> (res: Option<String>)
    ensures
        match res {
            Some(r) => upstream_detail(v@) == Some(r@),
            None => upstream_detail(v@) is None,
        },
{
    let nested = match v.get("error") {
        Some(e) => match e.get("message") {
            Some(m) => match m.as_str() {
                Some(s) => Some(s.clone()),
                None => None,
            },
            None => None,
        },
        None => None,
    };
    match nested {
        Some(m) => Some(m),
        None => match v.get("message") {
            Some(m) => match m.as_str() {
                Some(s) => Some(s.clone()),
                None => None,
            },
            None => None,
        },
    }
}

fn first_200(text: &str) -> (res: String)
    requires
        text.spec_bytes().len() <= usize::MAX,
        cut_ok(text),
    ensures
        res@ == first_200_bytes(text),
{
    if text.len() <= 200 {
        return text.to_owned();
    }
    let (a, _) = text.split_at(200);
    proof {
        encode_utf8_decode_utf8(a@);
        assert(text.spec_bytes().take(200) =~= text.spec_bytes().subrange(0, 200));
    }
    a.to_owned()
}

/// Whether the parsed reply carries an upstream explanation (otherwise the
/// start of the body is shown and must be cut on a char boundary).
pub fn upstream_detail_present(parsed: &Option<JsonValue>) -> (res: bool)
    ensures
        res == (failure_detail(
            match parsed {
                Some(v) => Some(v@),
                None => None,
            },
        ) is Some),
{
    match parsed {
        Some(v) => upstream_detail_of(v).is_some(),
        None => false,
    }
}

/// The `Authorization` header value of the test request.
pub fn authorization_value(sk_key: &str) -> (res: String)
    ensures
        res@ == "Bearer "@ + sk_key@,
{
    concat2("Bearer ", sk_key)
}

/// The result once a reply came back: a 2xx status passes; any other fails
/// with the status's hint, the status and the detail.
pub fn reply_result(model: String, latency_ms: u64, status: u16, body_text: &str, parsed: &Option<JsonValue>) -> (res: ConnectivityResult)
    requires
        body_text.spec_bytes().len() <= usize::MAX,
        !(200 <= status < 300) && failure_detail(
            match parsed {
                Some(v) => Some(v@),
                None => None,
            },
        ) is None ==> cut_ok(body_text),
    ensures
        res.ok == (200 <= status < 300),
        res.latency_ms == latency_ms,
        res.http_status == status,
        res.model@ == model@,
        (200 <= status < 300) ==> res.message@.len() == 0,
        !(200 <= status < 300) ==> res.message@ == status_hint(status) + "（HTTP "@ + dec(status as nat)
            + "）："@ + match failure_detail(
            match parsed {
                Some(v) => Some(v@),
                None => None,
            },
        ) {
            Some(d) => d,
            None => first_200_bytes(body_text),
        },
{
    if 200 <= status && status < 300 {
        return ConnectivityResult { ok: true, latency_ms, http_status: status, model, message: String::new() };
    }
    let detail = match parsed {
        Some(v) => match upstream_detail_of(v) {
            Some(d) => d,
            None => first_200(body_text),
        },
        None => first_200(body_text),
    };
    let code = u64_text(status as u64);
    let head = concat4(hint_text(status), "（HTTP ", code.as_str(), "）：");
    let msg = concat2(head.as_str(), detail.as_str());
    ConnectivityResult { ok: false, latency_ms, http_status: status, model, message: msg }
}

} // verus!
